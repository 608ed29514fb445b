//! The duplicate extractor: from the buckets of a finished scan to the
//! duplicate groups, in an order that depends on the paths alone.

use vstd::prelude::*;
use vstd::relations::sorted_by;
use crate::buckets::{fingerprints, lemma_fingerprints_cover, lemma_fingerprints_distinct, paths_with, path_if, HashBuckets};
use crate::order::{group_order, lemma_group_order_total, lemma_path_order_total, path_order};
use crate::permutation::{lemma_filter_map_permutation, lemma_same_members, lemma_sort_ignores_order};
use crate::sorting::{keys, sorted};

verus! {

/// The duplicate group of `fp`: the paths of its bucket in ascending order,
/// if there are at least two of them.
pub open spec fn group_of(records: Seq<(u64, Seq<char>)>, fp: u64) -> Option<Seq<Seq<char>>> {
    let paths = paths_with(records, fp);
    if paths.len() >= 2 {
        Some(paths.sort_by(path_order()))
    } else {
        None
    }
}

/// The duplicate groups of the buckets of `fps`, in the order of `fps`.
pub open spec fn groups_among(records: Seq<(u64, Seq<char>)>, fps: Seq<u64>) -> Seq<
    Seq<Seq<char>>,
> {
    fps.filter_map(|fp: u64| group_of(records, fp))
}

/// The duplicate groups in the order of their buckets.
pub open spec fn groups_by_bucket(records: Seq<(u64, Seq<char>)>) -> Seq<Seq<Seq<char>>> {
    groups_among(records, fingerprints(records))
}

/// The duplicate groups of `records`: one group for each bucket of two or
/// more paths, holding all of that bucket's paths in ascending order; the
/// groups themselves in ascending order, so that the group with the smallest
/// first member comes first.
pub open spec fn duplicate_groups(records: Seq<(u64, Seq<char>)>) -> Seq<Seq<Seq<char>>> {
    groups_by_bucket(records).sort_by(group_order())
}

/// What the duplicate groups look like: they stand in ascending order, and
/// each of them holds all the paths of one bucket of two or more, in
/// ascending order.
pub proof fn lemma_groups_are_ordered(records: Seq<(u64, Seq<char>)>)
    ensures
        sorted_by(duplicate_groups(records), group_order()),
        forall|g: int|
            0 <= g < duplicate_groups(records).len() ==> {
                let group = #[trigger] duplicate_groups(records)[g];
                &&& group.len() >= 2
                &&& sorted_by(group, path_order())
                &&& exists|fp: u64|
                    fingerprints(records).contains(fp) && group.to_multiset() == paths_with(
                        records,
                        fp,
                    ).to_multiset()
            },
{
    lemma_path_order_total();
    lemma_group_order_total();
    let unordered = groups_by_bucket(records);
    let groups = duplicate_groups(records);
    unordered.lemma_sort_by_ensures(group_order());
    assert forall|g: int| 0 <= g < groups.len() implies {
        let group = #[trigger] groups[g];
        &&& group.len() >= 2
        &&& sorted_by(group, path_order())
        &&& exists|fp: u64|
            fingerprints(records).contains(fp) && group.to_multiset() == paths_with(
                records,
                fp,
            ).to_multiset()
    } by {
        let group = groups[g];
        assert(groups.contains(group));
        groups.to_multiset_ensures();
        unordered.to_multiset_ensures();
        assert(unordered.contains(group));
        let of = |fp: u64| group_of(records, fp);
        fingerprints(records).lemma_filter_map_contains(of, group);
        let fp = choose|fp: u64| #[trigger] fingerprints(records).contains(fp) && of(fp) == Some(group);
        let paths = paths_with(records, fp);
        paths.lemma_sort_by_ensures(path_order());
        paths.to_multiset_ensures();
        group.to_multiset_ensures();
    }
}

/// Two runs that record the same images fill the bucket of `fp` with the same
/// paths, so that the bucket has the same size and gives the same group.
pub proof fn lemma_same_bucket(a: Seq<(u64, Seq<char>)>, b: Seq<(u64, Seq<char>)>, fp: u64)
    requires
        a.to_multiset() == b.to_multiset(),
    ensures
        paths_with(a, fp).to_multiset() == paths_with(b, fp).to_multiset(),
        paths_with(a, fp).len() == paths_with(b, fp).len(),
        group_of(a, fp) == group_of(b, fp),
{
    lemma_path_order_total();
    lemma_filter_map_permutation(a, b, |r: (u64, Seq<char>)| path_if(r, fp));
    paths_with(a, fp).to_multiset_ensures();
    paths_with(b, fp).to_multiset_ensures();
    lemma_sort_ignores_order(paths_with(a, fp), paths_with(b, fp), path_order());
}

/// The duplicate groups do not depend on the order in which the images were
/// recorded: two runs that record the same images, each under the same
/// fingerprint, report the same groups in the same order.
pub proof fn lemma_groups_ignore_arrival_order(
    a: Seq<(u64, Seq<char>)>,
    b: Seq<(u64, Seq<char>)>,
)
    requires
        a.to_multiset() == b.to_multiset(),
    ensures
        duplicate_groups(a) == duplicate_groups(b),
{
    lemma_path_order_total();
    lemma_group_order_total();
    // Each bucket holds the same paths in both runs, so each group is the same.
    assert forall|fp: u64| #[trigger] group_of(a, fp) == group_of(b, fp) by {
        lemma_same_bucket(a, b, fp);
    }
    // Both runs have the same fingerprints, each once.
    let fps_a = fingerprints(a);
    let fps_b = fingerprints(b);
    lemma_fingerprints_distinct(a);
    lemma_fingerprints_distinct(b);
    assert forall|fp: u64| fps_a.contains(fp) <==> fps_b.contains(fp) by {
        lemma_same_bucket(a, b, fp);
        lemma_fingerprints_cover(a, fp);
        lemma_fingerprints_cover(b, fp);
    }
    lemma_same_members(fps_a, fps_b);
    // So the groups are the same up to their order, which sorting settles.
    let of_a = |fp: u64| group_of(a, fp);
    let of_b = |fp: u64| group_of(b, fp);
    assert(of_a =~= of_b);
    lemma_filter_map_permutation(fps_a, fps_b, of_a);
    assert(groups_by_bucket(a) == fps_a.filter_map(of_a));
    assert(groups_by_bucket(b) == fps_b.filter_map(of_b));
    lemma_sort_ignores_order(groups_by_bucket(a), groups_by_bucket(b), group_order());
}

/// Copies of the strings of `paths`, in the same order.
fn copy_paths(paths: &Vec<String>) -> (copy: Vec<String>)
    ensures
        copy.deep_view() == paths.deep_view(),
{
    let mut copy: Vec<String> = Vec::new();
    let mut i: usize = 0;
    while i < paths.len()
        invariant
            i <= paths.len(),
            copy.len() == i,
            forall|j: int| 0 <= j < i ==> copy[j]@ == paths[j]@,
        decreases paths.len() - i,
    {
        copy.push(paths[i].clone());
        i = i + 1;
    }
    assert(copy.deep_view() =~= paths.deep_view());
    copy
}

/// The duplicate groups of a finished scan: every bucket of two or more
/// paths, with all of its members.
pub fn extract(buckets: &HashBuckets) -> (groups: Vec<Vec<String>>)
    requires
        buckets.wf(),
    ensures
        groups.deep_view() == duplicate_groups(buckets@),
{
    let ghost records = buckets@;
    let ghost fps = fingerprints(records);
    let mut found: Vec<Vec<String>> = Vec::new();
    let n = buckets.len();
    let mut i: usize = 0;
    while i < n
        invariant
            buckets.wf(),
            records == buckets@,
            fps == fingerprints(records),
            n == fps.len(),
            i <= n,
            found.deep_view() == groups_among(records, fps.take(i as int)),
        decreases n - i,
    {
        let ghost before = found.deep_view();
        proof {
            assert(fps.take(i + 1).drop_last() == fps.take(i as int));
            assert(fps.take(i + 1).last() == fps[i as int]);
        }
        let paths = buckets.paths_at(i);
        if paths.len() >= 2 {
            let copy = copy_paths(paths);
            assert(keys(copy@) =~= paths.deep_view());
            let members = sorted(copy);
            assert(members.deep_view() =~= keys(members@));
            found.push(members);
            assert(found.deep_view() == before + seq![members.deep_view()]);
        }
        i = i + 1;
    }
    assert(fps.take(n as int) == fps);
    let ghost unordered = found.deep_view();
    assert(keys(found@) =~= unordered);
    let groups = sorted(found);
    assert(groups.deep_view() =~= keys(groups@));
    groups
}

} // verus!
