//! Hash buckets: the recorded images grouped by fingerprint.

use std::collections::HashMap;
use vstd::multiset::Multiset;
use vstd::prelude::*;
use vstd::seq_lib::to_multiset_build;
use crate::fingerprint::Fingerprint;
use crate::permutation::lemma_empty_multiset;

verus! {

broadcast use vstd::std_specs::hash::group_hash_axioms;

/// The path of `record` if its fingerprint is `fp`.
pub open spec fn path_if(record: (u64, Seq<char>), fp: u64) -> Option<Seq<char>> {
    if record.0 == fp {
        Some(record.1)
    } else {
        None
    }
}

/// The bucket of `fp`: the paths recorded with that fingerprint, in the order
/// in which they were recorded.
pub open spec fn paths_with(records: Seq<(u64, Seq<char>)>, fp: u64) -> Seq<Seq<char>> {
    records.filter_map(|r: (u64, Seq<char>)| path_if(r, fp))
}

/// The fingerprints that occur in `records`, each once, in the order of their
/// first occurrence.
pub open spec fn fingerprints(records: Seq<(u64, Seq<char>)>) -> Seq<u64>
    decreases records.len(),
{
    if records.len() == 0 {
        Seq::empty()
    } else {
        let earlier = fingerprints(records.drop_last());
        let fp = records.last().0;
        if earlier.contains(fp) {
            earlier
        } else {
            earlier.push(fp)
        }
    }
}

/// A fingerprint is listed exactly when its bucket is not empty.
pub proof fn lemma_fingerprints_cover(records: Seq<(u64, Seq<char>)>, fp: u64)
    ensures
        fingerprints(records).contains(fp) <==> paths_with(records, fp).len() > 0,
    decreases records.len(),
{
    if records.len() > 0 {
        let earlier = fingerprints(records.drop_last());
        lemma_fingerprints_cover(records.drop_last(), fp);
        let last = records.last().0;
        if earlier.contains(last) {
        } else {
            assert(earlier.push(last).last() == last);
            if earlier.contains(fp) {
                let i = choose|i: int| 0 <= i < earlier.len() && earlier[i] == fp;
                assert(earlier.push(last)[i] == fp);
            }
        }
    }
}

/// No fingerprint is listed twice.
pub proof fn lemma_fingerprints_distinct(records: Seq<(u64, Seq<char>)>)
    ensures
        fingerprints(records).no_duplicates(),
    decreases records.len(),
{
    if records.len() > 0 {
        lemma_fingerprints_distinct(records.drop_last());
    }
}

/// What recording one more image does to the buckets: the bucket of its
/// fingerprint gains the path at its end, every other bucket stays, and the
/// fingerprint is listed last if it is new.
pub proof fn lemma_record(records: Seq<(u64, Seq<char>)>, fp: u64, path: Seq<char>)
    ensures
        paths_with(records.push((fp, path)), fp) == paths_with(records, fp).push(path),
        forall|other: u64|
            other != fp ==> #[trigger] paths_with(records.push((fp, path)), other) == paths_with(
                records,
                other,
            ),
        fingerprints(records.push((fp, path))) == if fingerprints(records).contains(fp) {
            fingerprints(records)
        } else {
            fingerprints(records).push(fp)
        },
{
    let longer = records.push((fp, path));
    assert(longer.drop_last() == records);
    assert(paths_with(longer, fp) == paths_with(records, fp) + seq![path]);
    assert(paths_with(records, fp) + seq![path] == paths_with(records, fp).push(path));
}

/// The paths of `records`, in their order.
pub open spec fn recorded_paths(records: Seq<(u64, Seq<char>)>) -> Seq<Seq<char>> {
    records.map_values(|r: (u64, Seq<char>)| r.1)
}

/// The paths of the buckets of `fps` taken together, each as often as it
/// occurs in them.
pub open spec fn bucket_union(records: Seq<(u64, Seq<char>)>, fps: Seq<u64>) -> Multiset<
    Seq<char>,
>
    decreases fps.len(),
{
    if fps.len() == 0 {
        Multiset::empty()
    } else {
        bucket_union(records, fps.drop_last()).add(paths_with(records, fps.last()).to_multiset())
    }
}

/// Recording one more image adds its path to the union of a set of buckets
/// if the bucket of its fingerprint is among them, and leaves it otherwise.
pub proof fn lemma_bucket_union_after_record(
    records: Seq<(u64, Seq<char>)>,
    fp: u64,
    path: Seq<char>,
    fps: Seq<u64>,
)
    requires
        fps.no_duplicates(),
    ensures
        bucket_union(records.push((fp, path)), fps) == if fps.contains(fp) {
            bucket_union(records, fps).insert(path)
        } else {
            bucket_union(records, fps)
        },
    decreases fps.len(),
{
    broadcast use vstd::multiset::group_multiset_axioms;

    let longer = records.push((fp, path));
    if fps.len() > 0 {
        let rest = fps.drop_last();
        let last = fps.last();
        lemma_bucket_union_after_record(records, fp, path, rest);
        lemma_record(records, fp, path);
        assert(fps.contains(last));
        assert forall|x: u64| rest.contains(x) implies fps.contains(x) by {
            let i = choose|i: int| 0 <= i < rest.len() && rest[i] == x;
            assert(fps[i] == x);
        }
        if last == fp {
            assert(!rest.contains(fp)) by {
                if rest.contains(fp) {
                    let i = choose|i: int| 0 <= i < rest.len() && rest[i] == fp;
                    assert(fps[i] == fps[fps.len() - 1]);
                }
            }
            to_multiset_build(paths_with(records, fp), path);
            assert(bucket_union(longer, fps) =~= bucket_union(records, fps).insert(path));
        } else {
            assert(paths_with(longer, last) == paths_with(records, last));
            if fps.contains(fp) {
                let i = choose|i: int| 0 <= i < fps.len() && fps[i] == fp;
                assert(rest[i] == fp);
                assert(bucket_union(longer, fps) =~= bucket_union(records, fps).insert(path));
            } else {
                assert(!rest.contains(fp));
            }
        }
    }
}

/// The buckets divide the recorded paths among them: taken together they
/// hold every recorded path, each as often as it was recorded, and nothing
/// else.
pub proof fn lemma_buckets_hold_recorded_paths(records: Seq<(u64, Seq<char>)>)
    ensures
        bucket_union(records, fingerprints(records)) == recorded_paths(records).to_multiset(),
    decreases records.len(),
{
    broadcast use vstd::multiset::group_multiset_axioms;

    if records.len() == 0 {
        lemma_empty_multiset(recorded_paths(records));
    } else {
        let earlier = records.drop_last();
        let fp = records.last().0;
        let path = records.last().1;
        assert(records == earlier.push((fp, path)));
        let fps = fingerprints(earlier);
        lemma_buckets_hold_recorded_paths(earlier);
        lemma_fingerprints_distinct(earlier);
        lemma_bucket_union_after_record(earlier, fp, path, fps);
        lemma_record(earlier, fp, path);
        lemma_fingerprints_cover(earlier, fp);
        assert(recorded_paths(records) == recorded_paths(earlier).push(path));
        to_multiset_build(recorded_paths(earlier), path);
        if !fps.contains(fp) {
            assert(fps.push(fp).drop_last() == fps);
            lemma_empty_multiset(paths_with(earlier, fp));
            to_multiset_build(paths_with(earlier, fp), path);
            assert(bucket_union(records, fps.push(fp)) =~= bucket_union(earlier, fps).insert(path));
        }
    }
}

/// The images with one fingerprint.
struct Bucket {
    fingerprint: Fingerprint,
    paths: Vec<String>,
}

/// The recorded images grouped by fingerprint. The buckets stand in the
/// order in which their fingerprints first came in, and the paths of a bucket
/// in the order in which they came in.
pub struct HashBuckets {
    index: HashMap<u64, usize>,
    buckets: Vec<Bucket>,
    records: Ghost<Seq<(u64, Seq<char>)>>,
}

impl View for HashBuckets {
    type V = Seq<(u64, Seq<char>)>;

    /// Everything recorded so far: fingerprint bits and path, in order of
    /// arrival.
    closed spec fn view(&self) -> Seq<(u64, Seq<char>)> {
        self.records@
    }
}

impl HashBuckets {
    /// The buckets are the grouping of the records: one bucket for each
    /// fingerprint that occurs, holding the paths recorded with it, and the
    /// index finds each bucket by its fingerprint.
    pub closed spec fn wf(&self) -> bool {
        let fps = fingerprints(self.records@);
        &&& self.buckets@.len() == fps.len()
        &&& forall|i: int|
            0 <= i < fps.len() ==> {
                &&& (#[trigger] self.buckets@[i]).fingerprint.bits == fps[i]
                &&& self.buckets@[i].paths.deep_view() == paths_with(self.records@, fps[i])
                &&& self.index@.contains_key(fps[i])
                &&& self.index@[fps[i]] == i
            }
        &&& forall|k: u64| #[trigger]
            self.index@.contains_key(k) ==> self.index@[k] < fps.len() && fps[self.index@[k] as int]
                == k
    }

    /// No images recorded.
    pub fn new() -> (buckets: HashBuckets)
        ensures
            buckets.wf(),
            buckets@ == Seq::<(u64, Seq<char>)>::empty(),
    {
        HashBuckets { index: HashMap::new(), buckets: Vec::new(), records: Ghost(Seq::empty()) }
    }

    /// Records `path` under `fingerprint`: the path joins the end of that
    /// fingerprint's bucket.
    pub fn record(&mut self, fingerprint: Fingerprint, path: String)
        requires
            old(self).wf(),
        ensures
            final(self).wf(),
            final(self)@ == old(self)@.push((fingerprint.bits, path@)),
    {
        let ghost before = self.records@;
        let ghost fps = fingerprints(before);
        let ghost after = before.push((fingerprint.bits, path@));
        proof {
            lemma_record(before, fingerprint.bits, path@);
            lemma_fingerprints_cover(before, fingerprint.bits);
        }
        let found = match self.index.get(&fingerprint.bits) {
            Some(position) => Some(*position),
            None => None,
        };
        match found {
            Some(position) => {
                assert(fps.contains(fingerprint.bits));
                let ghost old_buckets = self.buckets@;
                let ghost old_paths = old_buckets[position as int].paths.deep_view();
                self.buckets[position].paths.push(path);
                self.records = Ghost(after);
                proof {
                    assert(self.buckets@[position as int].paths.deep_view() == old_paths.push(
                        path@,
                    ));
                    assert forall|i: int| 0 <= i < fps.len() implies {
                        &&& (#[trigger] self.buckets@[i]).fingerprint.bits == fps[i]
                        &&& self.buckets@[i].paths.deep_view() == paths_with(after, fps[i])
                    } by {
                        assert(old_buckets[i].fingerprint.bits == fps[i]);
                        if i != position {
                            assert(self.buckets@[i] == old_buckets[i]);
                            assert(fps[i] != fingerprint.bits);
                        }
                    }
                }
            },
            None => {
                assert(!fps.contains(fingerprint.bits)) by {
                    if fps.contains(fingerprint.bits) {
                        let i = choose|i: int| 0 <= i < fps.len() && fps[i] == fingerprint.bits;
                        assert(self.buckets@[i].fingerprint.bits == fps[i]);
                    }
                }
                let position = self.buckets.len();
                let mut paths: Vec<String> = Vec::new();
                paths.push(path);
                assert(paths.deep_view() == Seq::<Seq<char>>::empty().push(path@));
                let ghost old_buckets = self.buckets@;
                let ghost old_index = self.index@;
                self.index.insert(fingerprint.bits, position);
                self.buckets.push(Bucket { fingerprint, paths });
                self.records = Ghost(after);
                proof {
                    let new_fps = fps.push(fingerprint.bits);
                    assert(fingerprints(after) == new_fps);
                    assert(paths_with(before, fingerprint.bits).len() == 0);
                    assert(paths_with(before, fingerprint.bits) == Seq::<Seq<char>>::empty());
                    assert forall|i: int| 0 <= i < new_fps.len() implies {
                        &&& (#[trigger] self.buckets@[i]).fingerprint.bits == new_fps[i]
                        &&& self.buckets@[i].paths.deep_view() == paths_with(after, new_fps[i])
                        &&& self.index@.contains_key(new_fps[i])
                        &&& self.index@[new_fps[i]] == i
                    } by {
                        if i < fps.len() {
                            assert(old_buckets[i].fingerprint.bits == fps[i]);
                            assert(fps[i] != fingerprint.bits);
                        }
                    }
                    assert forall|k: u64| #[trigger] self.index@.contains_key(k) implies self.index@[k]
                        < new_fps.len() && new_fps[self.index@[k] as int] == k by {
                        if k != fingerprint.bits {
                            assert(old_index.contains_key(k));
                        }
                    }
                }
            },
        }
    }

    /// Number of buckets: of distinct fingerprints recorded.
    pub fn len(&self) -> (n: usize)
        requires
            self.wf(),
        ensures
            n == fingerprints(self@).len(),
    {
        self.buckets.len()
    }

    /// The fingerprint of bucket `i`.
    pub fn fingerprint_at(&self, i: usize) -> (fingerprint: Fingerprint)
        requires
            self.wf(),
            i < fingerprints(self@).len(),
        ensures
            fingerprint.bits == fingerprints(self@)[i as int],
    {
        self.buckets[i].fingerprint
    }

    /// The paths of bucket `i`, in the order in which they were recorded.
    pub fn paths_at(&self, i: usize) -> (paths: &Vec<String>)
        requires
            self.wf(),
            i < fingerprints(self@).len(),
        ensures
            paths.deep_view() == paths_with(self@, fingerprints(self@)[i as int]),
    {
        &self.buckets[i].paths
    }

    /// The paths recorded under `fingerprint`; `None` if there are none.
    pub fn get(&self, fingerprint: Fingerprint) -> (paths: Option<&Vec<String>>)
        requires
            self.wf(),
        ensures
            paths is Some <==> paths_with(self@, fingerprint.bits).len() > 0,
            paths matches Some(found) ==> found.deep_view() == paths_with(self@, fingerprint.bits),
    {
        proof {
            lemma_fingerprints_cover(self@, fingerprint.bits);
        }
        match self.index.get(&fingerprint.bits) {
            Some(position) => {
                Some(&self.buckets[*position].paths)
            },
            None => {
                assert(!fingerprints(self@).contains(fingerprint.bits)) by {
                    let fps = fingerprints(self@);
                    if fps.contains(fingerprint.bits) {
                        let i = choose|i: int| 0 <= i < fps.len() && fps[i] == fingerprint.bits;
                        assert(self.buckets@[i].fingerprint.bits == fps[i]);
                    }
                }
                None
            },
        }
    }
}

} // verus!
