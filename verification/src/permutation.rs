//! Sequences that hold the same elements in different orders.

use vstd::multiset::Multiset;
use vstd::prelude::*;
use vstd::relations::total_ordering;
use vstd::seq_lib::{lemma_multiset_commutative, lemma_sorted_unique, to_multiset_remove};

verus! {

/// A sequence without elements has the empty multiset of elements.
pub proof fn lemma_empty_multiset<A>(s: Seq<A>)
    requires
        s.len() == 0,
    ensures
        s.to_multiset() == Multiset::<A>::empty(),
{
    broadcast use vstd::multiset::group_multiset_axioms;

    s.to_multiset_ensures();
    assert forall|a: A| s.to_multiset().count(a) == 0 by {
        assert(!s.contains(a));
    }
    assert(s.to_multiset() =~= Multiset::<A>::empty());
}

/// What `f` keeps of a single element.
pub open spec fn kept<A, B>(a: A, f: spec_fn(A) -> Option<B>) -> Seq<B> {
    match f(a) {
        Some(b) => seq![b],
        None => Seq::empty(),
    }
}

/// Filtering and mapping a concatenation is the same as concatenating what
/// is kept of its parts.
pub proof fn lemma_filter_map_concat<A, B>(s: Seq<A>, t: Seq<A>, f: spec_fn(A) -> Option<B>)
    ensures
        (s + t).filter_map(f) == s.filter_map(f) + t.filter_map(f),
    decreases t.len(),
{
    if t.len() == 0 {
        assert(s + t == s);
        assert(s.filter_map(f) + t.filter_map(f) == s.filter_map(f));
    } else {
        lemma_filter_map_concat(s, t.drop_last(), f);
        assert((s + t).drop_last() == s + t.drop_last());
        assert((s + t).last() == t.last());
        assert((s + t).filter_map(f) == (s + t.drop_last()).filter_map(f) + kept(t.last(), f));
        assert(t.filter_map(f) == t.drop_last().filter_map(f) + kept(t.last(), f));
        assert((s.filter_map(f) + t.drop_last().filter_map(f)) + kept(t.last(), f)
            == s.filter_map(f) + (t.drop_last().filter_map(f) + kept(t.last(), f)));
    }
}

/// Taking one element out of a sequence takes what `f` keeps of that element
/// out of the filtered and mapped sequence.
pub proof fn lemma_filter_map_remove<A, B>(s: Seq<A>, i: int, f: spec_fn(A) -> Option<B>)
    requires
        0 <= i < s.len(),
    ensures
        s.filter_map(f).to_multiset() == s.remove(i).filter_map(f).to_multiset().add(
            kept(s[i], f).to_multiset(),
        ),
{
    broadcast use vstd::multiset::group_multiset_axioms;

    let front = s.take(i);
    let one = seq![s[i]];
    let back = s.skip(i + 1);
    assert(s == (front + one) + back);
    assert(s.remove(i) == front + back);
    lemma_filter_map_concat(front + one, back, f);
    lemma_filter_map_concat(front, one, f);
    lemma_filter_map_concat(front, back, f);
    Seq::lemma_filter_map_singleton(s[i], f);
    assert(one.filter_map(f) == kept(s[i], f));
    let x = front.filter_map(f);
    let y = one.filter_map(f);
    let z = back.filter_map(f);
    lemma_multiset_commutative(x + y, z);
    lemma_multiset_commutative(x, y);
    lemma_multiset_commutative(x, z);
    assert(((x + y) + z).to_multiset() =~= (x + z).to_multiset().add(y.to_multiset()));
}

/// Sequences with the same elements keep the same elements under a filter
/// and map, whatever the order.
pub proof fn lemma_filter_map_permutation<A, B>(a: Seq<A>, b: Seq<A>, f: spec_fn(A) -> Option<B>)
    requires
        a.to_multiset() == b.to_multiset(),
    ensures
        a.filter_map(f).to_multiset() == b.filter_map(f).to_multiset(),
    decreases a.len(),
{
    broadcast use vstd::multiset::group_multiset_axioms;

    a.to_multiset_ensures();
    b.to_multiset_ensures();
    if a.len() == 0 {
        assert(b.len() == 0);
    } else {
        let x = a.last();
        assert(a.contains(x));
        assert(b.to_multiset().count(x) > 0);
        assert(b.contains(x));
        let j = choose|j: int| 0 <= j < b.len() && b[j] == x;
        let shorter_a = a.remove(a.len() - 1);
        let shorter_b = b.remove(j);
        to_multiset_remove(a, a.len() - 1);
        to_multiset_remove(b, j);
        lemma_filter_map_permutation(shorter_a, shorter_b, f);
        lemma_filter_map_remove(a, a.len() - 1, f);
        lemma_filter_map_remove(b, j, f);
    }
}

/// Sequences without repetitions that have the same members have the same
/// elements.
pub proof fn lemma_same_members<A>(a: Seq<A>, b: Seq<A>)
    requires
        a.no_duplicates(),
        b.no_duplicates(),
        forall|x: A| a.contains(x) <==> b.contains(x),
    ensures
        a.to_multiset() == b.to_multiset(),
{
    broadcast use vstd::multiset::group_multiset_axioms;

    a.to_multiset_ensures();
    b.to_multiset_ensures();
    a.lemma_multiset_has_no_duplicates();
    b.lemma_multiset_has_no_duplicates();
    assert forall|x: A| a.to_multiset().count(x) == b.to_multiset().count(x) by {
        assert(a.contains(x) <==> b.contains(x));
        if a.contains(x) {
            assert(a.to_multiset().contains(x));
            assert(b.to_multiset().contains(x));
        }
    }
    assert(a.to_multiset() =~= b.to_multiset());
}

/// Sequences with the same elements are the same once sorted by a total
/// order.
pub proof fn lemma_sort_ignores_order<A>(a: Seq<A>, b: Seq<A>, leq: spec_fn(A, A) -> bool)
    requires
        total_ordering(leq),
        a.to_multiset() == b.to_multiset(),
    ensures
        a.sort_by(leq) == b.sort_by(leq),
{
    a.lemma_sort_by_ensures(leq);
    b.lemma_sort_by_ensures(leq);
    lemma_sorted_unique(a.sort_by(leq), b.sort_by(leq), leq);
}

} // verus!
