//! Sorting of values that carry a totally ordered key.

use vstd::prelude::*;
use vstd::relations::{sorted_by, total_ordering};
use vstd::seq_lib::{lemma_sorted_unique, to_multiset_build};
use crate::permutation::lemma_empty_multiset;
use crate::order::{group_leq, group_order, lemma_group_order_total, lemma_path_order_total, path_leq, path_order};

verus! {

/// A value that is ordered by a key.
pub trait Ordered: Sized {
    /// The mathematical value by which values of this type are ordered.
    type Key;

    /// The key of this value.
    spec fn key(&self) -> Self::Key;

    /// The order of the keys.
    spec fn order() -> spec_fn(Self::Key, Self::Key) -> bool;

    /// The order of the keys is total.
    proof fn lemma_order_total()
        ensures
            total_ordering(Self::order()),
    ;

    /// Whether this value comes no later than `other`.
    fn at_most(&self, other: &Self) -> (yes: bool)
        ensures
            yes == Self::order()(self.key(), other.key()),
    ;
}

impl Ordered for String {
    type Key = Seq<char>;

    open spec fn key(&self) -> Seq<char> {
        self@
    }

    open spec fn order() -> spec_fn(Seq<char>, Seq<char>) -> bool {
        path_order()
    }

    proof fn lemma_order_total() {
        lemma_path_order_total();
    }

    fn at_most(&self, other: &Self) -> (yes: bool) {
        path_leq(self.as_str(), other.as_str())
    }
}

impl Ordered for Vec<String> {
    type Key = Seq<Seq<char>>;

    open spec fn key(&self) -> Seq<Seq<char>> {
        self.deep_view()
    }

    open spec fn order() -> spec_fn(Seq<Seq<char>>, Seq<Seq<char>>) -> bool {
        group_order()
    }

    proof fn lemma_order_total() {
        lemma_group_order_total();
    }

    fn at_most(&self, other: &Self) -> (yes: bool) {
        group_leq(self, other)
    }
}

/// The keys of `items`, in their order.
pub open spec fn keys<T: Ordered>(items: Seq<T>) -> Seq<T::Key> {
    Seq::new(items.len(), |i: int| items[i].key())
}

/// `s` is in descending order: no element comes before a larger one.
pub open spec fn descending<K>(s: Seq<K>, leq: spec_fn(K, K) -> bool) -> bool {
    forall|i: int, j: int| 0 <= i < j < s.len() ==> #[trigger] leq(s[j], s[i])
}

/// Every element of `low` is at most every element of `high`.
pub open spec fn all_at_most<K>(low: Seq<K>, high: Seq<K>, leq: spec_fn(K, K) -> bool) -> bool {
    forall|i: int, j: int| 0 <= i < low.len() && 0 <= j < high.len() ==> #[trigger] leq(low[i], high[j])
}

/// The keys of a vector that has lost its last item.
proof fn lemma_keys_pop<T: Ordered>(before: Seq<T>, after: Seq<T>, item: T)
    requires
        before.len() > 0,
        after == before.drop_last(),
        item == before.last(),
    ensures
        keys(before) == keys(after).push(item.key()),
        keys(before).to_multiset() == keys(after).to_multiset().insert(item.key()),
{
    assert(keys(before) == keys(after).push(item.key()));
    to_multiset_build(keys(after), item.key());
}

/// The keys of a vector that has gained an item at its end.
proof fn lemma_keys_push<T: Ordered>(before: Seq<T>, after: Seq<T>, item: T)
    requires
        after == before.push(item),
    ensures
        keys(after) == keys(before).push(item.key()),
        keys(after).to_multiset() == keys(before).to_multiset().insert(item.key()),
{
    assert(keys(after) == keys(before).push(item.key()));
    to_multiset_build(keys(before), item.key());
}

/// Two sorted vectors merged into one sorted vector.
fn merge<T: Ordered>(left: Vec<T>, right: Vec<T>) -> (out: Vec<T>)
    requires
        total_ordering(T::order()),
        sorted_by(keys(left@), T::order()),
        sorted_by(keys(right@), T::order()),
    ensures
        sorted_by(keys(out@), T::order()),
        keys(out@).to_multiset() == keys(left@).to_multiset().add(keys(right@).to_multiset()),
{
    let ghost total = keys(left@).to_multiset().add(keys(right@).to_multiset());
    let mut a = left;
    let mut b = right;
    // The larger of the two last items goes first, so that the items come
    // out in descending order.
    let mut down: Vec<T> = Vec::new();
    proof {
        broadcast use vstd::multiset::group_multiset_axioms;

        lemma_empty_multiset(keys(down@));
        assert(keys(down@).to_multiset().add(keys(a@).to_multiset()).add(keys(b@).to_multiset())
            =~= total);
    }
    while a.len() > 0 || b.len() > 0
        invariant
            total_ordering(T::order()),
            sorted_by(keys(a@), T::order()),
            sorted_by(keys(b@), T::order()),
            descending(keys(down@), T::order()),
            all_at_most(keys(a@), keys(down@), T::order()),
            all_at_most(keys(b@), keys(down@), T::order()),
            keys(down@).to_multiset().add(keys(a@).to_multiset()).add(keys(b@).to_multiset())
                == total,
        decreases a.len() + b.len(),
    {
        let ghost a_before = a@;
        let ghost b_before = b@;
        let ghost down_before = down@;
        let from_a = if a.len() == 0 {
            false
        } else if b.len() == 0 {
            true
        } else {
            b[b.len() - 1].at_most(&a[a.len() - 1])
        };
        let item = if from_a {
            a.pop().unwrap()
        } else {
            b.pop().unwrap()
        };
        down.push(item);
        proof {
            broadcast use vstd::multiset::group_multiset_axioms;

            let k = item.key();
            lemma_keys_push(down_before, down@, item);
            if from_a {
                lemma_keys_pop(a_before, a@, item);
            } else {
                lemma_keys_pop(b_before, b@, item);
            }
            let ka = keys(a_before);
            let kb = keys(b_before);
            let kd = keys(down_before);
            assert(sorted_by(keys(a@), T::order())) by {
                assert forall|i: int, j: int| 0 <= i < j < keys(a@).len() implies T::order()(
                    #[trigger] keys(a@)[i],
                    #[trigger] keys(a@)[j],
                ) by {
                    assert(keys(a@)[i] == ka[i] && keys(a@)[j] == ka[j]);
                    assert(T::order()(ka[i], ka[j]));
                }
            }
            assert(sorted_by(keys(b@), T::order())) by {
                assert forall|i: int, j: int| 0 <= i < j < keys(b@).len() implies T::order()(
                    #[trigger] keys(b@)[i],
                    #[trigger] keys(b@)[j],
                ) by {
                    assert(keys(b@)[i] == kb[i] && keys(b@)[j] == kb[j]);
                    assert(T::order()(kb[i], kb[j]));
                }
            }
            // The item taken is the largest that is left.
            assert forall|i: int| 0 <= i < keys(a@).len() implies T::order()(
                #[trigger] keys(a@)[i],
                k,
            ) by {
                assert(keys(a@)[i] == ka[i]);
                if from_a {
                    assert(T::order()(ka[i], ka[ka.len() - 1]));
                } else {
                    if ka.len() > 0 {
                        assert(T::order()(ka[ka.len() - 1], kb[kb.len() - 1]) || T::order()(
                            kb[kb.len() - 1],
                            ka[ka.len() - 1],
                        ));
                        if i < ka.len() - 1 {
                            assert(T::order()(ka[i], ka[ka.len() - 1]));
                        }
                    }
                }
            }
            assert forall|i: int| 0 <= i < keys(b@).len() implies T::order()(
                #[trigger] keys(b@)[i],
                k,
            ) by {
                assert(keys(b@)[i] == kb[i]);
                if from_a {
                    if kb.len() > 0 {
                        if i < kb.len() - 1 {
                            assert(T::order()(kb[i], kb[kb.len() - 1]));
                        }
                    }
                } else {
                    assert(T::order()(kb[i], kb[kb.len() - 1]));
                }
            }
            assert forall|j: int| 0 <= j < kd.len() implies T::order()(k, #[trigger] kd[j]) by {
                if from_a {
                    assert(T::order()(ka[ka.len() - 1], kd[j]));
                } else {
                    assert(T::order()(kb[kb.len() - 1], kd[j]));
                }
            }
            assert(descending(keys(down@), T::order())) by {
                assert forall|i: int, j: int| 0 <= i < j < keys(down@).len() implies T::order()(
                    #[trigger] keys(down@)[j],
                    #[trigger] keys(down@)[i],
                ) by {
                    if j < kd.len() {
                        assert(T::order()(kd[j], kd[i]));
                    } else {
                        assert(T::order()(k, kd[i]));
                    }
                }
            }
            assert(all_at_most(keys(a@), keys(down@), T::order())) by {
                assert forall|i: int, j: int|
                    0 <= i < keys(a@).len() && 0 <= j < keys(down@).len() implies T::order()(
                    #[trigger] keys(a@)[i],
                    #[trigger] keys(down@)[j],
                ) by {
                    if j < kd.len() {
                        assert(keys(a@)[i] == ka[i]);
                        assert(T::order()(ka[i], kd[j]));
                    } else {
                        assert(T::order()(keys(a@)[i], k));
                    }
                }
            }
            assert(all_at_most(keys(b@), keys(down@), T::order())) by {
                assert forall|i: int, j: int|
                    0 <= i < keys(b@).len() && 0 <= j < keys(down@).len() implies T::order()(
                    #[trigger] keys(b@)[i],
                    #[trigger] keys(down@)[j],
                ) by {
                    if j < kd.len() {
                        assert(keys(b@)[i] == kb[i]);
                        assert(T::order()(kb[i], kd[j]));
                    } else {
                        assert(T::order()(keys(b@)[i], k));
                    }
                }
            }
            assert(keys(down@).to_multiset().add(keys(a@).to_multiset()).add(
                keys(b@).to_multiset(),
            ) =~= kd.to_multiset().add(ka.to_multiset()).add(kb.to_multiset()));
        }
    }
    // Turned round, the items are in ascending order.
    let mut out: Vec<T> = Vec::new();
    proof {
        broadcast use vstd::multiset::group_multiset_axioms;

        lemma_empty_multiset(keys(out@));
        lemma_empty_multiset(keys(a@));
        lemma_empty_multiset(keys(b@));
        assert(keys(out@).to_multiset().add(keys(down@).to_multiset()) =~= total);
    }
    while down.len() > 0
        invariant
            total_ordering(T::order()),
            sorted_by(keys(out@), T::order()),
            descending(keys(down@), T::order()),
            all_at_most(keys(out@), keys(down@), T::order()),
            keys(out@).to_multiset().add(keys(down@).to_multiset()) == total,
        decreases down.len(),
    {
        let ghost down_before = down@;
        let ghost out_before = out@;
        let item = down.pop().unwrap();
        out.push(item);
        proof {
            broadcast use vstd::multiset::group_multiset_axioms;

            let k = item.key();
            let kd = keys(down_before);
            let ko = keys(out_before);
            lemma_keys_pop(down_before, down@, item);
            lemma_keys_push(out_before, out@, item);
            assert forall|i: int, j: int| 0 <= i < j < keys(out@).len() implies T::order()(
                #[trigger] keys(out@)[i],
                #[trigger] keys(out@)[j],
            ) by {
                if j < ko.len() {
                    assert(T::order()(ko[i], ko[j]));
                } else {
                    assert(T::order()(ko[i], kd[kd.len() - 1]));
                }
            }
            assert(descending(keys(down@), T::order())) by {
                assert forall|i: int, j: int| 0 <= i < j < keys(down@).len() implies T::order()(
                    #[trigger] keys(down@)[j],
                    #[trigger] keys(down@)[i],
                ) by {
                    assert(T::order()(kd[j], kd[i]));
                }
            }
            assert(all_at_most(keys(out@), keys(down@), T::order())) by {
                assert forall|i: int, j: int|
                    0 <= i < keys(out@).len() && 0 <= j < keys(down@).len() implies T::order()(
                    #[trigger] keys(out@)[i],
                    #[trigger] keys(down@)[j],
                ) by {
                    assert(keys(down@)[j] == kd[j]);
                    if i < ko.len() {
                        assert(T::order()(ko[i], kd[j]));
                    } else {
                        assert(T::order()(kd[kd.len() - 1], kd[j]));
                    }
                }
            }
            assert(keys(out@).to_multiset().add(keys(down@).to_multiset()) =~= ko.to_multiset().add(
                kd.to_multiset(),
            ));
        }
    }
    proof {
        broadcast use vstd::multiset::group_multiset_axioms;

        lemma_empty_multiset(keys(down@));
        assert(keys(out@).to_multiset() =~= total);
    }
    out
}

/// The items in ascending order of their keys, by merge sort.
pub fn sorted<T: Ordered>(items: Vec<T>) -> (out: Vec<T>)
    ensures
        keys(out@) == keys(items@).sort_by(T::order()),
    decreases items.len(),
{
    let ghost all = keys(items@);
    proof {
        T::lemma_order_total();
        all.lemma_sort_by_ensures(T::order());
    }
    if items.len() <= 1 {
        proof {
            lemma_sorted_unique(all, all.sort_by(T::order()), T::order());
        }
        return items;
    }
    let half = items.len() / 2;
    let mut left = items;
    let mut right: Vec<T> = Vec::new();
    proof {
        broadcast use vstd::multiset::group_multiset_axioms;

        lemma_empty_multiset(keys(right@));
        assert(keys(left@).to_multiset().add(keys(right@).to_multiset()) =~= all.to_multiset());
    }
    while right.len() < half
        invariant
            left.len() + right.len() == items.len(),
            half == items.len() / 2,
            right.len() <= half,
            keys(left@).to_multiset().add(keys(right@).to_multiset()) == all.to_multiset(),
        decreases half - right.len(),
    {
        let ghost left_before = left@;
        let ghost right_before = right@;
        let item = left.pop().unwrap();
        right.push(item);
        proof {
            broadcast use vstd::multiset::group_multiset_axioms;

            lemma_keys_pop(left_before, left@, item);
            lemma_keys_push(right_before, right@, item);
            assert(keys(left@).to_multiset().add(keys(right@).to_multiset()) =~= keys(
                left_before,
            ).to_multiset().add(keys(right_before).to_multiset()));
        }
    }
    let ghost left_keys = keys(left@);
    let ghost right_keys = keys(right@);
    let left_sorted = sorted(left);
    let right_sorted = sorted(right);
    proof {
        left_keys.lemma_sort_by_ensures(T::order());
        right_keys.lemma_sort_by_ensures(T::order());
    }
    let out = merge(left_sorted, right_sorted);
    proof {
        lemma_sorted_unique(keys(out@), all.sort_by(T::order()), T::order());
    }
    out
}

} // verus!
