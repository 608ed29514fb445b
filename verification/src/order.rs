//! The lexicographic order in which paths and duplicate groups are reported.

use vstd::prelude::*;
use vstd::relations::{antisymmetric, strongly_connected, total_ordering, transitive};
use vstd::std_specs::iter::IteratorSpec;

verus! {

/// Lexicographic order on sequences over an order `leq` of their elements:
/// the first place where `a` and `b` differ decides, and a sequence precedes
/// every sequence that it begins.
pub open spec fn lex_leq<T>(a: Seq<T>, b: Seq<T>, leq: spec_fn(T, T) -> bool) -> bool
    decreases a.len(),
{
    if a.len() == 0 {
        true
    } else if b.len() == 0 {
        false
    } else if a.first() == b.first() {
        lex_leq(a.drop_first(), b.drop_first(), leq)
    } else {
        leq(a.first(), b.first())
    }
}

/// Characters in the order of their code points.
pub open spec fn char_order() -> spec_fn(char, char) -> bool {
    |x: char, y: char| x <= y
}

/// Paths in lexicographic order of their characters.
pub open spec fn path_order() -> spec_fn(Seq<char>, Seq<char>) -> bool {
    |a: Seq<char>, b: Seq<char>| lex_leq(a, b, char_order())
}

/// Groups of paths in lexicographic order of their members: the group whose
/// first member is smaller comes first, and the later members decide between
/// groups that begin alike.
pub open spec fn group_order() -> spec_fn(Seq<Seq<char>>, Seq<Seq<char>>) -> bool {
    |a: Seq<Seq<char>>, b: Seq<Seq<char>>| lex_leq(a, b, path_order())
}

/// Every sequence is at most itself.
pub proof fn lemma_lex_reflexive<T>(a: Seq<T>, leq: spec_fn(T, T) -> bool)
    ensures
        lex_leq(a, a, leq),
    decreases a.len(),
{
    if a.len() > 0 {
        lemma_lex_reflexive(a.drop_first(), leq);
    }
}

/// Two sequences that are each at most the other are the same.
pub proof fn lemma_lex_antisymmetric<T>(a: Seq<T>, b: Seq<T>, leq: spec_fn(T, T) -> bool)
    requires
        antisymmetric(leq),
        lex_leq(a, b, leq),
        lex_leq(b, a, leq),
    ensures
        a == b,
    decreases a.len(),
{
    if a.len() == 0 {
        assert(a =~= b);
    } else {
        if a.first() == b.first() {
            lemma_lex_antisymmetric(a.drop_first(), b.drop_first(), leq);
            assert(a =~= seq![a.first()] + a.drop_first());
            assert(b =~= seq![b.first()] + b.drop_first());
        } else {
            assert(leq(a.first(), b.first()) && leq(b.first(), a.first()));
        }
    }
}

/// The order passes along chains.
pub proof fn lemma_lex_transitive<T>(a: Seq<T>, b: Seq<T>, c: Seq<T>, leq: spec_fn(T, T) -> bool)
    requires
        antisymmetric(leq),
        transitive(leq),
        lex_leq(a, b, leq),
        lex_leq(b, c, leq),
    ensures
        lex_leq(a, c, leq),
    decreases a.len(),
{
    if a.len() > 0 {
        let x = a.first();
        let y = b.first();
        let z = c.first();
        if x == y && y == z {
            lemma_lex_transitive(a.drop_first(), b.drop_first(), c.drop_first(), leq);
        } else if x == y || y == z {
        } else {
            assert(leq(x, y) && leq(y, z));
            assert(leq(x, z));
            if x == z {
                assert(leq(y, x));
            }
        }
    }
}

/// Any two sequences are comparable.
pub proof fn lemma_lex_connected<T>(a: Seq<T>, b: Seq<T>, leq: spec_fn(T, T) -> bool)
    requires
        strongly_connected(leq),
    ensures
        lex_leq(a, b, leq) || lex_leq(b, a, leq),
    decreases a.len(),
{
    if a.len() > 0 && b.len() > 0 {
        if a.first() == b.first() {
            lemma_lex_connected(a.drop_first(), b.drop_first(), leq);
        } else {
            assert(leq(a.first(), b.first()) || leq(b.first(), a.first()));
        }
    }
}

/// The lexicographic order over a total order is a total order.
pub proof fn lemma_lex_is_total_ordering<T>(
    leq: spec_fn(T, T) -> bool,
    lex: spec_fn(Seq<T>, Seq<T>) -> bool,
)
    requires
        total_ordering(leq),
        forall|a: Seq<T>, b: Seq<T>| #[trigger] lex(a, b) == lex_leq(a, b, leq),
    ensures
        total_ordering(lex),
{
    assert forall|a: Seq<T>| #[trigger] lex(a, a) by {
        lemma_lex_reflexive(a, leq);
    }
    assert forall|a: Seq<T>, b: Seq<T>| #[trigger] lex(a, b) && #[trigger] lex(b, a) implies a
        == b by {
        lemma_lex_antisymmetric(a, b, leq);
    }
    assert forall|a: Seq<T>, b: Seq<T>, c: Seq<T>| #[trigger]
        lex(a, b) && #[trigger] lex(b, c) implies lex(a, c) by {
        lemma_lex_transitive(a, b, c, leq);
    }
    assert forall|a: Seq<T>, b: Seq<T>| #[trigger] lex(a, b) || #[trigger] lex(b, a) by {
        lemma_lex_connected(a, b, leq);
    }
}

/// Paths are totally ordered.
pub proof fn lemma_path_order_total()
    ensures
        total_ordering(path_order()),
{
    assert(total_ordering(char_order()));
    lemma_lex_is_total_ordering(char_order(), path_order());
}

/// Groups of paths are totally ordered.
pub proof fn lemma_group_order_total()
    ensures
        total_ordering(group_order()),
{
    lemma_path_order_total();
    lemma_lex_is_total_ordering(path_order(), group_order());
}

/// Whether path `a` comes no later than path `b`.
pub fn path_leq(a: &str, b: &str) -> (at_most: bool)
    ensures
        at_most == path_order()(a@, b@),
{
    broadcast use vstd::string::group_string_axioms;

    let mut left = a.chars();
    let mut right = b.chars();
    loop
        invariant
            left.decrease() is Some,
            lex_leq(a@, b@, char_order()) == lex_leq(
                left.remaining(),
                right.remaining(),
                char_order(),
            ),
        decreases left.decrease()->0,
    {
        match left.next() {
            None => {
                return true;
            },
            Some(x) => match right.next() {
                None => {
                    return false;
                },
                Some(y) => {
                    if x != y {
                        return x < y;
                    }
                },
            },
        }
    }
}

/// Whether group `a` comes no later than group `b`.
pub fn group_leq(a: &Vec<String>, b: &Vec<String>) -> (at_most: bool)
    ensures
        at_most == group_order()(a.deep_view(), b.deep_view()),
{
    let ghost left = a.deep_view();
    let ghost right = b.deep_view();
    let mut k: usize = 0;
    assert(left.skip(0) == left && right.skip(0) == right);
    loop
        invariant
            k <= a.len(),
            k <= b.len(),
            left == a.deep_view(),
            right == b.deep_view(),
            lex_leq(left, right, path_order()) == lex_leq(
                left.skip(k as int),
                right.skip(k as int),
                path_order(),
            ),
        decreases a.len() - k,
    {
        if k == a.len() {
            return true;
        }
        if k == b.len() {
            return false;
        }
        proof {
            assert(left.skip(k as int).drop_first() == left.skip(k + 1));
            assert(right.skip(k as int).drop_first() == right.skip(k + 1));
            assert(left.skip(k as int).first() == a[k as int]@);
            assert(right.skip(k as int).first() == b[k as int]@);
        }
        if a[k] != b[k] {
            return path_leq(a[k].as_str(), b[k].as_str());
        }
        k = k + 1;
    }
}

} // verus!
