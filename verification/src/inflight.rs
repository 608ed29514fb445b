//! The names of the units of work that are out with a worker.

use vstd::prelude::*;
use vstd::seq_lib::{to_multiset_build, to_multiset_remove};

verus! {

/// The directories or files that have been handed out and have not been
/// reported back. A name that was handed out twice is held twice.
pub struct InFlight {
    names: Vec<String>,
}

impl View for InFlight {
    type V = Seq<Seq<char>>;

    /// The names that are out, in the order in which they went out.
    closed spec fn view(&self) -> Seq<Seq<char>> {
        self.names.deep_view()
    }
}

impl InFlight {
    /// Nothing is out.
    pub fn new() -> (out: InFlight)
        ensures
            out@ == Seq::<Seq<char>>::empty(),
    {
        let out = InFlight { names: Vec::new() };
        assert(out.names.deep_view() == Seq::<Seq<char>>::empty());
        out
    }

    /// Number of names that are out.
    pub fn len(&self) -> (n: usize)
        ensures
            n == self@.len(),
    {
        self.names.len()
    }

    /// Notes that `name` has gone out.
    pub fn send_out(&mut self, name: String)
        ensures
            final(self)@ == old(self)@.push(name@),
            final(self)@.to_multiset() == old(self)@.to_multiset().insert(name@),
    {
        let ghost before = self.names.deep_view();
        self.names.push(name);
        assert(self.names.deep_view() == before.push(name@));
        proof {
            to_multiset_build(before, name@);
        }
    }

    /// Takes `name` off the list if it is out, once; reports whether it was.
    pub fn retire(&mut self, name: &String) -> (found: bool)
        ensures
            found == old(self)@.contains(name@),
            found ==> final(self)@.len() == old(self)@.len() - 1 && final(self)@.to_multiset()
                == old(self)@.to_multiset().remove(name@),
            !found ==> final(self)@ == old(self)@,
    {
        let ghost before = self.names.deep_view();
        let mut i: usize = 0;
        while i < self.names.len()
            invariant
                i <= self.names.len(),
                before == old(self)@,
                before == self.names.deep_view(),
                forall|j: int| 0 <= j < i ==> before[j] != name@,
            decreases self.names.len() - i,
        {
            if self.names[i] == *name {
                assert(before[i as int] == name@);
                let _ = self.names.remove(i);
                assert(self.names.deep_view() == before.remove(i as int));
                proof {
                    to_multiset_remove(before, i as int);
                }
                return true;
            }
            i = i + 1;
        }
        false
    }
}

} // verus!
