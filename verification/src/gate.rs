//! A counting permit pool that bounds how many directory traversals run at once.

use vstd::prelude::*;

verus! {

/// Number of directory traversals that may be in progress at the same time.
pub const MAX_CONCURRENT_TASKS: usize = 10;

/// A counting admission gate: at most `capacity` permits are out at any time.
pub struct AdmissionGate {
    capacity: usize,
    in_use: usize,
}

impl AdmissionGate {
    /// Total number of permits.
    pub closed spec fn capacity(&self) -> nat {
        self.capacity as nat
    }

    /// Permits currently held.
    pub closed spec fn in_use(&self) -> nat {
        self.in_use as nat
    }

    /// A gate never hands out more permits than it has.
    pub open spec fn wf(&self) -> bool {
        self.in_use() <= self.capacity()
    }

    /// Permits that can still be acquired.
    pub open spec fn available(&self) -> nat {
        (self.capacity() - self.in_use()) as nat
    }

    /// A gate with `capacity` permits, none of them held.
    pub fn new(capacity: usize) -> (gate: AdmissionGate)
        ensures
            gate.wf(),
            gate.capacity() == capacity,
            gate.in_use() == 0,
    {
        AdmissionGate { capacity, in_use: 0 }
    }

    /// Takes a permit if one is free. A refused request changes nothing, so
    /// the caller keeps its work queued and asks again later.
    pub fn try_acquire(&mut self) -> (granted: bool)
        requires
            old(self).wf(),
        ensures
            final(self).wf(),
            final(self).capacity() == old(self).capacity(),
            granted == (old(self).in_use() < old(self).capacity()),
            granted ==> final(self).in_use() == old(self).in_use() + 1,
            !granted ==> final(self).in_use() == old(self).in_use(),
    {
        if self.in_use < self.capacity {
            self.in_use = self.in_use + 1;
            true
        } else {
            false
        }
    }

    /// Gives one held permit back.
    pub fn release(&mut self)
        requires
            old(self).wf(),
            old(self).in_use() > 0,
        ensures
            final(self).wf(),
            final(self).capacity() == old(self).capacity(),
            final(self).in_use() == old(self).in_use() - 1,
    {
        self.in_use = self.in_use - 1;
    }

    /// Number of permits currently held.
    pub fn held(&self) -> (n: usize)
        ensures
            n == self.in_use(),
    {
        self.in_use
    }

    /// Total number of permits of this gate.
    pub fn limit(&self) -> (n: usize)
        ensures
            n == self.capacity(),
    {
        self.capacity
    }
}

} // verus!
