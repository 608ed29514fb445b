//! Progress of a scan: how many of its units of work have completed.

use vstd::prelude::*;

verus! {

/// The share of a scan's units that have completed, kept as a count out of a
/// total that is fixed when the scan starts.
#[derive(Clone, Copy, Debug, PartialEq, Eq, Structural)]
pub struct Progress {
    completed: usize,
    total: usize,
}

/// The mathematical value of a `Progress`: `completed` units out of `total`.
pub ghost struct ProgressView {
    pub completed: nat,
    pub total: nat,
}

/// Progress before any unit of `total` has completed.
pub open spec fn fresh(total: nat) -> ProgressView {
    ProgressView { completed: 0, total }
}

/// Progress after one more completion: the count grows by one and stops at
/// the total.
pub open spec fn advanced(p: ProgressView) -> ProgressView {
    ProgressView {
        completed: if p.completed < p.total {
            p.completed + 1
        } else {
            p.total
        },
        total: p.total,
    }
}

/// Progress after `n` more completions.
pub open spec fn advanced_by(p: ProgressView, n: nat) -> ProgressView
    decreases n,
{
    if n == 0 {
        p
    } else {
        advanced(advanced_by(p, (n - 1) as nat))
    }
}

/// Numerator of the progress scalar. With no units at all the scalar is one.
pub open spec fn numerator(p: ProgressView) -> nat {
    if p.total == 0 {
        1
    } else {
        p.completed
    }
}

/// Denominator of the progress scalar; never zero.
pub open spec fn denominator(p: ProgressView) -> nat {
    if p.total == 0 {
        1
    } else {
        p.total
    }
}

/// The scalar is exactly one.
pub open spec fn is_one(p: ProgressView) -> bool {
    numerator(p) == denominator(p)
}

/// The scalar of `a` is at most the scalar of `b`.
pub open spec fn at_most(a: ProgressView, b: ProgressView) -> bool {
    numerator(a) * denominator(b) <= numerator(b) * denominator(a)
}

/// After `n` completions out of `total` the count is `n`, or `total` if `n`
/// is larger.
pub proof fn lemma_advanced_by(total: nat, n: nat)
    ensures
        advanced_by(fresh(total), n).total == total,
        advanced_by(fresh(total), n).completed == if n <= total {
            n
        } else {
            total
        },
    decreases n,
{
    if n > 0 {
        lemma_advanced_by(total, (n - 1) as nat);
    }
}

/// Progress never goes back, never exceeds one, and is exactly one once as
/// many units have completed as were submitted; before that it is below one.
/// With no units at all it is one from the start.
pub proof fn lemma_progress_is_monotone_and_reaches_one(total: nat, n: nat, m: nat)
    requires
        n <= m,
    ensures
        at_most(advanced_by(fresh(total), n), advanced_by(fresh(total), m)),
        numerator(advanced_by(fresh(total), n)) <= denominator(advanced_by(fresh(total), n)),
        is_one(advanced_by(fresh(total), n)) <==> n >= total,
{
    lemma_advanced_by(total, n);
    lemma_advanced_by(total, m);
    let a = advanced_by(fresh(total), n);
    let b = advanced_by(fresh(total), m);
    if total > 0 {
        assert(a.completed * total <= b.completed * total) by (nonlinear_arith)
            requires
                a.completed <= b.completed,
        ;
    }
}

impl View for Progress {
    type V = ProgressView;

    closed spec fn view(&self) -> ProgressView {
        ProgressView { completed: self.completed as nat, total: self.total as nat }
    }
}

impl Progress {
    /// No more units have completed than there are.
    pub open spec fn wf(&self) -> bool {
        self@.completed <= self@.total
    }

    /// Progress of a scan of `total` units, none of them completed.
    pub fn new(total: usize) -> (progress: Progress)
        ensures
            progress.wf(),
            progress@ == fresh(total as nat),
    {
        Progress { completed: 0, total }
    }

    /// Counts one more completed unit. The count stops at the total, so the
    /// scalar never exceeds one.
    pub fn advance(&mut self)
        requires
            old(self).wf(),
        ensures
            final(self).wf(),
            final(self)@ == advanced(old(self)@),
    {
        if self.completed < self.total {
            self.completed = self.completed + 1;
        }
    }

    /// Whether every unit has completed, so that the scalar is exactly one.
    pub fn is_complete(&self) -> (done: bool)
        requires
            self.wf(),
        ensures
            done == is_one(self@),
            done == (self@.completed == self@.total),
    {
        self.completed == self.total
    }

    /// Number of units that have completed.
    pub fn completed(&self) -> (n: usize)
        ensures
            n == self@.completed,
    {
        self.completed
    }

    /// Number of units of the scan.
    pub fn total(&self) -> (n: usize)
        ensures
            n == self@.total,
    {
        self.total
    }

    /// The progress scalar as a fraction: numerator and denominator, the
    /// numerator no larger than the denominator and the denominator not zero.
    pub fn fraction(&self) -> (parts: (usize, usize))
        requires
            self.wf(),
        ensures
            parts.0 == numerator(self@),
            parts.1 == denominator(self@),
            parts.0 <= parts.1,
            parts.1 > 0,
    {
        if self.total == 0 {
            (1, 1)
        } else {
            (self.completed, self.total)
        }
    }
}

} // verus!
