//! The shared resource pool, modeled by its admission control: a bounded
//! number of concurrent checkouts.  The pool is constructed once at startup
//! and shared by every request context; checkout and return are the only
//! operations that move its state.

use vstd::prelude::*;

verus! {

/// The admission state of the shared connection pool.
pub struct PoolState {
    /// The configured maximum number of concurrent checkouts.
    pub max_size: usize,
    /// How many connections are currently checked out.
    pub checked_out: usize,
}

impl PoolState {
    /// The pool bound: the checkouts never exceed the configured maximum.
    pub open spec fn wf(&self) -> bool {
        self.checked_out <= self.max_size
    }

    /// A fresh pool with a positive capacity and nothing checked out.
    pub fn new(max_size: usize) -> (p: PoolState)
        requires
            max_size >= 1,
        ensures
            p.wf(),
            p.max_size == max_size,
            p.checked_out == 0,
    {
        PoolState { max_size, checked_out: 0 }
    }

    /// Check a connection out.  Succeeds exactly when the pool is not
    /// exhausted; a full pool is left unchanged, so the bound is never
    /// exceeded.
    pub fn try_checkout(&mut self) -> (r: bool)
        requires
            old(self).wf(),
        ensures
            final(self).wf(),
            final(self).max_size == old(self).max_size,
            r == (old(self).checked_out < old(self).max_size),
            r ==> final(self).checked_out == old(self).checked_out + 1,
            !r ==> final(self).checked_out == old(self).checked_out,
    {
        if self.checked_out < self.max_size {
            self.checked_out = self.checked_out + 1;
            true
        } else {
            false
        }
    }

    /// Return a checked-out connection to the pool.
    pub fn give_back(&mut self)
        requires
            old(self).wf(),
            old(self).checked_out >= 1,
        ensures
            final(self).wf(),
            final(self).max_size == old(self).max_size,
            final(self).checked_out == old(self).checked_out - 1,
    {
        self.checked_out = self.checked_out - 1;
    }
}

/// The pool law: a well-formed pool never has more connections checked out
/// than its configured maximum, and `try_checkout` and `give_back` both
/// preserve well-formedness, so the bound holds over any sequence of
/// operations that starts from `PoolState::new`.
pub proof fn lemma_pool_bounded(p: PoolState)
    requires
        p.wf(),
    ensures
        p.checked_out <= p.max_size,
{
}

} // verus!
