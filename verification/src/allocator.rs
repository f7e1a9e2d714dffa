//! Allocation accounting under a hard cap, with a cooperative back-pressure
//! hook: besides the hard-fail path, a try-allocate path reports "pending"
//! when over budget so that a suspendable caller can yield and retry instead
//! of failing.

use vstd::prelude::*;

verus! {

/// The hard-fail allocation path reports this when a request would take the
/// accounted total to the cap or beyond.
#[derive(Clone, Copy, Debug, PartialEq, Eq, Structural)]
pub struct AllocError;

/// Outcome of the try-allocate path: either the request was granted and
/// accounted, or the caller should suspend and retry once space was freed.
#[derive(Clone, Copy, Debug, PartialEq, Eq, Structural)]
pub enum AllocPoll {
    Granted,
    Pending,
}

/// Allocation accounting with a cap.
///
/// `allocated` is by construction the sum of the sizes of live allocations:
/// every grant adds the requested size and every deallocation of a live
/// allocation subtracts its size. Every operation keeps `allocated <= cap`
/// (see `wf`), so the sum of live allocation sizes never exceeds the cap.
pub struct RestrictiveAlloc {
    max: usize,
    allocated: usize,
}

impl RestrictiveAlloc {
    /// The byte cap this accounting was created with.
    pub closed spec fn spec_cap(&self) -> usize {
        self.max
    }

    /// The sum of the sizes of live allocations.
    pub closed spec fn spec_allocated(&self) -> usize {
        self.allocated
    }

    /// The accounted total never exceeds the cap.
    pub open spec fn wf(&self) -> bool {
        self.spec_allocated() <= self.spec_cap()
    }

    /// Fresh accounting under the cap `max`, with nothing allocated.
    pub fn new(max: usize) -> (r: RestrictiveAlloc)
        ensures
            r.spec_cap() == max,
            r.spec_allocated() == 0,
            r.wf(),
    {
        RestrictiveAlloc { max, allocated: 0 }
    }

    /// The hard-fail path: the request is granted, and accounted, exactly
    /// when it keeps the accounted total strictly below the cap; otherwise
    /// nothing changes and the caller gets `AllocError`.
    pub fn allocate(&mut self, size: usize) -> (r: Result<(), AllocError>)
        requires
            old(self).wf(),
        ensures
            final(self).spec_cap() == old(self).spec_cap(),
            final(self).wf(),
            r is Ok <==> old(self).spec_allocated() + size < old(self).spec_cap(),
            r is Ok ==> final(self).spec_allocated() == old(self).spec_allocated() + size,
            r is Err ==> *final(self) == *old(self),
    {
        if size < self.max - self.allocated {
            self.allocated = self.allocated + size;
            Ok(())
        } else {
            Err(AllocError)
        }
    }

    /// The back-pressure path: the same predicate as `allocate`, but an
    /// over-budget request yields `Pending`, a signal to suspend and retry,
    /// rather than an error.
    pub fn try_allocate(&mut self, size: usize) -> (r: AllocPoll)
        requires
            old(self).wf(),
        ensures
            final(self).spec_cap() == old(self).spec_cap(),
            final(self).wf(),
            r == AllocPoll::Granted <==> old(self).spec_allocated() + size < old(self).spec_cap(),
            r == AllocPoll::Granted ==> final(self).spec_allocated() == old(self).spec_allocated()
                + size,
            r == AllocPoll::Pending ==> *final(self) == *old(self),
    {
        if size < self.max - self.allocated {
            self.allocated = self.allocated + size;
            AllocPoll::Granted
        } else {
            AllocPoll::Pending
        }
    }

    /// Return a live allocation of the given size to the budget.
    pub fn deallocate(&mut self, size: usize)
        requires
            old(self).wf(),
            size <= old(self).spec_allocated(),
        ensures
            final(self).spec_cap() == old(self).spec_cap(),
            final(self).spec_allocated() == old(self).spec_allocated() - size,
            final(self).wf(),
    {
        self.allocated = self.allocated - size;
    }

    /// The cap, as a value.
    pub fn cap(&self) -> (r: usize)
        ensures
            r == self.spec_cap(),
    {
        self.max
    }

    /// The accounted total, as a value.
    pub fn allocated(&self) -> (r: usize)
        ensures
            r == self.spec_allocated(),
    {
        self.allocated
    }
}

} // verus!
