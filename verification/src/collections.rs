//! A growable vector whose growth is metered by a `RestrictiveAlloc`, so
//! that an over-budget push reports back-pressure instead of failing.

use vstd::prelude::*;

use crate::allocator::{AllocPoll, RestrictiveAlloc};

verus! {

/// A vector drawing its storage from capped allocation accounting, one unit
/// per element. A push that would take the accounting to the cap or beyond
/// is refused and handed back, a signal to suspend and retry once space was
/// freed.
pub struct BoundedVec<T> {
    items: Vec<T>,
    alloc: RestrictiveAlloc,
}

impl<T> View for BoundedVec<T> {
    type V = Seq<T>;

    closed spec fn view(&self) -> Seq<T> {
        self.items@
    }
}

impl<T> BoundedVec<T> {
    /// The allocation cap, in units of one element.
    pub closed spec fn spec_cap(&self) -> usize {
        self.alloc.spec_cap()
    }

    /// The accounting is intact: every live element is accounted for, and
    /// the accounted total is within the cap.
    pub closed spec fn wf(&self) -> bool {
        &&& self.alloc.wf()
        &&& self.alloc.spec_allocated() == self.items@.len()
    }

    /// An empty vector with an allocation budget of `max` units.
    pub fn new(max: usize) -> (r: BoundedVec<T>)
        ensures
            r@ == Seq::<T>::empty(),
            r.spec_cap() == max,
            r.wf(),
    {
        BoundedVec { items: Vec::new(), alloc: RestrictiveAlloc::new(max) }
    }

    /// Append `element` if the budget admits one more unit; otherwise hand
    /// the element back, to be retried after a suspension.
    pub fn push(&mut self, element: T) -> (r: Option<T>)
        requires
            old(self).wf(),
        ensures
            final(self).wf(),
            final(self).spec_cap() == old(self).spec_cap(),
            r is None <==> old(self)@.len() + 1 < old(self).spec_cap(),
            r is None ==> final(self)@ == old(self)@.push(element),
            r is Some ==> final(self)@ == old(self)@ && r == Some(element),
    {
        match self.alloc.try_allocate(1) {
            AllocPoll::Granted => {
                self.items.push(element);
                None
            },
            AllocPoll::Pending => Some(element),
        }
    }

    /// The element at `idx`.
    pub fn get(&self, idx: usize) -> (r: &T)
        requires
            idx < self@.len(),
        ensures
            *r == self@[idx as int],
    {
        &self.items[idx]
    }

    /// The number of elements held.
    pub fn len(&self) -> (r: usize)
        ensures
            r == self@.len(),
    {
        self.items.len()
    }
}

} // verus!
