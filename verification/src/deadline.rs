//! Deadlines: a totally ordered sum of a finite tick and an infinite sentinel.

use vstd::prelude::*;

verus! {

/// The distance past the current tick used as the scheduling key of
/// `Deadline::Infinite`. The key of an infinite deadline is
/// `now + INFINITE_SCHEDULING_HORIZON` (saturating), which must exceed every
/// finite deadline that can appear in the ready queue; see
/// `lemma_finite_scheduled_before_infinite`.
pub const INFINITE_SCHEDULING_HORIZON: u64 = 0x4000_0000_0000_0000;

/// Either a concrete tick by which a task must complete, or the infinite
/// sentinel, which is greater than every finite deadline.
///
/// A deadline is a tick *offset* when a task is constructed and becomes an
/// absolute tick when the task is spawned.
#[derive(Clone, Copy, Debug, PartialEq, Eq, Structural)]
pub enum Deadline {
    Finite(u64),
    Infinite,
}

impl Deadline {
    /// `Finite(a) <= Finite(b)` iff `a <= b`; every `Finite(_)` is below
    /// `Infinite`; `Infinite == Infinite`.
    pub open spec fn spec_le(self, other: Deadline) -> bool {
        match (self, other) {
            (Deadline::Finite(a), Deadline::Finite(b)) => a <= b,
            (Deadline::Finite(_), Deadline::Infinite) => true,
            (Deadline::Infinite, Deadline::Finite(_)) => false,
            (Deadline::Infinite, Deadline::Infinite) => true,
        }
    }

    /// The deadline shifted forward by `offset` ticks, saturating at the
    /// largest tick; the infinite sentinel absorbs every shift.
    pub open spec fn spec_plus(self, offset: u64) -> Deadline {
        match self {
            Deadline::Finite(t) => Deadline::Finite(t.saturating_add(offset)),
            Deadline::Infinite => Deadline::Infinite,
        }
    }

    /// Shift the deadline forward by `offset` ticks (saturating).
    pub fn plus(self, offset: u64) -> (r: Deadline)
        ensures
            r == self.spec_plus(offset),
    {
        match self {
            Deadline::Finite(t) => Deadline::Finite(t.saturating_add(offset)),
            Deadline::Infinite => Deadline::Infinite,
        }
    }

    /// The priority key under which a task with this deadline is enqueued:
    /// the tick itself for a finite deadline, and a far-future sentinel,
    /// `now + INFINITE_SCHEDULING_HORIZON` (saturating), for an infinite one.
    pub open spec fn spec_scheduling_timestamp(self, now: u64) -> u64 {
        match self {
            Deadline::Finite(t) => t,
            Deadline::Infinite => now.saturating_add(INFINITE_SCHEDULING_HORIZON),
        }
    }

    /// Convert the deadline to the concrete priority key used by the ready
    /// queue, given the current tick.
    pub fn to_scheduling_timestamp(&self, now: u64) -> (r: u64)
        ensures
            r == self.spec_scheduling_timestamp(now),
    {
        match self {
            Deadline::Finite(t) => *t,
            Deadline::Infinite => now.saturating_add(INFINITE_SCHEDULING_HORIZON),
        }
    }

    /// An absolute deadline counts as missed once the current tick has
    /// reached it; the infinite sentinel is never missed.
    pub open spec fn spec_is_missed(self, now: u64) -> bool {
        match self {
            Deadline::Finite(t) => t <= now,
            Deadline::Infinite => false,
        }
    }

    /// Whether the deadline has been reached at tick `now`.
    pub fn is_missed(&self, now: u64) -> (r: bool)
        ensures
            r == self.spec_is_missed(now),
    {
        match self {
            Deadline::Finite(t) => *t <= now,
            Deadline::Infinite => false,
        }
    }
}

impl From<u64> for Deadline {
    /// A bare tick converts to the finite deadline at that tick.
    fn from(t: u64) -> (r: Deadline)
        ensures
            r == Deadline::Finite(t),
    {
        Deadline::Finite(t)
    }
}

impl vstd::std_specs::convert::FromSpecImpl<u64> for Deadline {
    open spec fn obeys_from_spec() -> bool {
        true
    }

    open spec fn from_spec(t: u64) -> Deadline {
        Deadline::Finite(t)
    }
}

impl PartialOrd for Deadline {
    fn partial_cmp(&self, other: &Deadline) -> (r: Option<core::cmp::Ordering>) {
        match (self, other) {
            (Deadline::Finite(a), Deadline::Finite(b)) => {
                if *a < *b {
                    Some(core::cmp::Ordering::Less)
                } else if *a == *b {
                    Some(core::cmp::Ordering::Equal)
                } else {
                    Some(core::cmp::Ordering::Greater)
                }
            },
            (Deadline::Finite(_), Deadline::Infinite) => Some(core::cmp::Ordering::Less),
            (Deadline::Infinite, Deadline::Finite(_)) => Some(core::cmp::Ordering::Greater),
            (Deadline::Infinite, Deadline::Infinite) => Some(core::cmp::Ordering::Equal),
        }
    }
}

impl vstd::std_specs::cmp::PartialOrdSpecImpl for Deadline {
    open spec fn obeys_partial_cmp_spec() -> bool {
        true
    }

    open spec fn partial_cmp_spec(&self, other: &Deadline) -> Option<core::cmp::Ordering> {
        match (*self, *other) {
            (Deadline::Finite(a), Deadline::Finite(b)) => {
                if a < b {
                    Some(core::cmp::Ordering::Less)
                } else if a == b {
                    Some(core::cmp::Ordering::Equal)
                } else {
                    Some(core::cmp::Ordering::Greater)
                }
            },
            (Deadline::Finite(_), Deadline::Infinite) => Some(core::cmp::Ordering::Less),
            (Deadline::Infinite, Deadline::Finite(_)) => Some(core::cmp::Ordering::Greater),
            (Deadline::Infinite, Deadline::Infinite) => Some(core::cmp::Ordering::Equal),
        }
    }
}

/// Law: every finite deadline below the infinite sentinel's key is scheduled
/// strictly before any task whose priority is the infinite sentinel, so
/// finite-deadline work is popped first as long as it exists.
pub proof fn lemma_finite_scheduled_before_infinite(d: u64, now: u64)
    requires
        d < now.saturating_add(INFINITE_SCHEDULING_HORIZON),
    ensures
        Deadline::Finite(d).spec_scheduling_timestamp(now)
            < Deadline::Infinite.spec_scheduling_timestamp(now),
{
}

} // verus!
