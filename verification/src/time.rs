//! The clock the runtime schedules against: a monotone tick counter behind a
//! trait, so that different platforms can supply their own source of time.

use vstd::prelude::*;

verus! {

/// A timer to be implemented for different platforms.
///
/// The unit of a tick is opaque to the runtime; deadlines and ticks share
/// it. The only promise the runtime relies on is that observed time never
/// decreases.
pub trait Timer: Sized {
    /// The current reading of the clock, at the spec level.
    spec fn time(&self) -> u64;

    /// The current tick. Observing the clock may advance it, but never
    /// backwards.
    fn now(&mut self) -> (t: u64)
        ensures
            old(self).time() <= final(self).time(),
            t == final(self).time(),
    ;

    /// Suspend the caller for `duration` ticks. Time never runs backwards.
    fn delay(&mut self, duration: u64)
        ensures
            old(self).time() <= final(self).time(),
    ;

    /// How many ticks have passed since the reading `since`.
    fn elapsed_since(&mut self, since: u64) -> (r: u64)
        requires
            since <= old(self).time(),
        ensures
            old(self).time() <= final(self).time(),
            r == final(self).time() - since,
    {
        let t = self.now();
        t - since
    }
}

/// A deterministic timer: a tick counter that advances by a fixed step on
/// every observation and by the requested duration on every delay. A step of
/// zero freezes the clock between delays, which makes scheduling runs
/// reproducible.
pub struct TickTimer {
    tick: u64,
    step: u64,
}

impl TickTimer {
    /// A timer reading `start` that advances by `step` on each observation.
    pub fn new(start: u64, step: u64) -> (r: TickTimer)
        ensures
            r.time() == start,
    {
        TickTimer { tick: start, step }
    }
}

impl Timer for TickTimer {
    closed spec fn time(&self) -> u64 {
        self.tick
    }

    fn now(&mut self) -> (t: u64)
        ensures
            old(self).time() <= final(self).time(),
            t == final(self).time(),
    {
        self.tick = self.tick.saturating_add(self.step);
        self.tick
    }

    fn delay(&mut self, duration: u64)
        ensures
            old(self).time() <= final(self).time(),
    {
        self.tick = self.tick.saturating_add(duration);
    }
}

} // verus!
