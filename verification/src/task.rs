//! Tasks: suspendable computations with a deadline and a miss-policy.
//!
//! A task body is a script of primitives. The only suspension points the
//! runtime provides are the noop yield, the sleeps, the back-pressure
//! reserve, and the always-pending suspension; the remaining primitives
//! (blocking work, publishing a partial result, releasing budget) complete
//! within a single poll. Polling a body interprets the script from its
//! current position until it either completes or suspends.

use vstd::prelude::*;

use crate::allocator::{AllocPoll, RestrictiveAlloc};
use crate::deadline::Deadline;
use crate::time::Timer;

verus! {

/// What one poll reports: the computation completed, or it suspended and
/// must be polled again once progress is possible.
#[derive(Clone, Copy, Debug, PartialEq, Eq, Structural)]
pub enum TaskPoll {
    Ready,
    Pending,
}

/// The noop suspension: pends exactly once, then is ready. It forces
/// exactly one yield back to the executor.
#[derive(Clone, Copy, Debug)]
pub struct Noop {
    waited: bool,
}

impl Noop {
    /// Whether the single yield already happened.
    pub closed spec fn spec_waited(&self) -> bool {
        self.waited
    }

    /// A fresh noop that has not yielded yet.
    pub fn new() -> (r: Noop)
        ensures
            !r.spec_waited(),
    {
        Noop { waited: false }
    }

    /// Pending on the first poll, ready on every later one.
    pub fn poll(&mut self) -> (r: TaskPoll)
        ensures
            r == TaskPoll::Pending <==> !old(self).spec_waited(),
            final(self).spec_waited(),
    {
        if self.waited {
            TaskPoll::Ready
        } else {
            self.waited = true;
            TaskPoll::Pending
        }
    }
}

/// A fresh noop suspension.
pub fn noop() -> (r: Noop)
    ensures
        !r.spec_waited(),
{
    Noop::new()
}

/// The sleep suspension: pending until the timer has passed an absolute
/// tick.
#[derive(Clone, Copy, Debug)]
pub struct Sleep {
    deadline: u64,
}

impl Sleep {
    /// The tick the sleep waits to pass.
    pub closed spec fn spec_deadline(&self) -> u64 {
        self.deadline
    }

    /// Ready exactly when the current tick has passed the sleep's target.
    pub fn poll<T: Timer>(&self, timer: &mut T) -> (r: TaskPoll)
        ensures
            old(timer).time() <= final(timer).time(),
            r == TaskPoll::Ready <==> final(timer).time() > self.spec_deadline(),
    {
        let n = timer.now();
        if n > self.deadline {
            TaskPoll::Ready
        } else {
            TaskPoll::Pending
        }
    }
}

/// A sleep that is pending until the timer passes the absolute tick
/// `deadline`.
pub fn sleep_until(deadline: u64) -> (r: Sleep)
    ensures
        r.spec_deadline() == deadline,
{
    Sleep { deadline }
}

/// A sleep of `duration` ticks measured from the present reading of the
/// timer (saturating at the largest tick).
pub fn sleep<T: Timer>(timer: &mut T, duration: u64) -> (r: Sleep)
    ensures
        old(timer).time() <= final(timer).time(),
        r.spec_deadline() == final(timer).time().saturating_add(duration),
{
    let n = timer.now();
    Sleep { deadline: n.saturating_add(duration) }
}

/// One primitive of a task body.
#[derive(Clone, Copy, Debug)]
pub enum Step {
    /// Yield once, then continue (the noop suspension).
    Noop(Noop),
    /// Suspend until the timer passes an absolute tick.
    Sleep(Sleep),
    /// Suspend for `duration` ticks measured from the first poll that
    /// reaches this step; `armed` holds the sleep once its target is fixed.
    SleepFor { duration: u64, armed: Option<Sleep> },
    /// Synchronous work: block the caller for `duration` ticks, then
    /// continue. Blocking does not yield, so the executor cannot enforce
    /// deadlines against it; prefer the sleeps for long waits.
    Block { duration: u64 },
    /// Publish `value` to the task's partial-result sink, then continue.
    Publish { value: u64 },
    /// Reserve `units` from the body's allocation budget; suspends, to be
    /// retried on the next poll, while the budget does not admit them.
    Reserve { units: usize },
    /// Return up to `units` units to the body's allocation budget, then
    /// continue.
    Release { units: usize },
    /// An always-pending suspension: never ready.
    Forever,
}

/// Whether the step publishes a partial result.
pub open spec fn is_publish(s: Step) -> bool {
    s is Publish
}

/// Whether the step publishes exactly the value `v`.
pub open spec fn is_publish_of(s: Step, v: u64) -> bool {
    match s {
        Step::Publish { value } => value == v,
        _ => false,
    }
}

/// Polling only arms and advances a script; it never rewrites what the
/// script says. Two steps are compatible when they are the same primitive
/// with the same payload, runtime state (a noop's yield flag, a relative
/// sleep's target) aside.
pub open spec fn step_compat(a: Step, b: Step) -> bool {
    match (a, b) {
        (Step::Noop(_), Step::Noop(_)) => true,
        (Step::Sleep(x), Step::Sleep(y)) => x == y,
        (
            Step::SleepFor { duration: d1, armed: _ },
            Step::SleepFor { duration: d2, armed: _ },
        ) => d1 == d2,
        (Step::Block { duration: d1 }, Step::Block { duration: d2 }) => d1 == d2,
        (Step::Publish { value: v1 }, Step::Publish { value: v2 }) => v1 == v2,
        (Step::Reserve { units: u1 }, Step::Reserve { units: u2 }) => u1 == u2,
        (Step::Release { units: u1 }, Step::Release { units: u2 }) => u1 == u2,
        (Step::Forever, Step::Forever) => true,
        _ => false,
    }
}

/// Pointwise `step_compat` over whole scripts.
pub open spec fn script_compat(a: Seq<Step>, b: Seq<Step>) -> bool {
    &&& a.len() == b.len()
    &&& forall|i: int| 0 <= i < a.len() ==> step_compat(#[trigger] a[i], #[trigger] b[i])
}

/// `published` reports the last value published while the script advanced
/// over the index range `lo..hi`, or nothing if none was.
pub open spec fn published_ok(script: Seq<Step>, lo: int, hi: int, published: Option<u64>) -> bool {
    match published {
        Some(v) => exists|i: int|
            {
                &&& lo <= i < hi
                &&& is_publish_of(#[trigger] script[i], v)
                &&& forall|j: int| i < j < hi ==> !is_publish(#[trigger] script[j])
            },
        None => forall|i: int| lo <= i < hi ==> !is_publish(#[trigger] script[i]),
    }
}

/// The value of the last publishing step in `script[lo..hi]`, if any.
pub open spec fn last_publish_in(script: Seq<Step>, lo: int, hi: int) -> Option<u64>
    decreases hi - lo,
{
    if hi <= lo {
        None
    } else {
        match script[hi - 1] {
            Step::Publish { value } => Some(value),
            _ => last_publish_in(script, lo, hi - 1),
        }
    }
}

/// `published_ok` pins the published value down: it is exactly the last
/// publish in the range.
pub proof fn lemma_published_is_last(script: Seq<Step>, lo: int, hi: int, published: Option<u64>)
    requires
        0 <= lo <= hi <= script.len(),
        published_ok(script, lo, hi, published),
    ensures
        published == last_publish_in(script, lo, hi),
    decreases hi - lo,
{
    if hi > lo {
        match script[hi - 1] {
            Step::Publish { value } => {
                match published {
                    Some(v) => {
                        let i0 = choose|i: int|
                            {
                                &&& lo <= i < hi
                                &&& is_publish_of(#[trigger] script[i], v)
                                &&& forall|j: int| i < j < hi ==> !is_publish(#[trigger] script[j])
                            };
                        if i0 < hi - 1 {
                            assert(!is_publish(script[hi - 1]));
                        }
                        assert(i0 == hi - 1);
                    },
                    None => {
                        assert(!is_publish(script[hi - 1]));
                    },
                }
            },
            _ => {
                match published {
                    Some(v) => {
                        let i0 = choose|i: int|
                            {
                                &&& lo <= i < hi
                                &&& is_publish_of(#[trigger] script[i], v)
                                &&& forall|j: int| i < j < hi ==> !is_publish(#[trigger] script[j])
                            };
                        assert(i0 < hi - 1);
                        assert(published_ok(script, lo, hi - 1, published));
                    },
                    None => {
                        assert(published_ok(script, lo, hi - 1, published));
                    },
                }
                lemma_published_is_last(script, lo, hi - 1, published);
            },
        }
    }
}

/// Over a split range, the later part's publish wins unless it has none.
pub proof fn lemma_last_publish_split(script: Seq<Step>, lo: int, mid: int, hi: int)
    requires
        0 <= lo <= mid <= hi,
    ensures
        last_publish_in(script, lo, hi) == match last_publish_in(script, mid, hi) {
            Some(v) => Some(v),
            None => last_publish_in(script, lo, mid),
        },
    decreases hi - mid,
{
    if hi > mid {
        match script[hi - 1] {
            Step::Publish { value: _ } => {},
            _ => {
                lemma_last_publish_split(script, lo, mid, hi - 1);
            },
        }
    }
}

/// Compatible scripts publish the same values over the same range.
pub proof fn lemma_last_publish_compat(s1: Seq<Step>, s2: Seq<Step>, lo: int, hi: int)
    requires
        script_compat(s1, s2),
        0 <= lo <= hi <= s1.len(),
    ensures
        last_publish_in(s1, lo, hi) == last_publish_in(s2, lo, hi),
    decreases hi - lo,
{
    if hi > lo {
        assert(step_compat(s1[hi - 1], s2[hi - 1]));
        lemma_last_publish_compat(s1, s2, lo, hi - 1);
    }
}

/// `step_compat` and `script_compat` are transitive, so compatibility
/// persists across any number of polls.
pub proof fn lemma_script_compat_trans(s1: Seq<Step>, s2: Seq<Step>, s3: Seq<Step>)
    requires
        script_compat(s1, s2),
        script_compat(s2, s3),
    ensures
        script_compat(s1, s3),
{
    assert forall|i: int| 0 <= i < s1.len() implies step_compat(#[trigger] s1[i], #[trigger] s3[i]) by {
        assert(step_compat(s1[i], s2[i]));
        assert(step_compat(s2[i], s3[i]));
    }
}

/// Values published over a range are untouched by edits at or past its end.
proof fn lemma_published_same_range(
    s1: Seq<Step>,
    s2: Seq<Step>,
    lo: int,
    hi: int,
    published: Option<u64>,
)
    requires
        s1.len() == s2.len(),
        0 <= lo <= hi <= s1.len(),
        forall|k: int| 0 <= k < hi ==> s1[k] == s2[k],
        published_ok(s1, lo, hi, published),
    ensures
        published_ok(s2, lo, hi, published),
{
    match published {
        Some(v) => {
            let i0 = choose|i: int|
                {
                    &&& lo <= i < hi
                    &&& is_publish_of(#[trigger] s1[i], v)
                    &&& forall|j: int| i < j < hi ==> !is_publish(#[trigger] s1[j])
                };
            assert(is_publish_of(s2[i0], v));
            assert forall|j: int| i0 < j < hi implies !is_publish(s2[j]) by {
                assert(s2[j] == s1[j]);
            }
        },
        None => {
            assert forall|i: int| lo <= i < hi implies !is_publish(s2[i]) by {
                assert(s2[i] == s1[i]);
            }
        },
    }
}

/// Advancing over a step that publishes nothing keeps the published value of
/// the range.
proof fn lemma_published_step(
    s1: Seq<Step>,
    s2: Seq<Step>,
    lo: int,
    hi: int,
    published: Option<u64>,
)
    requires
        s1.len() == s2.len(),
        0 <= lo <= hi < s1.len(),
        forall|k: int| 0 <= k < hi ==> s1[k] == s2[k],
        published_ok(s1, lo, hi, published),
        !is_publish(s2[hi]),
    ensures
        published_ok(s2, lo, hi + 1, published),
{
    lemma_published_same_range(s1, s2, lo, hi, published);
    match published {
        Some(v) => {
            let i0 = choose|i: int|
                {
                    &&& lo <= i < hi
                    &&& is_publish_of(#[trigger] s2[i], v)
                    &&& forall|j: int| i < j < hi ==> !is_publish(#[trigger] s2[j])
                };
            assert forall|j: int| i0 < j < hi + 1 implies !is_publish(s2[j]) by {
                if j < hi {
                    assert(!is_publish(s2[j]));
                }
            }
            assert(is_publish_of(s2[i0], v));
        },
        None => {
            assert forall|i: int| lo <= i < hi + 1 implies !is_publish(s2[i]) by {
                if i < hi {
                    assert(!is_publish(s2[i]));
                }
            }
        },
    }
}

/// Advancing over a publishing step makes its value the published one.
proof fn lemma_publish_here(s: Seq<Step>, lo: int, hi: int, v: u64)
    requires
        0 <= lo <= hi < s.len(),
        is_publish_of(s[hi], v),
    ensures
        published_ok(s, lo, hi + 1, Some(v)),
{
    assert(is_publish_of(s[hi], v));
    assert(forall|j: int| hi < j < hi + 1 ==> !is_publish(#[trigger] s[j]));
}

/// A poll may leave a body only at a step that genuinely suspends: a noop
/// whose single yield was just taken, a sleep whose target tick has not
/// passed at the observed time, a reservation the budget refuses, or the
/// always-pending suspension. The stateless primitives (blocking work,
/// publishing, releasing budget) never suspend.
pub open spec fn step_suspended(s: Step, now: u64, allocated: usize, cap: usize) -> bool {
    match s {
        Step::Noop(n) => n.spec_waited(),
        Step::Sleep(sl) => now <= sl.spec_deadline(),
        Step::SleepFor { duration: _, armed } => match armed {
            Some(sl) => now <= sl.spec_deadline(),
            None => false,
        },
        Step::Reserve { units } => allocated + units >= cap,
        Step::Forever => true,
        _ => false,
    }
}

/// What one poll of a body yields: whether it completed, and the value it
/// published last during this poll, if any.
pub struct PollOutcome {
    pub status: TaskPoll,
    pub published: Option<u64>,
}

/// A suspendable computation: a script of steps, the position reached, and
/// the allocation budget its reserve steps draw from.
pub struct Body {
    steps: Vec<Step>,
    pc: usize,
    alloc: RestrictiveAlloc,
}

impl Body {
    /// The script being interpreted.
    pub closed spec fn spec_steps(&self) -> Seq<Step> {
        self.steps@
    }

    /// The index of the next step to run.
    pub closed spec fn spec_pc(&self) -> int {
        self.pc as int
    }

    /// The cap of the body's allocation budget.
    pub closed spec fn spec_budget_cap(&self) -> usize {
        self.alloc.spec_cap()
    }

    /// The units currently reserved from the body's allocation budget.
    pub closed spec fn spec_budget_allocated(&self) -> usize {
        self.alloc.spec_allocated()
    }

    /// The position is within the script and the budget accounting is
    /// intact.
    pub open spec fn wf(&self) -> bool {
        &&& 0 <= self.spec_pc() <= self.spec_steps().len()
        &&& self.spec_alloc_wf()
    }

    /// The budget accounting is within its cap.
    pub closed spec fn spec_alloc_wf(&self) -> bool {
        self.alloc.wf()
    }

    /// The body has run its whole script.
    pub open spec fn done(&self) -> bool {
        self.spec_pc() == self.spec_steps().len()
    }

    /// A body over `steps` with an unbounded allocation budget.
    pub fn new(steps: Vec<Step>) -> (r: Body)
        ensures
            r.spec_steps() == steps@,
            r.spec_pc() == 0,
            r.wf(),
    {
        Body { steps, pc: 0, alloc: RestrictiveAlloc::new(usize::MAX) }
    }

    /// A body over `steps` whose reserve steps draw from a budget capped at
    /// `budget` units.
    pub fn with_budget(steps: Vec<Step>, budget: usize) -> (r: Body)
        ensures
            r.spec_steps() == steps@,
            r.spec_pc() == 0,
            r.spec_budget_cap() == budget,
            r.wf(),
    {
        Body { steps, pc: 0, alloc: RestrictiveAlloc::new(budget) }
    }

    /// Interpret the script from the position reached until it completes
    /// (`Ready`) or suspends (`Pending`). A completed body stays completed
    /// and untouched.
    #[verifier::loop_isolation(false)]
    pub fn poll<T: Timer>(&mut self, timer: &mut T) -> (r: PollOutcome)
        requires
            old(self).wf(),
        ensures
            final(self).wf(),
            old(timer).time() <= final(timer).time(),
            script_compat(old(self).spec_steps(), final(self).spec_steps()),
            old(self).spec_pc() <= final(self).spec_pc(),
            final(self).spec_budget_cap() == old(self).spec_budget_cap(),
            r.status == TaskPoll::Ready <==> final(self).done(),
            r.status == TaskPoll::Pending ==> step_suspended(
                final(self).spec_steps()[final(self).spec_pc()],
                final(timer).time(),
                final(self).spec_budget_allocated(),
                final(self).spec_budget_cap(),
            ),
            published_ok(
                final(self).spec_steps(),
                old(self).spec_pc(),
                final(self).spec_pc(),
                r.published,
            ),
            old(self).done() ==> *final(self) == *old(self),
    {
        if self.pc == self.steps.len() {
            return PollOutcome { status: TaskPoll::Ready, published: None };
        }
        let ghost lo = old(self).spec_pc();
        let mut published: Option<u64> = None;
        while self.pc < self.steps.len()
            invariant
                self.wf(),
                script_compat(old(self).spec_steps(), self.spec_steps()),
                lo <= self.spec_pc(),
                self.spec_budget_cap() == old(self).spec_budget_cap(),
                old(timer).time() <= timer.time(),
                published_ok(self.spec_steps(), lo, self.spec_pc(), published),
            decreases self.steps@.len() - self.pc,
        {
            let idx = self.pc;
            let ghost pre = self.spec_steps();
            match self.steps[idx] {
                Step::Noop(noop_state) => {
                    let mut n = noop_state;
                    match n.poll() {
                        TaskPoll::Ready => {
                            self.pc = idx + 1;
                            proof {
                                lemma_published_step(pre, pre, lo, idx as int, published);
                            }
                        },
                        TaskPoll::Pending => {
                            self.steps[idx] = Step::Noop(n);
                            proof {
                                lemma_published_same_range(
                                    pre,
                                    self.spec_steps(),
                                    lo,
                                    idx as int,
                                    published,
                                );
                            }
                            return PollOutcome { status: TaskPoll::Pending, published };
                        },
                    }
                },
                Step::Sleep(s) => {
                    match s.poll(timer) {
                        TaskPoll::Ready => {
                            self.pc = idx + 1;
                            proof {
                                lemma_published_step(pre, pre, lo, idx as int, published);
                            }
                        },
                        TaskPoll::Pending => {
                            return PollOutcome { status: TaskPoll::Pending, published };
                        },
                    }
                },
                Step::SleepFor { duration, armed } => {
                    let s = match armed {
                        Some(s) => s,
                        None => {
                            let fresh = sleep(timer, duration);
                            self.steps[idx] = Step::SleepFor { duration, armed: Some(fresh) };
                            fresh
                        },
                    };
                    match s.poll(timer) {
                        TaskPoll::Ready => {
                            self.pc = idx + 1;
                            proof {
                                lemma_published_step(
                                    pre,
                                    self.spec_steps(),
                                    lo,
                                    idx as int,
                                    published,
                                );
                            }
                        },
                        TaskPoll::Pending => {
                            proof {
                                lemma_published_same_range(
                                    pre,
                                    self.spec_steps(),
                                    lo,
                                    idx as int,
                                    published,
                                );
                            }
                            return PollOutcome { status: TaskPoll::Pending, published };
                        },
                    }
                },
                Step::Block { duration } => {
                    timer.delay(duration);
                    self.pc = idx + 1;
                    proof {
                        lemma_published_step(pre, pre, lo, idx as int, published);
                    }
                },
                Step::Publish { value } => {
                    published = Some(value);
                    self.pc = idx + 1;
                    proof {
                        lemma_publish_here(pre, lo, idx as int, value);
                    }
                },
                Step::Reserve { units } => {
                    match self.alloc.try_allocate(units) {
                        AllocPoll::Granted => {
                            self.pc = idx + 1;
                            proof {
                                lemma_published_step(pre, pre, lo, idx as int, published);
                            }
                        },
                        AllocPoll::Pending => {
                            return PollOutcome { status: TaskPoll::Pending, published };
                        },
                    }
                },
                Step::Release { units } => {
                    let live = self.alloc.allocated();
                    let freed = if units < live {
                        units
                    } else {
                        live
                    };
                    self.alloc.deallocate(freed);
                    self.pc = idx + 1;
                    proof {
                        lemma_published_step(pre, pre, lo, idx as int, published);
                    }
                },
                Step::Forever => {
                    return PollOutcome { status: TaskPoll::Pending, published };
                },
            }
        }
        PollOutcome { status: TaskPoll::Ready, published }
    }
}

/// What the executor does when it observes a pending poll of a task whose
/// deadline has been reached.
pub enum DelayStrategy {
    /// The whole run terminates with `MissedDeadline`.
    ReturnError,
    /// The miss is unrecoverable: the run stops and the caller is expected
    /// to abort.
    Panic,
    /// The task stays scheduled, but behind every finite-deadline task.
    ContinueRunning,
    /// The task is dropped as if retired; no error.
    SilentlyAbort,
    /// The task is dropped and the given replacement is spawned in its
    /// place, with its own deadline and policy.
    InsteadApproximate(Box<Task>),
}

impl DelayStrategy {
    /// A policy is intact when the replacement task it may carry is.
    pub open spec fn wf(&self) -> bool
        decreases self,
    {
        match self {
            DelayStrategy::InsteadApproximate(t) => t.wf(),
            _ => true,
        }
    }
}

/// A suspendable computation together with its deadline and miss-policy.
///
/// The deadline is a tick offset when the task is constructed; spawning
/// turns it into an absolute tick (spawn-time now plus the offset) and it
/// never changes afterwards.
pub struct Task {
    pub(crate) deadline: Deadline,
    pub(crate) behavior: DelayStrategy,
    pub(crate) body: Body,
}

impl Task {
    /// The task's deadline: an offset before spawning, absolute after.
    pub open(crate) spec fn spec_deadline(&self) -> Deadline {
        self.deadline
    }

    /// The task's miss-policy.
    pub open(crate) spec fn spec_behavior(&self) -> DelayStrategy {
        self.behavior
    }

    /// The task's body.
    pub open(crate) spec fn spec_body(&self) -> Body {
        self.body
    }

    /// The body and any replacement task the policy carries are intact.
    pub open spec fn wf(&self) -> bool
        decreases self,
    {
        &&& self.spec_body().wf()
        &&& self.spec_behavior().wf()
    }

    /// A task from a deadline offset, a miss-policy, and a body.
    pub fn new(deadline: Deadline, behavior: DelayStrategy, body: Body) -> (r: Task)
        ensures
            r.spec_deadline() == deadline,
            r.spec_behavior() == behavior,
            r.spec_body() == body,
    {
        Task { deadline, behavior, body }
    }

    /// Poll the task's body once.
    pub fn poll<T: Timer>(&mut self, timer: &mut T) -> (r: PollOutcome)
        requires
            old(self).spec_body().wf(),
        ensures
            final(self).spec_deadline() == old(self).spec_deadline(),
            final(self).spec_behavior() == old(self).spec_behavior(),
            final(self).spec_body().wf(),
            script_compat(
                old(self).spec_body().spec_steps(),
                final(self).spec_body().spec_steps(),
            ),
            old(self).spec_body().spec_pc() <= final(self).spec_body().spec_pc(),
            final(self).spec_body().spec_budget_cap() == old(self).spec_body().spec_budget_cap(),
            old(timer).time() <= final(timer).time(),
            r.status == TaskPoll::Ready <==> final(self).spec_body().done(),
            r.status == TaskPoll::Pending ==> step_suspended(
                final(self).spec_body().spec_steps()[final(self).spec_body().spec_pc()],
                final(timer).time(),
                final(self).spec_body().spec_budget_allocated(),
                final(self).spec_body().spec_budget_cap(),
            ),
            published_ok(
                final(self).spec_body().spec_steps(),
                old(self).spec_body().spec_pc(),
                final(self).spec_body().spec_pc(),
                r.published,
            ),
    {
        self.body.poll(timer)
    }
}

} // verus!
