//! The executor: owns the task table, the ready queue and the wake-handle
//! cache, and drives tasks to completion in earliest-deadline order.
//!
//! Each round pops the entry with the smallest scheduling key, polls that
//! task once, and then retires it, re-enqueues it, or applies its
//! miss-policy. The loop is metered by a poll budget (`u64::MAX` unless a
//! smaller one is chosen), so a run provably terminates: a drained queue
//! yields `Ok`, and an exhausted budget yields an error instead of spinning
//! forever.

use vstd::prelude::*;

use std::collections::HashMap;

use crate::deadline::Deadline;
use crate::priority_queue::{is_first_min, lemma_remove_keeps_other_ids, queue_has_id, PriorityQueue};
use crate::partial_result::PartialResultOutput;
use crate::task::{
    lemma_last_publish_compat, lemma_last_publish_split, lemma_published_is_last,
    lemma_script_compat_trans, last_publish_in, script_compat, Body, DelayStrategy, Task, TaskPoll,
};
use crate::time::{TickTimer, Timer};

verus! {

broadcast use vstd::std_specs::hash::group_hash_axioms;

/// What stops a run before its queue drains.
#[derive(Clone, Copy, Debug, PartialEq, Eq, Structural)]
pub enum ExecutorError {
    /// A task under `DelayStrategy::ReturnError` was observed pending past
    /// its deadline; the payload is that task's id. The run stops at once
    /// and no further task is polled.
    MissedDeadline(u64),
    /// A task under `DelayStrategy::Panic` was observed pending past its
    /// deadline. The miss is unrecoverable by design; the verified core
    /// itself never panics, so it surfaces the abort as this value, and the
    /// caller is expected to abort.
    DeadlinePanic(u64),
    /// The poll budget ran out before the queue drained; work remains.
    PollBudgetExhausted,
}

/// A wake handle: knows its task's id and absolute deadline, and re-enqueues
/// the task under the task's scheduling key. One handle is cached per task
/// from the task's first poll until it retires.
pub struct TaskWaker {
    task_id: u64,
    deadline: Deadline,
}

impl TaskWaker {
    /// The id of the task this handle wakes.
    pub closed spec fn spec_task_id(&self) -> u64 {
        self.task_id
    }

    /// The absolute deadline of the task this handle wakes.
    pub closed spec fn spec_deadline(&self) -> Deadline {
        self.deadline
    }

    /// A handle for the task `task_id` with the absolute deadline given.
    pub fn new(task_id: u64, deadline: Deadline) -> (r: TaskWaker)
        ensures
            r.spec_task_id() == task_id,
            r.spec_deadline() == deadline,
    {
        TaskWaker { task_id, deadline }
    }

    /// Re-enqueue the task under its scheduling key, given the current tick.
    pub fn wake_task(&self, queue: &mut PriorityQueue, now: u64)
        ensures
            final(queue)@ == old(queue)@.push(
                (self.spec_task_id(), self.spec_deadline().spec_scheduling_timestamp(now)),
            ),
    {
        queue.push(self.task_id, self.deadline.to_scheduling_timestamp(now));
    }
}

/// Pushing an entry keeps every id the queue already had, and adds the
/// pushed one.
proof fn lemma_push_has_ids(s: Seq<(u64, u64)>, item: u64, prio: u64, id: u64)
    requires
        queue_has_id(s, id) || id == item,
    ensures
        queue_has_id(s.push((item, prio)), id),
{
    if queue_has_id(s, id) {
        let j = choose|j: int| 0 <= j < s.len() && (#[trigger] s[j]).0 == id;
        assert(s.push((item, prio))[j].0 == id);
    } else {
        assert(s.push((item, prio))[s.len() as int].0 == id);
    }
}

/// Ensure the cache holds a handle for `task_id`; an existing handle is
/// kept, as the executor reuses one handle across polls.
fn cache_waker(cache: &mut HashMap<u64, TaskWaker>, task_id: u64, deadline: Deadline)
    ensures
        old(cache)@.contains_key(task_id) ==> final(cache)@ == old(cache)@,
        !old(cache)@.contains_key(task_id) ==> exists|w: TaskWaker|
            {
                &&& w.spec_task_id() == task_id
                &&& w.spec_deadline() == deadline
                &&& final(cache)@ == old(cache)@.insert(task_id, w)
            },
{
    if !cache.contains_key(&task_id) {
        let w = TaskWaker::new(task_id, deadline);
        cache.insert(task_id, w);
    }
}

/// Why a task left the table: its state at the moment it retired, the tick
/// at which that happened, and the id of the task spawned in its place, if
/// any.
pub struct RetireRecord {
    /// The task as it retired: absolute deadline, policy, and the body as
    /// far as it ran.
    pub task: Task,
    /// The clock reading when the task retired.
    pub tick: u64,
    /// The id of the replacement spawned under `InsteadApproximate`.
    pub replacement: Option<u64>,
}

/// A task may retire only for one of the reasons the design names: its body
/// completed, or a pending poll observed its deadline missed under a policy
/// that drops it (`SilentlyAbort`, or `InsteadApproximate` with a
/// replacement spawned in its place).
pub open spec fn retire_justified(rec: RetireRecord) -> bool {
    ||| rec.task.spec_body().done()
    ||| (rec.task.spec_behavior() is SilentlyAbort && rec.task.spec_deadline().spec_is_missed(
        rec.tick,
    ))
    ||| (rec.task.spec_behavior() is InsteadApproximate
        && rec.task.spec_deadline().spec_is_missed(rec.tick))
}

/// The value a sink holds, or nothing while its task has published nothing.
pub open spec fn sink_entry(sinks: Map<u64, u64>, id: u64) -> Option<u64> {
    if sinks.contains_key(id) {
        Some(sinks[id])
    } else {
        None
    }
}

/// A sink after further publishes: overwritten by the last value published,
/// or kept as it was if nothing was published.
pub open spec fn sink_merge(before: Option<u64>, published: Option<u64>) -> Option<u64> {
    match published {
        Some(v) => Some(v),
        None => before,
    }
}

/// Re-establish the executor invariant after a resident task was polled and
/// stayed resident: its body may have advanced, its wake handle is cached,
/// it is recorded as polled, and only its sink may have gained a value.
proof fn lemma_wf_repoll<T: Timer>(pre: Executor<T>, post: Executor<T>, task_id: u64)
    requires
        pre.wf(),
        pre.spec_tasks().contains_key(task_id),
        post.spec_next_id() == pre.spec_next_id(),
        post.spec_tasks().contains_key(task_id),
        post.spec_tasks()[task_id].wf(),
        post.spec_tasks()[task_id].spec_deadline() == pre.spec_tasks()[task_id].spec_deadline(),
        forall|id: u64| id != task_id ==> ((#[trigger] post.spec_tasks().contains_key(id))
            <==> pre.spec_tasks().contains_key(id)),
        forall|id: u64| id != task_id && #[trigger] post.spec_tasks().contains_key(id)
            ==> post.spec_tasks()[id] == pre.spec_tasks()[id],
        post.spec_polled() == pre.spec_polled().insert(task_id),
        post.spec_wakers().contains_key(task_id),
        post.spec_wakers()[task_id].spec_task_id() == task_id,
        post.spec_wakers()[task_id].spec_deadline() == post.spec_tasks()[
            task_id
        ].spec_deadline(),
        forall|id: u64| id != task_id ==> ((#[trigger] post.spec_wakers().contains_key(id))
            <==> pre.spec_wakers().contains_key(id)),
        forall|id: u64| id != task_id && #[trigger] post.spec_wakers().contains_key(id)
            ==> post.spec_wakers()[id] == pre.spec_wakers()[id],
        forall|id: u64| #[trigger] post.spec_sinks().contains_key(id)
            ==> pre.spec_sinks().contains_key(id) || id == task_id,
        post.spec_retired() == pre.spec_retired(),
    ensures
        post.wf(),
{
    assert forall|id: u64| #[trigger] post.spec_tasks().contains_key(id) implies id
        < post.spec_next_id() && post.spec_tasks()[id].wf() by {
        if id != task_id {
            assert(pre.spec_tasks().contains_key(id));
        }
    }
    assert forall|id: u64| #[trigger] post.spec_retired().contains_key(id) implies {
        &&& id < post.spec_next_id()
        &&& !post.spec_tasks().contains_key(id)
        &&& retire_justified(post.spec_retired()[id])
        &&& match post.spec_retired()[id].replacement {
            Some(rid) => rid < post.spec_next_id() && (post.spec_tasks().contains_key(rid)
                || post.spec_retired().contains_key(rid)),
            None => true,
        }
    } by {
        assert(pre.spec_retired().contains_key(id));
        assert(!pre.spec_tasks().contains_key(id));
        assert(id != task_id);
        match pre.spec_retired()[id].replacement {
            Some(rid) => {
                if pre.spec_tasks().contains_key(rid) {
                    assert(post.spec_tasks().contains_key(rid));
                } else {
                    assert(pre.spec_retired().contains_key(rid));
                }
            },
            None => {},
        }
    }
    assert forall|id: u64| #[trigger] post.spec_sinks().contains_key(id) implies id
        < post.spec_next_id() by {
        if id != task_id {
            assert(pre.spec_sinks().contains_key(id));
        }
    }
    assert forall|id: u64| #[trigger] post.spec_polled().contains(id) implies id
        < post.spec_next_id() by {
        if id != task_id {
            assert(pre.spec_polled().contains(id));
        }
    }
    assert forall|id: u64| #[trigger] post.spec_wakers().contains_key(id) implies {
        &&& post.spec_tasks().contains_key(id)
        &&& post.spec_polled().contains(id)
        &&& post.spec_wakers()[id].spec_task_id() == id
        &&& post.spec_wakers()[id].spec_deadline() == post.spec_tasks()[id].spec_deadline()
    } by {
        if id != task_id {
            assert(pre.spec_wakers().contains_key(id));
            assert(pre.spec_tasks().contains_key(id));
        }
    }
    assert forall|id: u64|
        post.spec_polled().contains(id) && #[trigger] post.spec_tasks().contains_key(id)
        implies post.spec_wakers().contains_key(id) by {
        if id != task_id {
            assert(pre.spec_polled().contains(id));
            assert(pre.spec_tasks().contains_key(id));
        }
    }
}

/// The retirement conjunct of the invariant, shared by the retirement
/// lemmas below: every record, old or newly added, is bounded, names a task
/// no longer resident, is justified, and points only at tasks that exist or
/// themselves retired.
proof fn lemma_retired_records_ok<T: Timer>(
    pre: Executor<T>,
    post: Executor<T>,
    task_id: u64,
    rec: RetireRecord,
)
    requires
        pre.wf(),
        task_id < post.spec_next_id(),
        post.spec_next_id() == pre.spec_next_id(),
        !post.spec_tasks().contains_key(task_id),
        forall|id: u64| id != task_id ==> ((#[trigger] post.spec_tasks().contains_key(id))
            <==> pre.spec_tasks().contains_key(id)),
        post.spec_retired() == pre.spec_retired().insert(task_id, rec),
        retire_justified(rec),
        match rec.replacement {
            Some(rid) => rid < post.spec_next_id() && (post.spec_tasks().contains_key(rid)
                || post.spec_retired().contains_key(rid)),
            None => true,
        },
    ensures
        forall|id: u64| #[trigger] post.spec_retired().contains_key(id) ==> {
            &&& id < post.spec_next_id()
            &&& !post.spec_tasks().contains_key(id)
            &&& retire_justified(post.spec_retired()[id])
            &&& match post.spec_retired()[id].replacement {
                Some(rid) => rid < post.spec_next_id() && (post.spec_tasks().contains_key(rid)
                    || post.spec_retired().contains_key(rid)),
                None => true,
            }
        },
{
    assert forall|id: u64| #[trigger] post.spec_retired().contains_key(id) implies {
        &&& id < post.spec_next_id()
        &&& !post.spec_tasks().contains_key(id)
        &&& retire_justified(post.spec_retired()[id])
        &&& match post.spec_retired()[id].replacement {
            Some(rid) => rid < post.spec_next_id() && (post.spec_tasks().contains_key(rid)
                || post.spec_retired().contains_key(rid)),
            None => true,
        }
    } by {
        if id != task_id {
            assert(pre.spec_retired().contains_key(id));
            assert(!pre.spec_tasks().contains_key(id));
            match pre.spec_retired()[id].replacement {
                Some(rid) => {
                    if rid == task_id {
                        assert(post.spec_retired().contains_key(task_id));
                    } else {
                        if pre.spec_tasks().contains_key(rid) {
                            assert(post.spec_tasks().contains_key(rid));
                        } else {
                            assert(pre.spec_retired().contains_key(rid));
                        }
                    }
                },
                None => {},
            }
        }
    }
}

/// Re-establish the executor invariant after a task retired: it and its
/// wake handle are gone, only its sink may have gained a value, and a
/// justified record of the retirement was added.
proof fn lemma_wf_retire<T: Timer>(
    pre: Executor<T>,
    post: Executor<T>,
    task_id: u64,
    rec: RetireRecord,
)
    requires
        pre.wf(),
        pre.spec_tasks().contains_key(task_id),
        post.spec_next_id() == pre.spec_next_id(),
        !post.spec_tasks().contains_key(task_id),
        forall|id: u64| id != task_id ==> ((#[trigger] post.spec_tasks().contains_key(id))
            <==> pre.spec_tasks().contains_key(id)),
        forall|id: u64| id != task_id && #[trigger] post.spec_tasks().contains_key(id)
            ==> post.spec_tasks()[id] == pre.spec_tasks()[id],
        !post.spec_wakers().contains_key(task_id),
        forall|id: u64| id != task_id ==> ((#[trigger] post.spec_wakers().contains_key(id))
            <==> pre.spec_wakers().contains_key(id)),
        forall|id: u64| id != task_id && #[trigger] post.spec_wakers().contains_key(id)
            ==> post.spec_wakers()[id] == pre.spec_wakers()[id],
        forall|id: u64| #[trigger] post.spec_sinks().contains_key(id)
            ==> pre.spec_sinks().contains_key(id) || id == task_id,
        post.spec_polled() == pre.spec_polled(),
        post.spec_retired() == pre.spec_retired().insert(task_id, rec),
        retire_justified(rec),
        match rec.replacement {
            Some(rid) => rid < post.spec_next_id() && (post.spec_tasks().contains_key(rid)
                || post.spec_retired().contains_key(rid)),
            None => true,
        },
    ensures
        post.wf(),
{
    lemma_retired_records_ok(pre, post, task_id, rec);
    assert forall|id: u64| #[trigger] post.spec_tasks().contains_key(id) implies id
        < post.spec_next_id() && post.spec_tasks()[id].wf() by {
        assert(pre.spec_tasks().contains_key(id));
    }
    assert forall|id: u64| #[trigger] post.spec_sinks().contains_key(id) implies id
        < post.spec_next_id() by {
        if id != task_id {
            assert(pre.spec_sinks().contains_key(id));
        }
    }
    assert forall|id: u64| #[trigger] post.spec_wakers().contains_key(id) implies {
        &&& post.spec_tasks().contains_key(id)
        &&& post.spec_polled().contains(id)
        &&& post.spec_wakers()[id].spec_task_id() == id
        &&& post.spec_wakers()[id].spec_deadline() == post.spec_tasks()[id].spec_deadline()
    } by {
        assert(pre.spec_wakers().contains_key(id));
        assert(pre.spec_tasks().contains_key(id));
    }
    assert forall|id: u64|
        post.spec_polled().contains(id) && #[trigger] post.spec_tasks().contains_key(id)
        implies post.spec_wakers().contains_key(id) by {
        assert(pre.spec_polled().contains(id));
        assert(pre.spec_tasks().contains_key(id));
    }
}

/// Re-establish the invariant when only a retirement record changed: the
/// `InsteadApproximate` path completes its record once the replacement's id
/// is known.
proof fn lemma_wf_record<T: Timer>(
    pre: Executor<T>,
    post: Executor<T>,
    task_id: u64,
    rec: RetireRecord,
)
    requires
        pre.wf(),
        post.spec_next_id() == pre.spec_next_id(),
        post.spec_tasks() == pre.spec_tasks(),
        post.spec_wakers() == pre.spec_wakers(),
        post.spec_sinks() == pre.spec_sinks(),
        post.spec_polled() == pre.spec_polled(),
        post.spec_retired() == pre.spec_retired().insert(task_id, rec),
        task_id < post.spec_next_id(),
        !post.spec_tasks().contains_key(task_id),
        retire_justified(rec),
        match rec.replacement {
            Some(rid) => rid < post.spec_next_id() && (post.spec_tasks().contains_key(rid)
                || post.spec_retired().contains_key(rid)),
            None => true,
        },
    ensures
        post.wf(),
{
    lemma_retired_records_ok(pre, post, task_id, rec);
    assert forall|id: u64| #[trigger] post.spec_tasks().contains_key(id) implies id
        < post.spec_next_id() && post.spec_tasks()[id].wf() by {
        assert(pre.spec_tasks().contains_key(id));
    }
    assert forall|id: u64| #[trigger] post.spec_sinks().contains_key(id) implies id
        < post.spec_next_id() by {
        assert(pre.spec_sinks().contains_key(id));
    }
    assert forall|id: u64| #[trigger] post.spec_polled().contains(id) implies id
        < post.spec_next_id() by {
        assert(pre.spec_polled().contains(id));
    }
    assert forall|id: u64| #[trigger] post.spec_wakers().contains_key(id) implies {
        &&& post.spec_tasks().contains_key(id)
        &&& post.spec_polled().contains(id)
        &&& post.spec_wakers()[id].spec_task_id() == id
        &&& post.spec_wakers()[id].spec_deadline() == post.spec_tasks()[id].spec_deadline()
    } by {
        assert(pre.spec_wakers().contains_key(id));
        assert(pre.spec_tasks().contains_key(id));
    }
    assert forall|id: u64|
        post.spec_polled().contains(id) && #[trigger] post.spec_tasks().contains_key(id)
        implies post.spec_wakers().contains_key(id) by {
        assert(pre.spec_polled().contains(id));
        assert(pre.spec_tasks().contains_key(id));
    }
}

impl Default for Executor<TickTimer> {
    /// A fresh executor over a frozen tick timer starting at zero, with an
    /// effectively unbounded poll budget.
    fn default() -> (r: Executor<TickTimer>)
        ensures
            r.wf(),
            r.covered(),
            r.spec_tasks() == Map::<u64, Task>::empty(),
            r.spec_queue() == Seq::<(u64, u64)>::empty(),
            r.spec_sinks() == Map::<u64, u64>::empty(),
            r.spec_next_id() == 0,
            r.spec_budget() == u64::MAX,
            r.spec_time() == 0,
            r.spec_retired() == Map::<u64, RetireRecord>::empty(),
    {
        Executor::new(TickTimer::new(0, 0))
    }
}

/// Law: task ids are unique over a run. The id the next spawn will assign
/// has never been resident, been polled, or published to a sink; since
/// `spawn` assigns exactly this id and then increments the counter, no two
/// spawned tasks ever share an id.
pub proof fn lemma_fresh_id_unused<T: Timer>(e: Executor<T>)
    requires
        e.wf(),
    ensures
        !e.spec_tasks().contains_key(e.spec_next_id()),
        !e.spec_polled().contains(e.spec_next_id()),
        !e.spec_sinks().contains_key(e.spec_next_id()),
{
}

/// The deadline-aware cooperative executor.
pub struct Executor<T: Timer> {
    tasks: HashMap<u64, Task>,
    task_queue: PriorityQueue,
    waker_cache: HashMap<u64, TaskWaker>,
    sinks: HashMap<u64, u64>,
    timer: T,
    next_id: u64,
    budget: u64,
    history: Vec<u64>,
    polled: Ghost<Set<u64>>,
    retired: Ghost<Map<u64, RetireRecord>>,
}

impl<T: Timer> Executor<T> {
    /// The task table: resident (spawned and not yet retired) tasks by id.
    pub closed spec fn spec_tasks(&self) -> Map<u64, Task> {
        self.tasks@
    }

    /// The ready queue, as a sequence of `(id, priority)` entries.
    pub closed spec fn spec_queue(&self) -> Seq<(u64, u64)> {
        self.task_queue@
    }

    /// The cached wake handles by task id.
    pub closed spec fn spec_wakers(&self) -> Map<u64, TaskWaker> {
        self.waker_cache@
    }

    /// The partial-result sinks: the last value each task published.
    pub closed spec fn spec_sinks(&self) -> Map<u64, u64> {
        self.sinks@
    }

    /// The id the next spawned task will get.
    pub closed spec fn spec_next_id(&self) -> u64 {
        self.next_id
    }

    /// How many polls the run may still spend.
    pub closed spec fn spec_budget(&self) -> u64 {
        self.budget
    }

    /// The ids polled so far, in poll order.
    pub closed spec fn spec_history(&self) -> Seq<u64> {
        self.history@
    }

    /// The executor's clock, at the spec level.
    pub closed spec fn spec_time(&self) -> u64 {
        self.timer.time()
    }

    /// The set of ids that have been polled at least once.
    pub closed spec fn spec_polled(&self) -> Set<u64> {
        self.polled@
    }

    /// The record of every task that retired, by id.
    pub closed spec fn spec_retired(&self) -> Map<u64, RetireRecord> {
        self.retired@
    }

    /// The executor's invariant:
    /// - ids are unique and below the id counter, in the table, the sinks
    ///   and the polled set;
    /// - every resident task is intact;
    /// - a wake handle is cached for a task exactly when the task has been
    ///   polled at least once and has not retired, and the handle carries
    ///   that task's id and deadline;
    /// - every retirement on record is justified: a completed body, or a
    ///   deadline missed under a policy that drops the task.
    pub open spec fn wf(&self) -> bool {
        &&& forall|id: u64| #[trigger] self.spec_tasks().contains_key(id) ==> id
            < self.spec_next_id() && self.spec_tasks()[id].wf()
        &&& forall|id: u64| #[trigger] self.spec_sinks().contains_key(id) ==> id
            < self.spec_next_id()
        &&& forall|id: u64| #[trigger] self.spec_polled().contains(id) ==> id
            < self.spec_next_id()
        &&& forall|id: u64| #[trigger] self.spec_wakers().contains_key(id) ==> {
            &&& self.spec_tasks().contains_key(id)
            &&& self.spec_polled().contains(id)
            &&& self.spec_wakers()[id].spec_task_id() == id
            &&& self.spec_wakers()[id].spec_deadline() == self.spec_tasks()[id].spec_deadline()
        }
        &&& forall|id: u64| self.spec_polled().contains(id)
            && #[trigger] self.spec_tasks().contains_key(id)
            ==> self.spec_wakers().contains_key(id)
        &&& forall|id: u64| #[trigger] self.spec_retired().contains_key(id) ==> {
            &&& id < self.spec_next_id()
            &&& !self.spec_tasks().contains_key(id)
            &&& retire_justified(self.spec_retired()[id])
            &&& match self.spec_retired()[id].replacement {
                Some(rid) => rid < self.spec_next_id() && (self.spec_tasks().contains_key(rid)
                    || self.spec_retired().contains_key(rid)),
                None => true,
            }
        }
    }

    /// Every resident task has at least one ready-queue entry, so none is
    /// stranded: a run that drains the queue has retired every task.
    pub open spec fn covered(&self) -> bool {
        forall|id: u64| #[trigger] self.spec_tasks().contains_key(id) ==> queue_has_id(
            self.spec_queue(),
            id,
        )
    }

    /// A fresh executor around the given timer, with an effectively
    /// unbounded poll budget.
    pub fn new(timer: T) -> (r: Executor<T>)
        ensures
            r.wf(),
            r.covered(),
            r.spec_tasks() == Map::<u64, Task>::empty(),
            r.spec_queue() == Seq::<(u64, u64)>::empty(),
            r.spec_sinks() == Map::<u64, u64>::empty(),
            r.spec_history() == Seq::<u64>::empty(),
            r.spec_next_id() == 0,
            r.spec_budget() == u64::MAX,
            r.spec_time() == timer.time(),
            r.spec_retired() == Map::<u64, RetireRecord>::empty(),
    {
        Executor {
            tasks: HashMap::new(),
            task_queue: PriorityQueue::new(),
            waker_cache: HashMap::new(),
            sinks: HashMap::new(),
            timer,
            next_id: 0,
            budget: u64::MAX,
            history: Vec::new(),
            polled: Ghost(Set::empty()),
            retired: Ghost(Map::empty()),
        }
    }

    /// A fresh executor whose run may spend at most `budget` polls before
    /// reporting `PollBudgetExhausted`.
    pub fn with_poll_budget(timer: T, budget: u64) -> (r: Executor<T>)
        ensures
            r.wf(),
            r.covered(),
            r.spec_tasks() == Map::<u64, Task>::empty(),
            r.spec_queue() == Seq::<(u64, u64)>::empty(),
            r.spec_sinks() == Map::<u64, u64>::empty(),
            r.spec_history() == Seq::<u64>::empty(),
            r.spec_next_id() == 0,
            r.spec_budget() == budget,
            r.spec_time() == timer.time(),
            r.spec_retired() == Map::<u64, RetireRecord>::empty(),
    {
        Executor {
            tasks: HashMap::new(),
            task_queue: PriorityQueue::new(),
            waker_cache: HashMap::new(),
            sinks: HashMap::new(),
            timer,
            next_id: 0,
            budget,
            history: Vec::new(),
            polled: Ghost(Set::empty()),
            retired: Ghost(Map::empty()),
        }
    }

    /// Spawn a task: fix its absolute deadline as the present tick plus the
    /// offset it was constructed with, give it a fresh id (task ids are
    /// unique over a run), make it resident and enqueue it under its
    /// scheduling key. Returns the id.
    pub fn spawn(&mut self, task: Task) -> (id: u64)
        requires
            old(self).wf(),
            task.wf(),
            old(self).spec_next_id() < u64::MAX,
        ensures
            final(self).wf(),
            old(self).covered() ==> final(self).covered(),
            id == old(self).spec_next_id(),
            !old(self).spec_tasks().contains_key(id),
            final(self).spec_next_id() == old(self).spec_next_id() + 1,
            old(self).spec_time() <= final(self).spec_time(),
            final(self).spec_tasks().contains_key(id),
            final(self).spec_tasks()[id].spec_deadline() == task.spec_deadline().spec_plus(
                final(self).spec_time(),
            ),
            final(self).spec_tasks()[id].spec_behavior() == task.spec_behavior(),
            final(self).spec_tasks()[id].spec_body() == task.spec_body(),
            final(self).spec_tasks().remove(id) == old(self).spec_tasks(),
            final(self).spec_queue() == old(self).spec_queue().push(
                (
                    id,
                    final(self).spec_tasks()[id].spec_deadline().spec_scheduling_timestamp(
                        final(self).spec_time(),
                    ),
                ),
            ),
            final(self).spec_sinks() == old(self).spec_sinks(),
            final(self).spec_history() == old(self).spec_history(),
            final(self).spec_budget() == old(self).spec_budget(),
            final(self).spec_retired() == old(self).spec_retired(),
    {
        let mut spawned = task;
        let now = self.timer.now();
        let id = self.next_id;
        self.next_id = self.next_id + 1;
        spawned.deadline = spawned.deadline.plus(now);
        let key = spawned.deadline.to_scheduling_timestamp(now);
        let previous = self.tasks.insert(id, spawned);
        proof {
            assert(previous is None);
            assert(self.spec_tasks().remove(id) =~= old(self).spec_tasks());
            assert forall|id2: u64| #[trigger] self.spec_tasks().contains_key(id2) implies id2
                < self.spec_next_id() && self.spec_tasks()[id2].wf() by {
                if id2 != id {
                    assert(old(self).spec_tasks().contains_key(id2));
                }
            }
            assert forall|id2: u64| #[trigger] self.spec_wakers().contains_key(id2) implies {
                &&& self.spec_tasks().contains_key(id2)
                &&& self.spec_polled().contains(id2)
                &&& self.spec_wakers()[id2].spec_task_id() == id2
                &&& self.spec_wakers()[id2].spec_deadline()
                    == self.spec_tasks()[id2].spec_deadline()
            } by {
                assert(old(self).spec_tasks().contains_key(id2));
                assert(id2 != id);
            }
            assert(self.spec_polled() == old(self).spec_polled());
            assert(self.spec_sinks() == old(self).spec_sinks());
            assert forall|id2: u64| #[trigger] self.spec_sinks().contains_key(id2) implies id2
                < self.spec_next_id() by {
                assert(old(self).spec_sinks().contains_key(id2));
            }
            assert forall|id2: u64| #[trigger] self.spec_polled().contains(id2) implies id2
                < self.spec_next_id() by {
                assert(old(self).spec_polled().contains(id2));
            }
            assert forall|id2: u64|
                self.spec_polled().contains(id2) && #[trigger] self.spec_tasks().contains_key(
                    id2,
                ) implies self.spec_wakers().contains_key(id2) by {
                assert(old(self).spec_polled().contains(id2));
                assert(id2 < old(self).spec_next_id());
                assert(old(self).spec_tasks().contains_key(id2));
            }
            assert(self.spec_retired() == old(self).spec_retired());
            assert forall|id2: u64| #[trigger] self.spec_retired().contains_key(id2) implies {
                &&& id2 < self.spec_next_id()
                &&& !self.spec_tasks().contains_key(id2)
                &&& retire_justified(self.spec_retired()[id2])
                &&& match self.spec_retired()[id2].replacement {
                    Some(rid) => rid < self.spec_next_id() && (self.spec_tasks().contains_key(
                        rid,
                    ) || self.spec_retired().contains_key(rid)),
                    None => true,
                }
            } by {
                assert(old(self).spec_retired().contains_key(id2));
                assert(id2 != id);
                match old(self).spec_retired()[id2].replacement {
                    Some(rid) => {
                        if old(self).spec_tasks().contains_key(rid) {
                            assert(self.spec_tasks().contains_key(rid));
                        } else {
                            assert(old(self).spec_retired().contains_key(rid));
                        }
                    },
                    None => {},
                }
            }
        }
        self.task_queue.push(id, key);
        proof {
            if old(self).covered() {
                assert forall|other: u64| self.spec_tasks().contains_key(other) implies
                    queue_has_id(self.spec_queue(), other) by {
                    if other != id {
                        assert(old(self).spec_tasks().contains_key(other));
                    }
                    lemma_push_has_ids(old(self).spec_queue(), id, key, other);
                }
            }
        }
        id
    }

    /// Spawn a task built from `deadline`, the `SilentlyAbort` policy and
    /// `body`, and hand back the read side of its partial-result sink: the
    /// task may publish intermediate values and, if it misses its deadline,
    /// is dropped without an error while what it published stays readable.
    pub fn spawn_partial(&mut self, deadline: Deadline, body: Body) -> (out: PartialResultOutput)
        requires
            old(self).wf(),
            body.wf(),
            old(self).spec_next_id() < u64::MAX,
        ensures
            final(self).wf(),
            old(self).covered() ==> final(self).covered(),
            out.spec_task_id() == old(self).spec_next_id(),
            final(self).spec_next_id() == old(self).spec_next_id() + 1,
            old(self).spec_time() <= final(self).spec_time(),
            final(self).spec_tasks().contains_key(out.spec_task_id()),
            final(self).spec_tasks()[out.spec_task_id()].spec_behavior()
                is SilentlyAbort,
            final(self).spec_tasks()[out.spec_task_id()].spec_body() == body,
            final(self).spec_tasks()[out.spec_task_id()].spec_deadline() == deadline.spec_plus(
                final(self).spec_time(),
            ),
            final(self).spec_tasks().remove(out.spec_task_id()) == old(self).spec_tasks(),
            final(self).spec_queue() == old(self).spec_queue().push(
                (
                    out.spec_task_id(),
                    final(self).spec_tasks()[out.spec_task_id()].spec_deadline().spec_scheduling_timestamp(
                        final(self).spec_time(),
                    ),
                ),
            ),
            final(self).spec_sinks() == old(self).spec_sinks(),
    {
        let task = Task::new(deadline, DelayStrategy::SilentlyAbort, body);
        let id = self.spawn(task);
        PartialResultOutput::new(id)
    }

    /// The ids polled so far, in poll order.
    pub fn poll_history(&self) -> (r: &Vec<u64>)
        ensures
            r@ == self.spec_history(),
    {
        &self.history
    }

    /// Whether the task with this id is resident (spawned, not yet retired).
    pub fn has_task(&self, id: u64) -> (r: bool)
        ensures
            r == self.spec_tasks().contains_key(id),
    {
        self.tasks.contains_key(&id)
    }

    /// How many tasks are resident.
    pub fn task_count(&self) -> (r: usize)
        ensures
            r == self.spec_tasks().len(),
    {
        self.tasks.len()
    }

    /// The last value the task with this id published to its sink, if any.
    /// The sink outlives the task: it stays readable after the task retires.
    pub fn partial_result(&self, id: u64) -> (r: Option<u64>)
        ensures
            match r {
                Some(v) => self.spec_sinks().contains_key(id) && v == self.spec_sinks()[id],
                None => !self.spec_sinks().contains_key(id),
            },
    {
        match self.sinks.get(&id) {
            Some(v) => Some(*v),
            None => None,
        }
    }

    /// Drive the resident tasks until the ready queue drains or an error
    /// stops the run.
    ///
    /// On `Ok` every task has retired and the table is empty (nothing is
    /// stranded); every retirement is on record and justified — a completed
    /// body, or a deadline missed under a policy that drops the task — so a
    /// task under `ReturnError` or `Panic` can only have retired by
    /// finishing. `MissedDeadline(id)` and `DeadlinePanic(id)` name a task
    /// that is still resident, holds the policy the error reports, whose
    /// deadline has been reached with its body incomplete, and which was
    /// the last task polled: nothing runs past the first error. An empty
    /// queue yields `Ok` and changes nothing. Each task's sink ends holding
    /// the last value its body published (its prior value where this run
    /// published nothing), and a sink whose task had already retired is
    /// untouched. Budget is spent only on work: every unit consumed is
    /// matched by a poll or a removed queue entry.
    #[verifier::loop_isolation(false)]
    pub fn run(&mut self) -> (r: Result<(), ExecutorError>)
        requires
            old(self).wf(),
            old(self).covered(),
        ensures
            final(self).wf(),
            final(self).covered(),
            old(self).spec_next_id() <= final(self).spec_next_id(),
            old(self).spec_time() <= final(self).spec_time(),
            forall|id: u64| id < old(self).spec_next_id()
                && #[trigger] final(self).spec_tasks().contains_key(id) ==> old(self).spec_tasks().contains_key(id),
            forall|id: u64| #[trigger] old(self).spec_sinks().contains_key(id) ==> final(self).spec_sinks().contains_key(id),
            forall|id: u64| #[trigger] old(self).spec_sinks().contains_key(id) && !old(self).spec_tasks().contains_key(id) ==> final(self).spec_sinks()[id] == old(self).spec_sinks()[id],
            forall|id: u64| old(self).spec_tasks().contains_key(id)
                && #[trigger] final(self).spec_tasks().contains_key(id) ==> {
                &&& final(self).spec_tasks()[id].spec_deadline() == old(self).spec_tasks()[id].spec_deadline()
                &&& final(self).spec_tasks()[id].spec_behavior() == old(self).spec_tasks()[id].spec_behavior()
                &&& script_compat(
                    old(self).spec_tasks()[id].spec_body().spec_steps(),
                    final(self).spec_tasks()[id].spec_body().spec_steps(),
                )
                &&& old(self).spec_tasks()[id].spec_body().spec_pc() <= final(self).spec_tasks()[id].spec_body().spec_pc()
                &&& sink_entry(final(self).spec_sinks(), id) == sink_merge(
                    sink_entry(old(self).spec_sinks(), id),
                    last_publish_in(
                        final(self).spec_tasks()[id].spec_body().spec_steps(),
                        old(self).spec_tasks()[id].spec_body().spec_pc(),
                        final(self).spec_tasks()[id].spec_body().spec_pc(),
                    ),
                )
            },
            forall|id: u64| #[trigger] final(self).spec_sinks().contains_key(id)
                ==> old(self).spec_sinks().contains_key(id) || old(self).spec_tasks().contains_key(id)
                || id >= old(self).spec_next_id(),
            forall|id: u64| #[trigger] old(self).spec_retired().contains_key(id) ==> final(self).spec_retired().contains_key(id) && final(self).spec_retired()[id] == old(self).spec_retired()[id],
            forall|id: u64| #[trigger] old(self).spec_tasks().contains_key(id) && !final(self).spec_tasks().contains_key(id) ==> {
                &&& final(self).spec_retired().contains_key(id)
                &&& final(self).spec_retired()[id].task.spec_deadline() == old(self).spec_tasks()[id].spec_deadline()
                &&& final(self).spec_retired()[id].task.spec_behavior() == old(self).spec_tasks()[id].spec_behavior()
                &&& old(self).spec_time() <= final(self).spec_retired()[id].tick <= final(self).spec_time()
                &&& script_compat(
                    old(self).spec_tasks()[id].spec_body().spec_steps(),
                    final(self).spec_retired()[id].task.spec_body().spec_steps(),
                )
                &&& old(self).spec_tasks()[id].spec_body().spec_pc() <= final(self).spec_retired()[id].task.spec_body().spec_pc()
                &&& sink_entry(final(self).spec_sinks(), id) == sink_merge(
                    sink_entry(old(self).spec_sinks(), id),
                    last_publish_in(
                        final(self).spec_retired()[id].task.spec_body().spec_steps(),
                        old(self).spec_tasks()[id].spec_body().spec_pc(),
                        final(self).spec_retired()[id].task.spec_body().spec_pc(),
                    ),
                )
                &&& (final(self).spec_retired()[id].task.spec_behavior() is InsteadApproximate
                    && !final(self).spec_retired()[id].task.spec_body().done()
                    && final(self).spec_next_id() < u64::MAX
                    ==> final(self).spec_retired()[id].replacement is Some)
            },
            old(self).spec_queue().len() == 0 ==> r is Ok && *final(self) == *old(self),
            old(self).spec_history().len() <= final(self).spec_history().len(),
            old(self).spec_budget() - final(self).spec_budget() <= final(self).spec_history().len()
                - old(self).spec_history().len() + old(self).spec_queue().len() - final(self).spec_queue().len(),
            match r {
                Ok(()) => final(self).spec_queue().len() == 0 && forall|id: u64|
                    !final(self).spec_tasks().contains_key(id),
                Err(ExecutorError::MissedDeadline(id)) => {
                    &&& final(self).spec_tasks().contains_key(id)
                    &&& final(self).spec_tasks()[id].spec_behavior() is ReturnError
                    &&& final(self).spec_tasks()[id].spec_deadline().spec_is_missed(
                        final(self).spec_time(),
                    )
                    &&& !final(self).spec_tasks()[id].spec_body().done()
                    &&& final(self).spec_history().len() > 0
                    &&& final(self).spec_history().last() == id
                },
                Err(ExecutorError::DeadlinePanic(id)) => {
                    &&& final(self).spec_tasks().contains_key(id)
                    &&& final(self).spec_tasks()[id].spec_behavior() is Panic
                    &&& final(self).spec_tasks()[id].spec_deadline().spec_is_missed(
                        final(self).spec_time(),
                    )
                    &&& !final(self).spec_tasks()[id].spec_body().done()
                    &&& final(self).spec_history().len() > 0
                    &&& final(self).spec_history().last() == id
                },
                Err(ExecutorError::PollBudgetExhausted) => final(self).spec_budget() == 0
                    && final(self).spec_queue().len() > 0,
            },
    {
        loop
            invariant
                self.wf(),
                self.covered(),
                old(self).spec_next_id() <= self.spec_next_id(),
                old(self).spec_time() <= self.spec_time(),
                forall|id: u64| id < old(self).spec_next_id()
                    && #[trigger] self.spec_tasks().contains_key(id) ==> old(self).spec_tasks().contains_key(id),
                forall|id: u64| #[trigger] old(self).spec_sinks().contains_key(id)
                    ==> self.spec_sinks().contains_key(id),
                forall|id: u64| #[trigger] old(self).spec_sinks().contains_key(id) && !old(self).spec_tasks().contains_key(id) ==> self.spec_sinks()[id] == old(self).spec_sinks()[id],
                forall|id: u64| old(self).spec_tasks().contains_key(id)
                    && #[trigger] self.spec_tasks().contains_key(id) ==> {
                    &&& self.spec_tasks()[id].spec_deadline() == old(self).spec_tasks()[id].spec_deadline()
                    &&& self.spec_tasks()[id].spec_behavior() == old(self).spec_tasks()[id].spec_behavior()
                    &&& script_compat(
                        old(self).spec_tasks()[id].spec_body().spec_steps(),
                        self.spec_tasks()[id].spec_body().spec_steps(),
                    )
                    &&& old(self).spec_tasks()[id].spec_body().spec_pc() <= self.spec_tasks()[id].spec_body().spec_pc()
                    &&& sink_entry(self.spec_sinks(), id) == sink_merge(
                        sink_entry(old(self).spec_sinks(), id),
                        last_publish_in(
                            self.spec_tasks()[id].spec_body().spec_steps(),
                            old(self).spec_tasks()[id].spec_body().spec_pc(),
                            self.spec_tasks()[id].spec_body().spec_pc(),
                        ),
                    )
                },
                forall|id: u64| #[trigger] self.spec_sinks().contains_key(id)
                    ==> old(self).spec_sinks().contains_key(id) || old(self).spec_tasks().contains_key(id)
                    || id >= old(self).spec_next_id(),
                forall|id: u64| #[trigger] old(self).spec_retired().contains_key(id) ==> self.spec_retired().contains_key(id) && self.spec_retired()[id] == old(self).spec_retired()[id],
                forall|id: u64| #[trigger] old(self).spec_tasks().contains_key(id) && !self.spec_tasks().contains_key(id) ==> {
                    &&& self.spec_retired().contains_key(id)
                    &&& self.spec_retired()[id].task.spec_deadline() == old(self).spec_tasks()[id].spec_deadline()
                    &&& self.spec_retired()[id].task.spec_behavior() == old(self).spec_tasks()[id].spec_behavior()
                    &&& old(self).spec_time() <= self.spec_retired()[id].tick <= self.spec_time()
                    &&& script_compat(
                        old(self).spec_tasks()[id].spec_body().spec_steps(),
                        self.spec_retired()[id].task.spec_body().spec_steps(),
                    )
                    &&& old(self).spec_tasks()[id].spec_body().spec_pc() <= self.spec_retired()[id].task.spec_body().spec_pc()
                    &&& sink_entry(self.spec_sinks(), id) == sink_merge(
                        sink_entry(old(self).spec_sinks(), id),
                        last_publish_in(
                            self.spec_retired()[id].task.spec_body().spec_steps(),
                            old(self).spec_tasks()[id].spec_body().spec_pc(),
                            self.spec_retired()[id].task.spec_body().spec_pc(),
                        ),
                    )
                    &&& (self.spec_retired()[id].task.spec_behavior() is InsteadApproximate
                        && !self.spec_retired()[id].task.spec_body().done()
                        && self.spec_next_id() < u64::MAX
                        ==> self.spec_retired()[id].replacement is Some)
                },
                old(self).spec_queue().len() == 0 ==> *self == *old(self),
                old(self).spec_history().len() <= self.spec_history().len(),
                old(self).spec_budget() - self.spec_budget() <= self.spec_history().len()
                    - old(self).spec_history().len() + old(self).spec_queue().len()
                    - self.spec_queue().len(),
            decreases self.spec_budget(),
        {
            if self.task_queue.is_empty() {
                proof {
                    assert forall|id: u64| !self.spec_tasks().contains_key(id) by {
                        if self.spec_tasks().contains_key(id) {
                            assert(queue_has_id(self.spec_queue(), id));
                        }
                    }
                }
                return Ok(());
            }
            let ghost pre = *self;
            let round = self.run_ready_tasks();
            proof {
                        // Compose the per-task relations across this round.
                        assert forall|id: u64| old(self).spec_tasks().contains_key(id)
                            && #[trigger] self.spec_tasks().contains_key(id) implies {
                            &&& script_compat(
                                old(self).spec_tasks()[id].spec_body().spec_steps(),
                                self.spec_tasks()[id].spec_body().spec_steps(),
                            )
                            &&& old(self).spec_tasks()[id].spec_body().spec_pc()
                                <= self.spec_tasks()[id].spec_body().spec_pc()
                            &&& sink_entry(self.spec_sinks(), id) == sink_merge(
                                sink_entry(old(self).spec_sinks(), id),
                                last_publish_in(
                                    self.spec_tasks()[id].spec_body().spec_steps(),
                                    old(self).spec_tasks()[id].spec_body().spec_pc(),
                                    self.spec_tasks()[id].spec_body().spec_pc(),
                                ),
                            )
                        } by {
                            assert(id < old(self).spec_next_id());
                            assert(pre.spec_tasks().contains_key(id));
                            let s_old = old(self).spec_tasks()[id].spec_body().spec_steps();
                            let p_old: int = old(self).spec_tasks()[id].spec_body().spec_pc();
                            let s_mid = pre.spec_tasks()[id].spec_body().spec_steps();
                            let p_mid: int = pre.spec_tasks()[id].spec_body().spec_pc();
                            let s_new = self.spec_tasks()[id].spec_body().spec_steps();
                            let p_new: int = self.spec_tasks()[id].spec_body().spec_pc();
                            lemma_script_compat_trans(s_old, s_mid, s_new);
                            lemma_last_publish_compat(s_mid, s_new, p_old, p_mid);
                            lemma_last_publish_split(s_new, p_old, p_mid, p_new);
                        }
                        assert forall|id: u64| #[trigger] old(self).spec_tasks().contains_key(id)
                            && !self.spec_tasks().contains_key(id) implies {
                            &&& self.spec_retired().contains_key(id)
                            &&& self.spec_retired()[id].task.spec_deadline() == old(self).spec_tasks()[id].spec_deadline()
                            &&& self.spec_retired()[id].task.spec_behavior() == old(self).spec_tasks()[id].spec_behavior()
                            &&& old(self).spec_time() <= self.spec_retired()[id].tick
                                <= self.spec_time()
                            &&& script_compat(
                                old(self).spec_tasks()[id].spec_body().spec_steps(),
                                self.spec_retired()[id].task.spec_body().spec_steps(),
                            )
                            &&& old(self).spec_tasks()[id].spec_body().spec_pc()
                                <= self.spec_retired()[id].task.spec_body().spec_pc()
                            &&& sink_entry(self.spec_sinks(), id) == sink_merge(
                                sink_entry(old(self).spec_sinks(), id),
                                last_publish_in(
                                    self.spec_retired()[id].task.spec_body().spec_steps(),
                                    old(self).spec_tasks()[id].spec_body().spec_pc(),
                                    self.spec_retired()[id].task.spec_body().spec_pc(),
                                ),
                            )
                            &&& (self.spec_retired()[id].task.spec_behavior() is InsteadApproximate
                                && !self.spec_retired()[id].task.spec_body().done()
                                && self.spec_next_id() < u64::MAX
                                ==> self.spec_retired()[id].replacement is Some)
                        } by {
                            assert(id < old(self).spec_next_id());
                            if pre.spec_tasks().contains_key(id) {
                                // Retired during this round.
                                let s_old = old(self).spec_tasks()[id].spec_body().spec_steps();
                                let p_old: int = old(self).spec_tasks()[
                                    id
                                ].spec_body().spec_pc();
                                let s_mid = pre.spec_tasks()[id].spec_body().spec_steps();
                                let p_mid: int = pre.spec_tasks()[id].spec_body().spec_pc();
                                let s_new = self.spec_retired()[id].task.spec_body().spec_steps();
                                let p_new: int = self.spec_retired()[
                                    id
                                ].task.spec_body().spec_pc();
                                lemma_script_compat_trans(s_old, s_mid, s_new);
                                lemma_last_publish_compat(s_mid, s_new, p_old, p_mid);
                                lemma_last_publish_split(s_new, p_old, p_mid, p_new);
                            } else {
                                // Already retired before this round: the
                                // record and the sink entry are untouched.
                                assert(pre.spec_retired().contains_key(id));
                                assert(self.spec_retired()[id] == pre.spec_retired()[id]);
                                if pre.spec_sinks().contains_key(id) {
                                    assert(self.spec_sinks().contains_key(id));
                                    assert(self.spec_sinks()[id] == pre.spec_sinks()[id]);
                                } else {
                                    assert(!self.spec_sinks().contains_key(id));
                                }
                            }
                        }
            }
            match round {
                Ok(()) => {
                    proof {
                        assert(pre.spec_queue().len() > 0);
                        assert(self.spec_budget() < pre.spec_budget());
                    }
                },
                Err(e) => {
                    return Err(e);
                },
            }
        }
    }

    /// One scheduling round: pop and poll until the queue drains or an
    /// error stops the run. Pops whose task already retired are skipped.
    /// Every pop spends one unit of the poll budget.
    #[verifier::loop_isolation(false)]
    fn run_ready_tasks(&mut self) -> (r: Result<(), ExecutorError>)
        requires
            old(self).wf(),
            old(self).covered(),
        ensures
            final(self).wf(),
            final(self).covered(),
            old(self).spec_next_id() <= final(self).spec_next_id(),
            old(self).spec_time() <= final(self).spec_time(),
            final(self).spec_budget() <= old(self).spec_budget(),
            old(self).spec_queue().len() > 0 && r is Ok ==> final(self).spec_budget() < old(self).spec_budget(),
            forall|id: u64| id < old(self).spec_next_id()
                && #[trigger] final(self).spec_tasks().contains_key(id) ==> old(self).spec_tasks().contains_key(id),
            forall|id: u64| #[trigger] old(self).spec_sinks().contains_key(id) ==> final(self).spec_sinks().contains_key(id),
            forall|id: u64| #[trigger] old(self).spec_sinks().contains_key(id) && !old(self).spec_tasks().contains_key(id) ==> final(self).spec_sinks()[id] == old(self).spec_sinks()[id],
            forall|id: u64| old(self).spec_tasks().contains_key(id)
                && #[trigger] final(self).spec_tasks().contains_key(id) ==> {
                &&& final(self).spec_tasks()[id].spec_deadline() == old(self).spec_tasks()[id].spec_deadline()
                &&& final(self).spec_tasks()[id].spec_behavior() == old(self).spec_tasks()[id].spec_behavior()
                &&& script_compat(
                    old(self).spec_tasks()[id].spec_body().spec_steps(),
                    final(self).spec_tasks()[id].spec_body().spec_steps(),
                )
                &&& old(self).spec_tasks()[id].spec_body().spec_pc() <= final(self).spec_tasks()[id].spec_body().spec_pc()
                &&& sink_entry(final(self).spec_sinks(), id) == sink_merge(
                    sink_entry(old(self).spec_sinks(), id),
                    last_publish_in(
                        final(self).spec_tasks()[id].spec_body().spec_steps(),
                        old(self).spec_tasks()[id].spec_body().spec_pc(),
                        final(self).spec_tasks()[id].spec_body().spec_pc(),
                    ),
                )
            },
            forall|id: u64| #[trigger] final(self).spec_sinks().contains_key(id)
                ==> old(self).spec_sinks().contains_key(id) || old(self).spec_tasks().contains_key(id)
                || id >= old(self).spec_next_id(),
            forall|id: u64| #[trigger] old(self).spec_retired().contains_key(id) ==> final(self).spec_retired().contains_key(id) && final(self).spec_retired()[id] == old(self).spec_retired()[id],
            forall|id: u64| #[trigger] old(self).spec_tasks().contains_key(id) && !final(self).spec_tasks().contains_key(id) ==> {
                &&& final(self).spec_retired().contains_key(id)
                &&& final(self).spec_retired()[id].task.spec_deadline() == old(self).spec_tasks()[id].spec_deadline()
                &&& final(self).spec_retired()[id].task.spec_behavior() == old(self).spec_tasks()[id].spec_behavior()
                &&& old(self).spec_time() <= final(self).spec_retired()[id].tick <= final(self).spec_time()
                &&& script_compat(
                    old(self).spec_tasks()[id].spec_body().spec_steps(),
                    final(self).spec_retired()[id].task.spec_body().spec_steps(),
                )
                &&& old(self).spec_tasks()[id].spec_body().spec_pc() <= final(self).spec_retired()[id].task.spec_body().spec_pc()
                &&& sink_entry(final(self).spec_sinks(), id) == sink_merge(
                    sink_entry(old(self).spec_sinks(), id),
                    last_publish_in(
                        final(self).spec_retired()[id].task.spec_body().spec_steps(),
                        old(self).spec_tasks()[id].spec_body().spec_pc(),
                        final(self).spec_retired()[id].task.spec_body().spec_pc(),
                    ),
                )
                &&& (final(self).spec_retired()[id].task.spec_behavior() is InsteadApproximate
                    && !final(self).spec_retired()[id].task.spec_body().done()
                    && final(self).spec_next_id() < u64::MAX
                    ==> final(self).spec_retired()[id].replacement is Some)
            },
            old(self).spec_queue().len() == 0 ==> r is Ok && *final(self) == *old(self),
            old(self).spec_history().len() <= final(self).spec_history().len(),
            old(self).spec_budget() - final(self).spec_budget() <= final(self).spec_history().len()
                - old(self).spec_history().len() + old(self).spec_queue().len() - final(self).spec_queue().len(),
            match r {
                Ok(()) => final(self).spec_queue().len() == 0,
                Err(ExecutorError::MissedDeadline(id)) => {
                    &&& final(self).spec_tasks().contains_key(id)
                    &&& final(self).spec_tasks()[id].spec_behavior() is ReturnError
                    &&& final(self).spec_tasks()[id].spec_deadline().spec_is_missed(
                        final(self).spec_time(),
                    )
                    &&& !final(self).spec_tasks()[id].spec_body().done()
                    &&& final(self).spec_history().len() > 0
                    &&& final(self).spec_history().last() == id
                },
                Err(ExecutorError::DeadlinePanic(id)) => {
                    &&& final(self).spec_tasks().contains_key(id)
                    &&& final(self).spec_tasks()[id].spec_behavior() is Panic
                    &&& final(self).spec_tasks()[id].spec_deadline().spec_is_missed(
                        final(self).spec_time(),
                    )
                    &&& !final(self).spec_tasks()[id].spec_body().done()
                    &&& final(self).spec_history().len() > 0
                    &&& final(self).spec_history().last() == id
                },
                Err(ExecutorError::PollBudgetExhausted) => final(self).spec_budget() == 0
                    && final(self).spec_queue().len() > 0,
            },
    {
        loop
            invariant
                self.wf(),
                self.covered(),
                old(self).spec_next_id() <= self.spec_next_id(),
                old(self).spec_time() <= self.spec_time(),
                self.spec_budget() <= old(self).spec_budget(),
                forall|id: u64| id < old(self).spec_next_id()
                    && #[trigger] self.spec_tasks().contains_key(id) ==> old(self).spec_tasks().contains_key(id),
                forall|id: u64| #[trigger] old(self).spec_sinks().contains_key(id)
                    ==> self.spec_sinks().contains_key(id),
                forall|id: u64| #[trigger] old(self).spec_sinks().contains_key(id) && !old(self).spec_tasks().contains_key(id) ==> self.spec_sinks()[id] == old(self).spec_sinks()[id],
                forall|id: u64| old(self).spec_tasks().contains_key(id)
                    && #[trigger] self.spec_tasks().contains_key(id) ==> {
                    &&& self.spec_tasks()[id].spec_deadline() == old(self).spec_tasks()[id].spec_deadline()
                    &&& self.spec_tasks()[id].spec_behavior() == old(self).spec_tasks()[id].spec_behavior()
                    &&& script_compat(
                        old(self).spec_tasks()[id].spec_body().spec_steps(),
                        self.spec_tasks()[id].spec_body().spec_steps(),
                    )
                    &&& old(self).spec_tasks()[id].spec_body().spec_pc() <= self.spec_tasks()[id].spec_body().spec_pc()
                    &&& sink_entry(self.spec_sinks(), id) == sink_merge(
                        sink_entry(old(self).spec_sinks(), id),
                        last_publish_in(
                            self.spec_tasks()[id].spec_body().spec_steps(),
                            old(self).spec_tasks()[id].spec_body().spec_pc(),
                            self.spec_tasks()[id].spec_body().spec_pc(),
                        ),
                    )
                },
                forall|id: u64| #[trigger] self.spec_sinks().contains_key(id)
                    ==> old(self).spec_sinks().contains_key(id) || old(self).spec_tasks().contains_key(id)
                    || id >= old(self).spec_next_id(),
                forall|id: u64| #[trigger] old(self).spec_retired().contains_key(id) ==> self.spec_retired().contains_key(id) && self.spec_retired()[id] == old(self).spec_retired()[id],
                forall|id: u64| #[trigger] old(self).spec_tasks().contains_key(id) && !self.spec_tasks().contains_key(id) ==> {
                    &&& self.spec_retired().contains_key(id)
                    &&& self.spec_retired()[id].task.spec_deadline() == old(self).spec_tasks()[id].spec_deadline()
                    &&& self.spec_retired()[id].task.spec_behavior() == old(self).spec_tasks()[id].spec_behavior()
                    &&& old(self).spec_time() <= self.spec_retired()[id].tick <= self.spec_time()
                    &&& script_compat(
                        old(self).spec_tasks()[id].spec_body().spec_steps(),
                        self.spec_retired()[id].task.spec_body().spec_steps(),
                    )
                    &&& old(self).spec_tasks()[id].spec_body().spec_pc() <= self.spec_retired()[id].task.spec_body().spec_pc()
                    &&& sink_entry(self.spec_sinks(), id) == sink_merge(
                        sink_entry(old(self).spec_sinks(), id),
                        last_publish_in(
                            self.spec_retired()[id].task.spec_body().spec_steps(),
                            old(self).spec_tasks()[id].spec_body().spec_pc(),
                            self.spec_retired()[id].task.spec_body().spec_pc(),
                        ),
                    )
                    &&& (self.spec_retired()[id].task.spec_behavior() is InsteadApproximate
                        && !self.spec_retired()[id].task.spec_body().done()
                        && self.spec_next_id() < u64::MAX
                        ==> self.spec_retired()[id].replacement is Some)
                },
                old(self).spec_queue().len() == 0 ==> *self == *old(self),
                old(self).spec_history().len() <= self.spec_history().len(),
                old(self).spec_budget() - self.spec_budget() <= self.spec_history().len()
                    - old(self).spec_history().len() + old(self).spec_queue().len()
                    - self.spec_queue().len(),
                self.spec_budget() == old(self).spec_budget() ==> self.spec_queue() == old(self).spec_queue(),
            decreases self.spec_budget(),
        {
            let ghost s_iter = *self;
            if self.task_queue.is_empty() {
                return Ok(());
            }
            if self.budget == 0 {
                return Err(ExecutorError::PollBudgetExhausted);
            }
            let ghost q0 = self.spec_queue();
            let popped = self.task_queue.pop();
            match popped {
                None => {
                    // Unreachable: the queue was checked non-empty just
                    // above and nothing removed an entry since.
                    proof {
                        assert(false);
                    }
                    return Ok(());
                },
                Some((task_id, _priority)) => {
                    self.budget = self.budget - 1;
                    proof {
                        let i = choose|i: int|
                            {
                                &&& #[trigger] is_first_min(q0, i)
                                &&& (task_id, _priority) == q0[i]
                                &&& self.spec_queue() == q0.remove(i)
                            };
                        assert forall|id: u64| self.spec_tasks().contains_key(id) && id != task_id
                            implies queue_has_id(self.spec_queue(), id) by {
                            assert(queue_has_id(q0, id));
                            let j = choose|j: int| 0 <= j < q0.len() && (#[trigger] q0[j]).0 == id;
                            assert(q0[i].0 == task_id);
                            lemma_remove_keeps_other_ids(q0, i, id);
                        }
                    }
                    let task_opt = self.tasks.remove(&task_id);
                    match task_opt {
                        None => {
                            // A stale entry: the task already retired by
                            // another path; skip it.
                            proof {
                                assert(self.spec_tasks() =~= s_iter.spec_tasks());
                                assert(self.spec_sinks() == s_iter.spec_sinks());
                                assert(self.spec_polled() == s_iter.spec_polled());
                                assert(self.spec_retired() == s_iter.spec_retired());
                                assert(s_iter.wf());
                                assert(self.wf());
                            }
                        },
                        Some(mut task) => {
                            let ghost task0 = task;
                            proof {
                                assert(s_iter.spec_tasks().contains_key(task_id));
                                assert(s_iter.spec_tasks()[task_id] == task0);
                                assert(task0.wf());
                            }
                            self.history.push(task_id);
                            let outcome = task.poll(&mut self.timer);
                            let ghost t_final = task;
                            if let Some(v) = outcome.published {
                                proof {
                                    // The polled task was resident, so its
                                    // sink is not one of a retired task.
                                    assert(s_iter.spec_tasks().contains_key(task_id));
                                    if old(self).spec_sinks().contains_key(task_id) {
                                        assert(task_id < old(self).spec_next_id());
                                        assert(old(self).spec_tasks().contains_key(task_id));
                                    }
                                }
                                self.sinks.insert(task_id, v);
                            }
                            proof {
                                // This poll's published value is the last
                                // publish over the range the body advanced,
                                // and composes with whatever earlier polls
                                // left in the task's sink.
                                let steps1 = t_final.spec_body().spec_steps();
                                let pc0: int = task0.spec_body().spec_pc();
                                let pc1: int = t_final.spec_body().spec_pc();
                                lemma_published_is_last(steps1, pc0, pc1, outcome.published);
                                assert(!s_iter.spec_retired().contains_key(task_id));
                                assert(sink_entry(self.spec_sinks(), task_id) == sink_merge(
                                    sink_entry(s_iter.spec_sinks(), task_id),
                                    last_publish_in(steps1, pc0, pc1),
                                ));
                                if old(self).spec_tasks().contains_key(task_id) {
                                    let steps_old = old(self).spec_tasks()[
                                        task_id
                                    ].spec_body().spec_steps();
                                    let pc_old: int = old(self).spec_tasks()[
                                        task_id
                                    ].spec_body().spec_pc();
                                    let steps_iter = task0.spec_body().spec_steps();
                                    assert(script_compat(steps_old, steps_iter));
                                    assert(script_compat(steps_iter, steps1));
                                    lemma_script_compat_trans(steps_old, steps_iter, steps1);
                                    lemma_last_publish_compat(steps_iter, steps1, pc_old, pc0);
                                    lemma_last_publish_split(steps1, pc_old, pc0, pc1);
                                    assert(sink_entry(self.spec_sinks(), task_id) == sink_merge(
                                        sink_entry(old(self).spec_sinks(), task_id),
                                        last_publish_in(steps1, pc_old, pc1),
                                    ));
                                }
                            }
                            if outcome.status == TaskPoll::Ready {
                                // Retired: drop the task and its wake
                                // handle, recording the completed body as
                                // the cause.
                                self.waker_cache.remove(&task_id);
                                proof {
                                    let rec = RetireRecord {
                                        task: t_final,
                                        tick: self.spec_time(),
                                        replacement: None,
                                    };
                                    self.retired = Ghost(self.retired@.insert(task_id, rec));
                                    lemma_wf_retire(s_iter, *self, task_id, rec);
                                }
                            } else {
                                let now = self.timer.now();
                                if !task.deadline.is_missed(now) {
                                    // Still pending with time left: stay
                                    // resident and re-enqueue under the
                                    // task's scheduling key.
                                    let key = task.deadline.to_scheduling_timestamp(now);
                                    cache_waker(&mut self.waker_cache, task_id, task.deadline);
                                    proof {
                                        self.polled = Ghost(self.polled@.insert(task_id));
                                    }
                                    let ghost qmid = self.spec_queue();
                                    self.tasks.insert(task_id, task);
                                    self.task_queue.push(task_id, key);
                                    proof {
                                        assert forall|id: u64| self.spec_tasks().contains_key(id)
                                            implies queue_has_id(self.spec_queue(), id) by {
                                            lemma_push_has_ids(qmid, task_id, key, id);
                                        }
                                        assert(task.wf());
                                        lemma_wf_repoll(s_iter, *self, task_id);
                                    }
                                } else {
                                    let Task { deadline, behavior, body } = task;
                                    match behavior {
                                        DelayStrategy::ReturnError => {
                                            let key = deadline.to_scheduling_timestamp(now);
                                            cache_waker(&mut self.waker_cache, task_id, deadline);
                                            proof {
                                                self.polled = Ghost(self.polled@.insert(task_id));
                                            }
                                            let ghost qmid = self.spec_queue();
                                            self.tasks.insert(
                                                task_id,
                                                Task {
                                                    deadline,
                                                    behavior: DelayStrategy::ReturnError,
                                                    body,
                                                },
                                            );
                                            self.task_queue.push(task_id, key);
                                            proof {
                                                assert forall|id: u64|
                                                    self.spec_tasks().contains_key(id)
                                                    implies queue_has_id(self.spec_queue(), id) by {
                                                    lemma_push_has_ids(qmid, task_id, key, id);
                                                }
                                            }
                                            proof {
                                                lemma_wf_repoll(s_iter, *self, task_id);
                                            }
                                            return Err(ExecutorError::MissedDeadline(task_id));
                                        },
                                        DelayStrategy::Panic => {
                                            let key = deadline.to_scheduling_timestamp(now);
                                            cache_waker(&mut self.waker_cache, task_id, deadline);
                                            proof {
                                                self.polled = Ghost(self.polled@.insert(task_id));
                                            }
                                            let ghost qmid = self.spec_queue();
                                            self.tasks.insert(
                                                task_id,
                                                Task {
                                                    deadline,
                                                    behavior: DelayStrategy::Panic,
                                                    body,
                                                },
                                            );
                                            self.task_queue.push(task_id, key);
                                            proof {
                                                assert forall|id: u64|
                                                    self.spec_tasks().contains_key(id)
                                                    implies queue_has_id(self.spec_queue(), id) by {
                                                    lemma_push_has_ids(qmid, task_id, key, id);
                                                }
                                            }
                                            proof {
                                                lemma_wf_repoll(s_iter, *self, task_id);
                                            }
                                            return Err(ExecutorError::DeadlinePanic(task_id));
                                        },
                                        DelayStrategy::ContinueRunning => {
                                            // Past its deadline, the task no
                                            // longer competes with deadlined
                                            // work: re-enqueue it behind
                                            // every finite deadline.
                                            let key = Deadline::Infinite.to_scheduling_timestamp(
                                                now,
                                            );
                                            cache_waker(&mut self.waker_cache, task_id, deadline);
                                            proof {
                                                self.polled = Ghost(self.polled@.insert(task_id));
                                            }
                                            let ghost qmid = self.spec_queue();
                                            self.tasks.insert(
                                                task_id,
                                                Task {
                                                    deadline,
                                                    behavior: DelayStrategy::ContinueRunning,
                                                    body,
                                                },
                                            );
                                            self.task_queue.push(task_id, key);
                                            proof {
                                                assert forall|id: u64|
                                                    self.spec_tasks().contains_key(id)
                                                    implies queue_has_id(self.spec_queue(), id) by {
                                                    lemma_push_has_ids(qmid, task_id, key, id);
                                                }
                                                lemma_wf_repoll(s_iter, *self, task_id);
                                            }
                                        },
                                        DelayStrategy::SilentlyAbort => {
                                            // Dropped as if retired; no
                                            // error, and its sink stays.
                                            self.waker_cache.remove(&task_id);
                                            proof {
                                                let rec = RetireRecord {
                                                    task: t_final,
                                                    tick: now,
                                                    replacement: None,
                                                };
                                                self.retired = Ghost(
                                                    self.retired@.insert(task_id, rec),
                                                );
                                                lemma_wf_retire(s_iter, *self, task_id, rec);
                                            }
                                        },
                                        DelayStrategy::InsteadApproximate(replacement) => {
                                            // Dropped; the replacement is
                                            // spawned in its place with its
                                            // own deadline and policy, and
                                            // the record points at it.
                                            self.waker_cache.remove(&task_id);
                                            let ghost rec0 = RetireRecord {
                                                task: t_final,
                                                tick: now,
                                                replacement: None,
                                            };
                                            proof {
                                                self.retired = Ghost(
                                                    self.retired@.insert(task_id, rec0),
                                                );
                                                lemma_wf_retire(s_iter, *self, task_id, rec0);
                                                assert(replacement.wf());
                                            }
                                            if self.next_id < u64::MAX {
                                                let rid = self.spawn(*replacement);
                                                let ghost s_mid = *self;
                                                let ghost rec1 = RetireRecord {
                                                    task: t_final,
                                                    tick: now,
                                                    replacement: Some(rid),
                                                };
                                                proof {
                                                    self.retired = Ghost(
                                                        self.retired@.insert(task_id, rec1),
                                                    );
                                                    lemma_wf_record(s_mid, *self, task_id, rec1);
                                                }
                                            }
                                        },
                                    }
                                }
                            }
                        },
                    }
                },
            }
        }
    }
}

} // verus!
