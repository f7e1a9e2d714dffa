//! End-to-end scheduling scenarios: poll order, miss-policies, partial
//! results, and id uniqueness.

use dependability::executor::{Executor, ExecutorError};
use dependability::task::{noop, Body, DelayStrategy, Step, Task};
use dependability::time::TickTimer;

fn one_noop() -> Body {
    Body::new(vec![Step::Noop(noop())])
}

#[test]
fn poll_order_follows_deadlines() {
    // Six tasks, each one noop, spawned with offsets 10, 5, 9, 2, 7, 7 at a
    // frozen clock: the pop order of the first wave follows the deadlines,
    // with insertion-order FIFO between the two equal ones.
    let mut executor = Executor::new(TickTimer::new(0, 0));
    let a = executor.spawn(Task::new(10u64.into(), DelayStrategy::ReturnError, one_noop()));
    let b = executor.spawn(Task::new(5u64.into(), DelayStrategy::ReturnError, one_noop()));
    let c = executor.spawn(Task::new(9u64.into(), DelayStrategy::ReturnError, one_noop()));
    let d = executor.spawn(Task::new(2u64.into(), DelayStrategy::ReturnError, one_noop()));
    let e = executor.spawn(Task::new(7u64.into(), DelayStrategy::ReturnError, one_noop()));
    let e2 = executor.spawn(Task::new(7u64.into(), DelayStrategy::ReturnError, one_noop()));

    assert!(executor.run().is_ok());

    // Each task is first polled in deadline order; a pending task keeps its
    // key, so it is polled a second time before higher keys get their turn.
    let mut first_polls = Vec::new();
    for id in executor.poll_history() {
        if !first_polls.contains(id) {
            first_polls.push(*id);
        }
    }
    assert_eq!(first_polls, vec![d, b, e, e2, c, a]);
    // Two polls per task: one pending, one ready.
    assert_eq!(executor.poll_history().len(), 12);
    // Every task retired.
    assert_eq!(executor.task_count(), 0);
}

#[test]
fn always_pending_task_misses_its_deadline() {
    let mut executor = Executor::new(TickTimer::new(0, 1));
    let id = executor.spawn(Task::new(
        2u64.into(),
        DelayStrategy::ReturnError,
        Body::new(vec![Step::Forever]),
    ));
    assert_eq!(executor.run(), Err(ExecutorError::MissedDeadline(id)));
    // The missed task is still resident; nothing else was.
    assert!(executor.has_task(id));
}

#[test]
fn slow_task_errs_or_continues_by_policy() {
    // Ten ticks of work against a one-tick deadline: fatal under
    // ReturnError.
    let mut executor = Executor::new(TickTimer::new(0, 1));
    let mut steps = Vec::new();
    for _ in 0..10 {
        steps.push(Step::SleepFor { duration: 1, armed: None });
    }
    let id = executor.spawn(Task::new(1u64.into(), DelayStrategy::ReturnError, Body::new(steps)));
    assert_eq!(executor.run(), Err(ExecutorError::MissedDeadline(id)));

    // Three ticks of work against the same deadline: late but allowed to
    // finish under ContinueRunning.
    let mut executor = Executor::new(TickTimer::new(0, 1));
    let mut steps = Vec::new();
    for _ in 0..3 {
        steps.push(Step::SleepFor { duration: 1, armed: None });
    }
    executor.spawn(Task::new(1u64.into(), DelayStrategy::ContinueRunning, Body::new(steps)));
    assert_eq!(executor.run(), Ok(()));
    assert_eq!(executor.task_count(), 0);
}

#[test]
fn partial_value_survives_fatal_miss() {
    let mut executor = Executor::new(TickTimer::new(0, 1));
    let id = executor.spawn(Task::new(
        3u64.into(),
        DelayStrategy::ReturnError,
        Body::new(vec![Step::Publish { value: 9 }, Step::Forever]),
    ));
    assert!(executor.run().is_err());
    assert_eq!(executor.partial_result(id), Some(9));
}

#[test]
fn partial_value_survives_silent_abort() {
    let mut executor = Executor::new(TickTimer::new(0, 1));
    let id = executor.spawn(Task::new(
        2u64.into(),
        DelayStrategy::SilentlyAbort,
        Body::new(vec![Step::Publish { value: 7 }, Step::Forever]),
    ));
    // The miss is not an error, the task retires, and what it published
    // stays readable.
    assert_eq!(executor.run(), Ok(()));
    assert_eq!(executor.task_count(), 0);
    assert_eq!(executor.partial_result(id), Some(7));
}

#[test]
fn missed_task_is_replaced_by_approximation() {
    let mut executor = Executor::new(TickTimer::new(0, 1));
    let replacement = Task::new(
        50u64.into(),
        DelayStrategy::ReturnError,
        Body::new(vec![Step::SleepFor { duration: 1, armed: None }]),
    );
    let id = executor.spawn(Task::new(
        2u64.into(),
        DelayStrategy::InsteadApproximate(Box::new(replacement)),
        Body::new(vec![Step::Forever]),
    ));

    assert_eq!(executor.run(), Ok(()));
    // The replaced task and the replacement (the next id) both retired, and
    // the replacement was polled.
    assert_eq!(executor.task_count(), 0);
    assert!(!executor.has_task(id));
    assert!(executor.poll_history().contains(&(id + 1)));
}

#[test]
fn finite_deadlines_poll_before_continued_tasks() {
    // After a ContinueRunning task misses, it is scheduled behind every
    // finite-deadline task: the finite task finishes before the continued
    // one is polled again.
    let mut executor = Executor::new(TickTimer::new(0, 1));
    let c = executor.spawn(Task::new(
        1u64.into(),
        DelayStrategy::ContinueRunning,
        Body::new(vec![Step::SleepFor { duration: 5, armed: None }]),
    ));
    let f = executor.spawn(Task::new(100u64.into(), DelayStrategy::ReturnError, one_noop()));

    assert_eq!(executor.run(), Ok(()));
    assert_eq!(executor.poll_history(), &vec![c, f, f, c, c]);
}

#[test]
fn run_with_nothing_spawned_is_ok() {
    let mut executor = Executor::new(TickTimer::new(0, 1));
    assert_eq!(executor.run(), Ok(()));
    assert_eq!(executor.task_count(), 0);
    assert!(executor.poll_history().is_empty());
}

#[test]
fn task_ids_are_unique() {
    let mut executor = Executor::new(TickTimer::new(0, 0));
    let a = executor.spawn(Task::new(1u64.into(), DelayStrategy::ReturnError, one_noop()));
    let b = executor.spawn(Task::new(1u64.into(), DelayStrategy::ReturnError, one_noop()));
    let c = executor.spawn(Task::new(1u64.into(), DelayStrategy::ReturnError, one_noop()));
    assert!(a != b && b != c && a != c);
}
