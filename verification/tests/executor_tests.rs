//! Runs of the executor over multi-step task bodies.

use dependability::deadline::Deadline;
use dependability::executor::{Executor, ExecutorError};
use dependability::task::{noop, Body, DelayStrategy, Step, Task};
use dependability::time::TickTimer;

fn steps_noop() -> Vec<Step> {
    vec![Step::Noop(noop())]
}

/// A body that suspends `n` times, one tick apart.
fn long_task(n: u64) -> Body {
    let mut steps = Vec::new();
    let mut i = 0;
    while i < n {
        steps.push(Step::SleepFor {
            duration: 1,
            armed: None,
        });
        i += 1;
    }
    Body::new(steps)
}

#[test]
fn test_async_await() {
    let mut executor = Executor::new(TickTimer::new(0, 0));

    executor.spawn(Task::new(
        10u64.into(),
        DelayStrategy::ReturnError,
        Body::new(steps_noop()),
    ));
    executor.spawn(Task::new(
        5u64.into(),
        DelayStrategy::ReturnError,
        Body::new(steps_noop()),
    ));
    executor.spawn(Task::new(
        9u64.into(),
        DelayStrategy::ReturnError,
        Body::new(steps_noop()),
    ));
    executor.spawn(Task::new(
        2u64.into(),
        DelayStrategy::ReturnError,
        Body::new(steps_noop()),
    ));
    executor.spawn(Task::new(
        7u64.into(),
        DelayStrategy::ReturnError,
        Body::new(steps_noop()),
    ));
    executor.spawn(Task::new(
        7u64.into(),
        DelayStrategy::ReturnError,
        Body::new(steps_noop()),
    ));

    assert!(executor.run().is_ok());
}

#[test]
fn test_missing_deadline() {
    let mut executor = Executor::new(TickTimer::new(0, 1));
    executor.spawn(Task::new(
        2u64.into(),
        DelayStrategy::ReturnError,
        Body::new(vec![Step::Forever]),
    ));
    assert!(executor.run().is_err());
}

#[test]
fn test_continue_running_behavior() {
    let mut executor = Executor::new(TickTimer::new(0, 1));
    executor.spawn(Task::new(
        1u64.into(),
        DelayStrategy::ReturnError,
        long_task(10),
    ));
    assert!(executor.run().is_err());

    let mut executor = Executor::new(TickTimer::new(0, 1));
    executor.spawn(Task::new(
        1u64.into(),
        DelayStrategy::ContinueRunning,
        long_task(3),
    ));
    assert!(executor.run().is_ok());
}

#[test]
fn test_partial() {
    let mut executor = Executor::new(TickTimer::new(0, 1));
    let id = executor.spawn(Task::new(
        3u64.into(),
        DelayStrategy::ReturnError,
        Body::new(vec![Step::Publish { value: 9 }, Step::Forever]),
    ));
    println!("{:?}", executor.run());
    println!("{:?}", executor.partial_result(id));
    assert_eq!(Some(9), executor.partial_result(id));
}

#[test]
fn lib_test_state_machine() {
    let mut executor = Executor::new(TickTimer::new(0, 0));

    executor.spawn(Task::new(
        5u64.into(),
        DelayStrategy::ReturnError,
        Body::new(vec![Step::Noop(noop()), Step::Noop(noop())]),
    ));
    executor.spawn(Task::new(
        4u64.into(),
        DelayStrategy::ReturnError,
        Body::new(vec![Step::Noop(noop()), Step::Noop(noop())]),
    ));
    executor.run().unwrap();
}

#[test]
fn test_state_machine() {
    let mut executor = Executor::new(TickTimer::new(0, 0));

    // One tick of work, one bounded allocation and one yield per round,
    // eight rounds, against an allocation budget of 64 units.
    let mut steps = Vec::new();
    for _ in 0..8 {
        steps.push(Step::Block { duration: 1 });
        steps.push(Step::Reserve { units: 1 });
        steps.push(Step::Noop(noop()));
    }
    executor.spawn(Task::new(
        16u64.into(),
        DelayStrategy::ReturnError,
        Body::with_budget(steps, 64),
    ));
    assert!(executor.run().is_ok());
}

#[test]
fn test_continue_running_queue() {
    let mut exec = Executor::new(TickTimer::new(0, 0));

    exec.spawn(Task::new(
        3u64.into(),
        DelayStrategy::ContinueRunning,
        Body::new(vec![Step::Block { duration: 2 }]),
    ));
    exec.spawn(Task::new(
        4u64.into(),
        DelayStrategy::ReturnError,
        Body::new(vec![Step::Block { duration: 2 }]),
    ));

    assert!(exec.run().is_ok())
}

#[test]
fn test_partial_results() {
    let mut executor = Executor::new(TickTimer::new(0, 0));

    let output = executor.spawn_partial(
        Deadline::Finite(5),
        Body::new(vec![
            Step::Publish { value: 39 },
            Step::Noop(noop()),
            Step::Publish { value: 44 },
            Step::Noop(noop()),
            Step::Publish { value: 42 },
        ]),
    );

    executor.run().unwrap();

    println!("The answer is {}.", output.get(&executor).unwrap_or(0));
}

#[test]
fn deadline_panic_policy_is_surfaced() {
    let mut executor = Executor::new(TickTimer::new(0, 1));
    let id = executor.spawn(Task::new(
        1u64.into(),
        DelayStrategy::Panic,
        Body::new(vec![Step::Forever]),
    ));
    assert_eq!(executor.run(), Err(ExecutorError::DeadlinePanic(id)));
}

#[test]
fn poll_budget_is_surfaced() {
    let mut executor = Executor::with_poll_budget(TickTimer::new(0, 0), 3);
    executor.spawn(Task::new(
        1000u64.into(),
        DelayStrategy::ReturnError,
        Body::new(vec![Step::Forever]),
    ));
    assert_eq!(executor.run(), Err(ExecutorError::PollBudgetExhausted));
}
