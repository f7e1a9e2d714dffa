//! Partial results: a task may publish the best value obtained so far
//! before it is discarded, and the spawner reads it after the run.

use vstd::prelude::*;

use crate::executor::Executor;
use crate::time::Timer;

verus! {

/// A single-cell publish slot: `set` overwrites, `get` takes the most
/// recent value out.
pub struct PartialResultSlot<T> {
    value: Option<T>,
}

impl<T> PartialResultSlot<T> {
    /// The value held, if any.
    pub closed spec fn spec_value(&self) -> Option<T> {
        self.value
    }

    /// An empty slot.
    pub fn new() -> (r: PartialResultSlot<T>)
        ensures
            r.spec_value() is None,
    {
        PartialResultSlot { value: None }
    }

    /// Publish `value`, overwriting whatever the slot held.
    pub fn set(&mut self, value: T)
        ensures
            final(self).spec_value() == Some(value),
    {
        self.value = Some(value);
    }

    /// Take the most recent value out, leaving the slot empty.
    pub fn get(&mut self) -> (r: Option<T>)
        ensures
            r == old(self).spec_value(),
            final(self).spec_value() is None,
    {
        self.value.take()
    }
}

/// The read side of a task's partial-result sink, handed out by
/// `Executor::spawn_partial`. The sink is kept by the executor and outlives
/// the task, so it can be read after the run returns.
pub struct PartialResultOutput {
    task_id: u64,
}

impl PartialResultOutput {
    /// The id of the task whose sink this reads.
    pub closed spec fn spec_task_id(&self) -> u64 {
        self.task_id
    }

    /// Wrap the id of a spawned task.
    pub(crate) fn new(task_id: u64) -> (r: PartialResultOutput)
        ensures
            r.spec_task_id() == task_id,
    {
        PartialResultOutput { task_id }
    }

    /// The id of the task whose sink this reads, as a value.
    pub fn task_id(&self) -> (r: u64)
        ensures
            r == self.spec_task_id(),
    {
        self.task_id
    }

    /// The last value the task published, if any.
    pub fn get<T: Timer>(self, executor: &Executor<T>) -> (r: Option<u64>)
        ensures
            match r {
                Some(v) => executor.spec_sinks().contains_key(self.spec_task_id()) && v
                    == executor.spec_sinks()[self.spec_task_id()],
                None => !executor.spec_sinks().contains_key(self.spec_task_id()),
            },
    {
        executor.partial_result(self.task_id)
    }
}

} // verus!
