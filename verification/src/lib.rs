//! A deadline-aware cooperative task runtime.
//!
//! User-supplied work items ("tasks") each declare a deadline and a policy
//! that dictates what happens when the deadline is missed. An executor
//! drives tasks to completion in earliest-deadline order and yields a final
//! verdict suitable for systems that must prove forward progress or detect
//! timing faults.

pub mod allocator;
pub mod collections;
pub mod deadline;
pub mod executor;
pub mod partial_result;
pub mod priority_queue;
pub mod retry;
pub mod sensor_cache;
pub mod task;
pub mod time;

pub use deadline::Deadline;
