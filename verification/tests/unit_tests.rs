//! The runtime's pieces one by one: deadlines, the ready queue, the bounded
//! allocator, the publish slot, the timer, the suspension primitives, the
//! sensor cache, and the retry wrapper.

use dependability::allocator::{AllocPoll, RestrictiveAlloc};
use dependability::collections::BoundedVec;
use dependability::deadline::{Deadline, INFINITE_SCHEDULING_HORIZON};
use dependability::executor::TaskWaker;
use dependability::partial_result::PartialResultSlot;
use dependability::priority_queue::PriorityQueue;
use dependability::retry::{retry, RetryError, ScriptedOp};
use dependability::sensor_cache::{SensorValue, SmoothedSensor};
use dependability::task::{noop, sleep, sleep_until, TaskPoll};
use dependability::time::{TickTimer, Timer};
use std::cmp::Ordering;

#[test]
fn deadline_total_order() {
    let d: Deadline = 7u64.into();
    assert_eq!(d, Deadline::Finite(7));
    assert_eq!(Deadline::Finite(1).partial_cmp(&Deadline::Finite(2)), Some(Ordering::Less));
    assert_eq!(Deadline::Finite(2).partial_cmp(&Deadline::Finite(2)), Some(Ordering::Equal));
    assert_eq!(Deadline::Finite(3).partial_cmp(&Deadline::Finite(2)), Some(Ordering::Greater));
    assert_eq!(Deadline::Finite(u64::MAX).partial_cmp(&Deadline::Infinite), Some(Ordering::Less));
    assert_eq!(Deadline::Infinite.partial_cmp(&Deadline::Finite(0)), Some(Ordering::Greater));
    assert_eq!(Deadline::Infinite.partial_cmp(&Deadline::Infinite), Some(Ordering::Equal));
    assert!(Deadline::Infinite == Deadline::Infinite);
    assert!(Deadline::Finite(1) < Deadline::Infinite);
}

#[test]
fn deadline_shift_and_scheduling_key() {
    assert_eq!(Deadline::Finite(5).plus(3), Deadline::Finite(8));
    assert_eq!(Deadline::Finite(u64::MAX).plus(2), Deadline::Finite(u64::MAX));
    assert_eq!(Deadline::Infinite.plus(9), Deadline::Infinite);
    assert_eq!(Deadline::Finite(9).to_scheduling_timestamp(100), 9);
    assert_eq!(
        Deadline::Infinite.to_scheduling_timestamp(100),
        100 + INFINITE_SCHEDULING_HORIZON
    );
    assert!(!Deadline::Finite(9).is_missed(8));
    assert!(Deadline::Finite(9).is_missed(9));
    assert!(!Deadline::Infinite.is_missed(u64::MAX));
}

#[test]
fn queue_pops_minimum_fifo() {
    let mut q = PriorityQueue::new();
    assert!(q.is_empty());
    q.push(1, 5);
    q.push(2, 3);
    q.push(3, 3);
    assert_eq!(q.len(), 3);
    // Minimal priority first; insertion order among equals.
    assert_eq!(q.pop(), Some((2, 3)));
    assert_eq!(q.pop(), Some((3, 3)));
    assert_eq!(q.pop(), Some((1, 5)));
    assert_eq!(q.pop(), None);
    assert!(q.is_empty());
}

#[test]
fn allocator_accounting_stays_below_cap() {
    let mut a = RestrictiveAlloc::new(10);
    assert_eq!(a.cap(), 10);
    assert_eq!(a.allocate(4), Ok(()));
    assert!(a.allocated() <= a.cap());
    // 4 + 6 is not strictly below the cap: refused, accounting unchanged.
    assert!(a.allocate(6).is_err());
    assert_eq!(a.allocated(), 4);
    // The soft path signals back-pressure instead.
    assert_eq!(a.try_allocate(6), AllocPoll::Pending);
    assert_eq!(a.try_allocate(5), AllocPoll::Granted);
    assert_eq!(a.allocated(), 9);
    assert!(a.allocated() <= a.cap());
    a.deallocate(9);
    assert_eq!(a.allocated(), 0);
}

#[test]
fn bounded_vec_backpressure() {
    let mut v: BoundedVec<u32> = BoundedVec::new(4);
    assert_eq!(v.push(10), None);
    assert_eq!(v.push(11), None);
    assert_eq!(v.push(12), None);
    // 3 + 1 is not strictly below the budget of 4: handed back.
    assert_eq!(v.push(13), Some(13));
    assert_eq!(v.len(), 3);
    assert_eq!(*v.get(0), 10);
    assert_eq!(*v.get(2), 12);
}

#[test]
fn partial_slot_set_and_take() {
    let mut slot: PartialResultSlot<u8> = PartialResultSlot::new();
    assert_eq!(slot.get(), None);
    slot.set(5);
    slot.set(6);
    assert_eq!(slot.get(), Some(6));
    // `get` takes the value out.
    assert_eq!(slot.get(), None);
}

#[test]
fn tick_timer_advances() {
    let mut t = TickTimer::new(5, 2);
    assert_eq!(t.now(), 7);
    assert_eq!(t.now(), 9);
    t.delay(10);
    assert_eq!(t.now(), 21);
    assert_eq!(t.elapsed_since(7), 16);
}

#[test]
fn noop_pends_exactly_once() {
    let mut n = noop();
    assert_eq!(n.poll(), TaskPoll::Pending);
    assert_eq!(n.poll(), TaskPoll::Ready);
    assert_eq!(n.poll(), TaskPoll::Ready);
}

#[test]
fn sleep_waits_for_the_tick_to_pass() {
    let mut frozen = TickTimer::new(5, 0);
    let s = sleep_until(5);
    // now == 5 has not passed 5 yet.
    assert_eq!(s.poll(&mut frozen), TaskPoll::Pending);
    let mut later = TickTimer::new(6, 0);
    assert_eq!(s.poll(&mut later), TaskPoll::Ready);

    let mut t = TickTimer::new(0, 0);
    let s = sleep(&mut t, 4);
    assert_eq!(s.poll(&mut t), TaskPoll::Pending);
    t.delay(5);
    assert_eq!(s.poll(&mut t), TaskPoll::Ready);
}

#[test]
fn waker_requeues_under_scheduling_key() {
    let w = TaskWaker::new(3, Deadline::Finite(9));
    let mut q = PriorityQueue::new();
    w.wake_task(&mut q, 100);
    assert_eq!(q.pop(), Some((3, 9)));

    let w = TaskWaker::new(4, Deadline::Infinite);
    w.wake_task(&mut q, 100);
    assert_eq!(q.pop(), Some((4, 100 + INFINITE_SCHEDULING_HORIZON)));
}

#[test]
fn test_plausible() {
    // The sensor climbs by one per read with a tolerance of two: every
    // reading is plausible.
    let mut smoothed = SmoothedSensor::new(2);
    for i in 1i64..10 {
        match smoothed.read::<u8>(Ok(i)) {
            SensorValue::Plausible(v) => assert_eq!(v, i),
            SensorValue::Implausible(_) => unreachable!(),
            SensorValue::Error(_, _) => unreachable!(),
        }
    }
}

#[test]
fn test_implausible() {
    // The sensor jumps by eleven on the sixth read: from then on every
    // reading is implausible and the expectation stays at the last accepted
    // value.
    let mut smoothed = SmoothedSensor::new(2);
    for i in 1i64..10 {
        let raw = if i <= 5 { i } else { i + 10 };
        match smoothed.read::<u8>(Ok(raw)) {
            SensorValue::Plausible(v) => {
                assert_eq!(v, i);
                assert!(i <= 5);
            }
            SensorValue::Implausible(v) => {
                assert_eq!(v, i + 10);
                assert!(i > 5);
            }
            SensorValue::Error(_, _) => unreachable!(),
        }
    }
    assert_eq!(smoothed.expected_value(), 5);
}

#[test]
fn sensor_error_reports_expected_value() {
    let mut smoothed = SmoothedSensor::new(2);
    assert!(matches!(smoothed.read::<&str>(Ok(10)), SensorValue::Plausible(10)));
    match smoothed.read::<&str>(Err("bus fault")) {
        SensorValue::Error(expected, e) => {
            assert_eq!(expected, 10);
            assert_eq!(e, "bus fault");
        }
        _ => unreachable!(),
    }
}

#[test]
fn succeeds() {
    let mut op = ScriptedOp::new(vec![Some(42)]);
    assert_eq!(retry(&mut op, 3), Ok(42));
}

#[test]
fn fails() {
    let mut op: ScriptedOp<i32> = ScriptedOp::new(vec![None, None, None, None]);
    assert_eq!(retry(&mut op, 3), Err(RetryError));
}

#[test]
fn retry_bound_decides_the_outcome() {
    // Fails twice, then succeeds: three invocations are allowed by a bound
    // of three, but not by a bound of one.
    let mut op = ScriptedOp::new(vec![None, None, Some(7)]);
    assert_eq!(retry(&mut op, 3), Ok(7));

    let mut op = ScriptedOp::new(vec![None, None, Some(7)]);
    assert_eq!(retry(&mut op, 1), Err(RetryError));
}
