//! Tests of process ids and the process container.

use std::cmp::Ordering;

use heph_rt::scheduler::process::Process;
use heph_rt::setup::scheduler::{Cfs, Order, Process as Named, ProcessId, Schedule};
use heph_rt::spawn::options::Priority;

#[test]
fn pid() {
    assert_eq!(ProcessId(0), ProcessId(0));
    assert_eq!(ProcessId(100), ProcessId(100));

    assert!(ProcessId(0) < ProcessId(100));

    assert_eq!(ProcessId(0).to_string(), "0");
    assert_eq!(ProcessId(100).to_string(), "100");
    assert_eq!(ProcessId(8000).to_string(), "8000");
}

#[derive(Debug)]
struct NopTestTask;

impl Named for NopTestTask {
    fn name(&self) -> &'static str {
        "NopTestTask"
    }
}

#[test]
fn process_name() {
    let process = Process::<Cfs, NopTestTask>::new(ProcessId::new(0), Priority::LOW, NopTestTask);
    assert_eq!(process.name(), "NopTestTask");
}

#[test]
#[allow(clippy::eq_op)] // Need to compare `Process` to itself.
fn process_data_equality() {
    let process1 = Process::<Cfs, NopTestTask>::new(ProcessId::new(0), Priority::LOW, NopTestTask);
    let process2 = Process::<Cfs, NopTestTask>::new(ProcessId::new(1), Priority::NORMAL, NopTestTask);
    let process3 = Process::<Cfs, NopTestTask>::new(ProcessId::new(2), Priority::HIGH, NopTestTask);
    let process4 = Process::<Cfs, NopTestTask>::new(ProcessId::new(3), Priority::LOW, NopTestTask);

    // Equality is only based on id alone.
    assert_eq!(process1, process1);
    assert_ne!(process1, process2);
    assert_ne!(process1, process3);
    assert_ne!(process1, process4);

    assert_ne!(process2, process1);
    assert_eq!(process2, process2);
    assert_ne!(process2, process3);
    assert_ne!(process2, process4);

    assert_ne!(process3, process1);
    assert_ne!(process3, process2);
    assert_eq!(process3, process3);
    assert_ne!(process3, process4);

    assert_ne!(process4, process1);
    assert_ne!(process4, process2);
    assert_ne!(process4, process3);
    assert_eq!(process4, process4);
}

#[test]
fn pid_data_round_trip() {
    assert_eq!(ProcessId::new(42).data(), 42);
    assert_eq!(ProcessId::new(usize::MAX).to_string(), usize::MAX.to_string());
}

#[test]
fn process_order_by_priority() {
    let low = Process::<Cfs, NopTestTask>::new(ProcessId::new(0), Priority::LOW, NopTestTask);
    let normal = Process::<Cfs, NopTestTask>::new(ProcessId::new(4), Priority::NORMAL, NopTestTask);
    let high = Process::<Cfs, NopTestTask>::new(ProcessId::new(8), Priority::HIGH, NopTestTask);
    // Equal runtimes: the higher priority runs first.
    assert_eq!(high.order(&normal), Order::Greater);
    assert_eq!(normal.order(&low), Order::Greater);
    assert_eq!(low.order(&high), Order::Less);
    assert_eq!(low.order(&low), Order::Equal);
    assert_eq!(high.id(), ProcessId(8));
}

#[test]
fn cfs_new_has_no_runtime() {
    let mut cfs = Cfs::new(Priority::HIGH);
    assert_eq!(cfs.fair_runtime(), std::time::Duration::ZERO);
    assert_eq!(Priority::default(), Priority::NORMAL);
    assert_eq!(Priority::HIGH.weight(), 5);
    assert_eq!(Priority::NORMAL.weight(), 10);
    assert_eq!(Priority::LOW.weight(), 15);
    assert!(Priority::HIGH.is_higher_than(Priority::NORMAL));
    assert!(!Priority::LOW.is_higher_than(Priority::NORMAL));
}

#[test]
fn process_ids_order_by_their_numbers() {
    assert_eq!(ProcessId(3).partial_cmp(&ProcessId(7)), Some(Ordering::Less));
    assert_eq!(ProcessId(7).partial_cmp(&ProcessId(7)), Some(Ordering::Equal));
    assert_eq!(ProcessId(9).cmp(&ProcessId(7)), Ordering::Greater);
    assert!(ProcessId(1) < ProcessId(2));
    assert_eq!(ProcessId::new(5).data(), 5);
}
