//! Tests of the thread-local and thread-safe schedulers.

use heph_rt::scheduler::shared::Scheduler;
use heph_rt::scheduler::system::SystemScheduler;
use heph_rt::scheduler::Scheduler as LocalScheduler;
use heph_rt::setup::scheduler::{Cfs, ProcessId};
use heph_rt::spawn::options::Priority;

#[derive(Debug, PartialEq)]
struct TestProcess(usize);

#[test]
fn adding_actor() {
    let mut scheduler = Scheduler::new();

    // Shouldn't run any process yet, since none are added.
    assert!(!scheduler.has_process());
    assert!(!scheduler.has_ready_process());
    assert_eq!(scheduler.remove(), None);

    let pid = scheduler.add_new_process(ProcessId(8), Priority::NORMAL, TestProcess(0));

    // Newly added processes are ready by default.
    assert!(scheduler.has_process());
    assert!(scheduler.has_ready_process());
    let process = scheduler.remove().unwrap();
    scheduler.add_back_process(*process);

    // After scheduling the process should be ready to run.
    scheduler.mark_ready(pid);
    assert!(scheduler.has_process());
    assert!(scheduler.has_ready_process());
    let process = scheduler.remove().unwrap();
    assert_eq!(process.as_ref().id(), pid);

    // After the process is run, and returned `Poll::Ready(()`, it should be
    // removed.
    assert!(!scheduler.has_process());
    assert!(!scheduler.has_ready_process());
    assert_eq!(scheduler.remove(), None);
    assert!(!scheduler.has_process());
    assert!(!scheduler.has_ready_process());

    // Adding the process back means its not ready.
    scheduler.add_back_process(*process);
    assert!(scheduler.has_process());
    assert!(!scheduler.has_ready_process());
    assert_eq!(scheduler.remove(), None);

    // Marking the same process as ready again.
    scheduler.mark_ready(pid);
    assert!(scheduler.has_process());
    assert!(scheduler.has_ready_process());
    let process = scheduler.remove().unwrap();
    assert_eq!(process.as_ref().id(), pid);
}

#[test]
fn marking_unknown_pid_as_ready() {
    let mut scheduler: Scheduler<TestProcess> = Scheduler::new();

    assert!(!scheduler.has_process());
    assert!(!scheduler.has_ready_process());
    assert_eq!(scheduler.remove(), None);

    // Scheduling an unknown process should do nothing.
    scheduler.mark_ready(ProcessId(0));
    assert!(!scheduler.has_process());
    assert!(!scheduler.has_ready_process());
    assert_eq!(scheduler.remove(), None);
}

#[test]
fn scheduler_run_order() {
    let mut scheduler = Scheduler::new();

    // The order in which the processes have been run.
    let mut run_order = Vec::new();

    // Add our processes.
    let priorities = [Priority::LOW, Priority::NORMAL, Priority::HIGH];
    let mut pids = vec![];
    for (id, priority) in priorities.iter().enumerate() {
        let pid = scheduler.add_new_process(ProcessId((id + 1) * 4), *priority, TestProcess(id));
        pids.push(pid);
    }

    assert!(scheduler.has_process());
    assert!(scheduler.has_ready_process());

    // Run all processes, should be in order of priority (since there runtimes
    // are equal).
    for _ in 0..3 {
        let process = scheduler.remove().unwrap();
        run_order.push(process.process().0);
    }
    assert!(!scheduler.has_process());
    assert_eq!(run_order, vec![2_usize, 1, 0]);
}

#[test]
fn wake_while_running_is_not_lost() {
    let mut scheduler = Scheduler::new();
    let pid = scheduler.add_new_process(ProcessId(40), Priority::NORMAL, TestProcess(1));
    let process = scheduler.remove().unwrap();
    // Woken while running.
    scheduler.mark_ready(pid);
    assert!(!scheduler.has_ready_process());
    scheduler.add_back_process(*process);
    assert!(scheduler.has_ready_process());
    assert_eq!(scheduler.inactive(), 0);
    assert_eq!(scheduler.remove().unwrap().id(), pid);
}

#[test]
fn completed_process_leaves_no_marker() {
    let mut scheduler = Scheduler::new();
    let pid = scheduler.add_new_process(ProcessId(40), Priority::NORMAL, TestProcess(1));
    let process = scheduler.remove().unwrap();
    scheduler.mark_ready(pid);
    scheduler.complete(*process);
    assert!(!scheduler.has_process());
    assert_eq!(scheduler.ready(), 0);
}

#[test]
fn local_scheduler_cycle() {
    let mut scheduler: LocalScheduler<Cfs, TestProcess> = LocalScheduler::new();
    assert!(!scheduler.has_ready_process());
    let low = scheduler.add_new_process(ProcessId(4), Priority::LOW, TestProcess(0));
    let high = scheduler.add_new_process(ProcessId(8), Priority::HIGH, TestProcess(1));
    assert_eq!(scheduler.ready(), 2);

    // The higher priority runs first.
    let process = scheduler.next_process().unwrap();
    assert_eq!(process.id(), high);
    scheduler.add_back_process(process);
    assert_eq!(scheduler.inactive(), 1);

    // Marking an unknown pid does nothing.
    scheduler.mark_ready(ProcessId(100));
    assert_eq!(scheduler.ready(), 1);

    scheduler.mark_ready(high);
    assert_eq!(scheduler.inactive(), 0);
    assert_eq!(scheduler.ready(), 2);
    assert_eq!(scheduler.next_process().unwrap().id(), high);
    assert_eq!(scheduler.next_process().unwrap().id(), low);
    assert!(scheduler.next_process().is_none());
}

#[test]
fn marking_invalid_pid_is_ignored() {
    let mut scheduler = Scheduler::new();
    let pid = scheduler.add_new_process(ProcessId(40), Priority::NORMAL, TestProcess(1));
    let process = scheduler.remove().unwrap();
    // Not a pid any process can have.
    scheduler.mark_ready(ProcessId(41));
    scheduler.add_back_process(*process);
    assert!(!scheduler.has_ready_process());
    assert_eq!(scheduler.inactive(), 1);
    scheduler.mark_ready(pid);
    assert!(scheduler.has_ready_process());
}

#[test]
fn system_scheduler_runs_woken_futures_in_order() {
    let mut scheduler = SystemScheduler::new(3);
    assert_eq!(scheduler.next_to_run(), None);

    scheduler.wake(2);
    scheduler.wake(0);
    assert_eq!(scheduler.next_to_run(), Some(0));
    assert_eq!(scheduler.next_to_run(), Some(2));
    assert_eq!(scheduler.next_to_run(), None);
}

#[test]
fn system_scheduler_skips_finished_futures() {
    let mut scheduler = SystemScheduler::new(3);
    scheduler.finished(1);
    scheduler.wake(1);
    scheduler.wake(2);
    assert_eq!(scheduler.next_to_run(), Some(2));
    scheduler.wake(1);
    assert_eq!(scheduler.next_to_run(), None);
}
