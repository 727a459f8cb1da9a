//! Tests of the tries of inactive processes and of the run queue.

use heph_rt::scheduler::inactive::{self as local, Inactive as LocalInactive, LEVEL_SHIFT, N_BRANCHES};
use heph_rt::scheduler::process::Process;
use heph_rt::scheduler::shared::inactive::{self as shared, Inactive};
use heph_rt::scheduler::shared::runqueue::RunQueue;
use heph_rt::setup::scheduler::{Cfs, ProcessId};
use heph_rt::spawn::options::Priority;

#[derive(Debug)]
struct TestProcess;

fn test_process(pid: usize) -> Process<Cfs, TestProcess> {
    Process::new(ProcessId(pid), Priority::default(), TestProcess)
}

fn pow2(exp: usize) -> usize {
    2_usize.pow(exp as u32)
}

#[test]
fn constants() {
    assert_eq!(pow2(LEVEL_SHIFT), N_BRANCHES);
}

#[test]
fn test_diff_branch_depth() {
    let tests = &[
        (ProcessId(0b0001_00), ProcessId(0b0000_00), 0),
        (ProcessId(0b0000_00), ProcessId(0b0001_00), 0),
        (ProcessId(0b0010_00), ProcessId(0b0000_00), 0),
        (ProcessId(0b0000_00), ProcessId(0b0010_00), 0),
        (ProcessId(0b0100_00), ProcessId(0b0000_00), 0),
        (ProcessId(0b0000_00), ProcessId(0b0100_00), 0),
        (ProcessId(0b1000_00), ProcessId(0b0000_00), 0),
        (ProcessId(0b0000_00), ProcessId(0b1000_00), 0),
        (ProcessId(0b0001_0000_00), ProcessId(0b0000_0000_00), 1),
        (ProcessId(0b0000_0000_00), ProcessId(0b0001_0000_00), 1),
        (ProcessId(0b0010_0000_00), ProcessId(0b0000_0000_00), 1),
        (ProcessId(0b0000_0000_00), ProcessId(0b0010_0000_00), 1),
        (ProcessId(0b0100_0000_00), ProcessId(0b0000_0000_00), 1),
        (ProcessId(0b0000_0000_00), ProcessId(0b0100_0000_00), 1),
        (ProcessId(0b1000_0000_00), ProcessId(0b0000_0000_00), 1),
        (ProcessId(0b0000_0000_00), ProcessId(0b1000_0000_00), 1),
        (ProcessId(0b0001_0000_0000_00), ProcessId(0b0000_0000_0000_00), 2),
        (ProcessId(0b0000_0000_0000_00), ProcessId(0b0001_0000_0000_00), 2),
        (ProcessId(0b0010_0000_0000_00), ProcessId(0b0000_0000_0000_00), 2),
        (ProcessId(0b0000_0000_0000_00), ProcessId(0b0010_0000_0000_00), 2),
        (ProcessId(0b0100_0000_0000_00), ProcessId(0b0000_0000_0000_00), 2),
        (ProcessId(0b0000_0000_0000_00), ProcessId(0b0100_0000_0000_00), 2),
        (ProcessId(0b1000_0000_0000_00), ProcessId(0b0000_0000_0000_00), 2),
        (ProcessId(0b0000_0000_0000_00), ProcessId(0b1000_0000_0000_00), 2),
    ];

    for (pid1, pid2, expected) in tests.iter().copied() {
        let got = local::diff_branch_depth(pid1, pid2);
        assert_eq!(
            got, expected,
            "pid1: {:064b} ({}), pid2: {:064b} ({})",
            pid1.0, pid1.0, pid2.0, pid2.0
        );
    }
}

#[test]
fn inactive_test_diff_branch_depth() {
    let tests = &[
        (0b0000, 0b0100, 0),
        (0b0000, 0b1000, 0),
        (0b00_0000, 0b01_0000, 1),
        (0b00_0000, 0b10_0000, 1),
        (0b0000_0000_0000_0000_0000_0000, 0b0100_0000_0000_0000_0000_0000, 10),
        (0b0000_0000_0000_0000_0000_0000, 0b1000_0000_0000_0000_0000_0000, 10),
        (0b0000_0000_0000_0000_0000_0000, 0b0100_0000_0000_0000_0000_0100, 0),
        (0b0000_0000_0000_0000_0000_0000, 0b1000_0000_0000_0000_0000_1000, 0),
        // NOTE: first two bits, the `SKIP_BITS`, are ignored.
        (0b0000, 0b0101, 0),
        (0b0000, 0b1001, 0),
    ];
    for (pid1, pid2, expected) in tests.iter().copied() {
        let pid1 = ProcessId(pid1);
        let pid2 = ProcessId(pid2);
        let got = shared::diff_branch_depth(pid1, pid2);
        assert_eq!(got, expected, "pid1: {}, pid2: {}", pid1.0, pid2.0);
    }
}

#[test]
fn marking_as_ready_to_run() {
    let tests = &[1, 2, 3, 4, 5, 100, 200];

    for n in tests {
        let mut tree = Inactive::empty();
        let mut run_queue = RunQueue::empty();

        let processes = (0..*n)
            .map(|i| {
                let process = test_process((i + 1) * 8);
                let pid = process.id();

                // Process not in the tree, shouldn't be added to the run
                // queue.
                tree.mark_ready(pid, &mut run_queue);
                assert!(!run_queue.has_process());

                process
            })
            .collect::<Vec<_>>();

        for process in processes {
            let pid = process.id();
            // Process should be marked as ready.
            tree.add(process, &mut run_queue);
            assert!(run_queue.has_process());
            let process = run_queue.remove().unwrap();
            assert_eq!(process.id(), pid);
        }
    }
}

#[test]
fn tree_empty() {
    // (empty)
    let mut run_queue: RunQueue<Cfs, TestProcess> = RunQueue::empty();
    assert!(!run_queue.has_process());
    assert!(run_queue.remove().is_none());
}

#[test]
fn shared_inactive_add_then_mark_ready() {
    let mut tree = Inactive::empty();
    let mut run_queue = RunQueue::empty();
    for i in 1..=50usize {
        tree.add(test_process(i * 4), &mut run_queue);
    }
    assert_eq!(tree.len(), 50);
    assert!(!run_queue.has_process());
    tree.mark_ready(ProcessId(100), &mut run_queue);
    assert_eq!(tree.len(), 49);
    assert_eq!(run_queue.remove().unwrap().id(), ProcessId(100));
    // Unknown pids are marked, the marker is used when the process is added.
    tree.mark_ready(ProcessId(1000), &mut run_queue);
    assert!(!run_queue.has_process());
}

#[test]
fn local_inactive_add_and_remove() {
    let mut tree = LocalInactive::empty();
    for i in 1..=100usize {
        tree.add(test_process(i * 4));
    }
    assert_eq!(tree.len(), 100);
    // Removing in another order than adding.
    for i in (1..=100usize).rev() {
        let process = tree.remove(ProcessId(i * 4)).expect("missing process");
        assert_eq!(process.id(), ProcessId(i * 4));
        assert!(tree.remove(ProcessId(i * 4)).is_none());
        assert_eq!(tree.len(), i - 1);
    }
    assert!(tree.remove(ProcessId(4)).is_none());
}

#[test]
fn ok_pids() {
    assert!(local::ok_pid(ProcessId(0)));
    assert!(local::ok_pid(ProcessId(8)));
    assert!(!local::ok_pid(ProcessId(1)));
    assert!(!shared::ok_pid(ProcessId(2)));
    assert!(shared::ok_pid(ProcessId(12)));
}

#[test]
fn run_queue_runs_by_rank_first_in_first_out() {
    let mut run_queue = RunQueue::empty();
    run_queue.add(Box::new(Process::<Cfs, TestProcess>::new(ProcessId(4), Priority::LOW, TestProcess)));
    run_queue.add(Box::new(Process::<Cfs, TestProcess>::new(ProcessId(8), Priority::HIGH, TestProcess)));
    run_queue.add(Box::new(Process::<Cfs, TestProcess>::new(ProcessId(12), Priority::NORMAL, TestProcess)));
    run_queue.add(Box::new(Process::<Cfs, TestProcess>::new(ProcessId(16), Priority::HIGH, TestProcess)));
    assert_eq!(run_queue.len(), 4);
    let order: Vec<usize> = (0..4).map(|_| run_queue.remove().unwrap().id().0).collect();
    assert_eq!(order, vec![8, 16, 12, 4]);
    assert!(run_queue.remove().is_none());
}

#[test]
fn diff_branch_depth_of_skipped_bits_only() {
    // Pids that differ only in the skipped bits never take different slots.
    assert_eq!(local::diff_branch_depth(ProcessId(1), ProcessId(2)), usize::BITS as usize / 4);
    assert_eq!(shared::diff_branch_depth(ProcessId(1), ProcessId(2)), usize::BITS as usize / 2);
}
