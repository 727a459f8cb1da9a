//! Tests of run statistics, fair runtimes, timeouts and metrics.

use std::task::Poll;
use std::time::{Duration, Instant};

use heph_rt::metrics::{cpu_time, SharedMetrics};
use heph_rt::setup::scheduler::{Cfs, RunStats, Schedule};
use heph_rt::shared::next_timeout;
use heph_rt::spawn::options::Priority;
use heph_rt::time::time_until;

#[test]
fn run_stats() {
    let start = Instant::now();
    let end = start + Duration::from_millis(10);
    let stats = RunStats::new(start, end, Poll::Pending);
    assert_eq!(stats.start(), start);
    assert_eq!(stats.end(), end);
    assert_eq!(stats.elapsed(), Duration::from_millis(10));
    assert_eq!(stats.result(), Poll::Pending);
}

#[test]
fn process_data_runtime_increase() {
    let start = Instant::now();
    let stats = RunStats::new(start, start + Duration::from_millis(10), Poll::Pending);
    let mut cfs = Cfs::new(Priority::HIGH);
    cfs.update(&stats);
    // The runtime is weighted by the priority.
    assert_eq!(cfs.fair_runtime(), Duration::from_millis(50));
    let mut cfs = Cfs::new(Priority::LOW);
    cfs.update(&stats);
    cfs.update(&stats);
    assert_eq!(cfs.fair_runtime(), Duration::from_millis(300));
}

#[test]
fn less_runtime_runs_first() {
    let start = Instant::now();
    let stats = RunStats::new(start, start + Duration::from_millis(1), Poll::Pending);
    let mut ran = Cfs::new(Priority::HIGH);
    ran.update(&stats);
    let fresh = Cfs::new(Priority::LOW);
    assert_eq!(Cfs::order(&fresh, &ran), heph_rt::setup::scheduler::Order::Greater);
    assert_eq!(Cfs::order(&ran, &fresh), heph_rt::setup::scheduler::Order::Less);
}

#[test]
fn timeouts() {
    let now = Instant::now();
    let later = now + Duration::from_millis(100);
    let earlier = now - Duration::from_millis(100);
    // No timers: the current timeout.
    assert_eq!(next_timeout(None, now, None), None);
    assert_eq!(next_timeout(None, now, Some(Duration::from_secs(1))), Some(Duration::from_secs(1)));
    // A timer: the smaller of the two.
    assert_eq!(next_timeout(Some(later), now, None), Some(Duration::from_millis(100)));
    assert_eq!(
        next_timeout(Some(later), now, Some(Duration::from_secs(1))),
        Some(Duration::from_millis(100))
    );
    assert_eq!(
        next_timeout(Some(later), now, Some(Duration::from_millis(10))),
        Some(Duration::from_millis(10))
    );
    // An expired timer: no blocking.
    assert_eq!(next_timeout(Some(earlier), now, Some(Duration::from_secs(1))), Some(Duration::ZERO));
}

#[test]
fn time_until_deadline() {
    let now = Instant::now();
    assert_eq!(time_until(None, now), None);
    assert_eq!(time_until(Some(now + Duration::from_secs(2)), now), Some(Duration::from_secs(2)));
    // Passed deadlines are zero.
    assert_eq!(time_until(Some(now - Duration::from_secs(2)), now), Some(Duration::ZERO));
}

#[test]
fn shared_metrics() {
    let metrics = SharedMetrics {
        start: Instant::now(),
        scheduler_ready: 1,
        scheduler_inactive: 2,
        timers: 3,
        timers_next: Some(Duration::from_secs(4)),
        trace_counter: 5,
    };
    assert_eq!(metrics.scheduler_ready(), 1);
    assert_eq!(metrics.scheduler_inactive(), 2);
    assert_eq!(metrics.timers(), 3);
    assert_eq!(metrics.timers_next(), Some(Duration::from_secs(4)));
    assert_eq!(metrics.trace_counter(), 5);
    assert!(metrics.uptime() < Duration::from_secs(60));
}

#[test]
fn cpu_times() {
    assert_eq!(cpu_time(-1, 5, 5), Duration::ZERO);
    assert_eq!(cpu_time(0, 5, 6), Duration::new(5, 6));
    assert_eq!(cpu_time(0, -5, 6), Duration::new(0, 6));
    // Nanoseconds that don't fit are `u32::MAX`, which carries into seconds.
    assert_eq!(cpu_time(0, 1, -1), Duration::new(1, u32::MAX));
}

#[test]
fn coordinator_bitmap_is_set() {
    let mut map = heph_rt::coordinator::bitmap::AtomicBitMap::new(64);
    assert!(!map.is_set(3));
    map.set(3);
    assert!(map.is_set(3));
}

#[test]
fn fair_runtime_is_the_weighted_sum_of_runs() {
    let start = Instant::now();
    let first = RunStats::new(start, start + Duration::from_millis(2), Poll::Pending);
    let second = RunStats::new(start, start + Duration::from_millis(3), Poll::Pending);
    let mut cfs = Cfs::new(Priority::NORMAL);
    assert_eq!(cfs.fair_runtime(), Duration::ZERO);
    cfs.update(&first);
    let after_first = cfs.fair_runtime();
    assert_eq!(after_first, Duration::from_millis(20));
    cfs.update(&second);
    assert!(cfs.fair_runtime() >= after_first);
    assert_eq!(cfs.fair_runtime(), Duration::from_millis(50));
}
