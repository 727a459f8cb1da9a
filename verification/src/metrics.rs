//! Runtime metrics.

use std::time::{Duration, Instant};

use vstd::prelude::*;

use crate::time::{duration_new, duration_of, duration_since, read_clock, time_between};

verus! {

/// Shared metrics.
///
/// This includes metrics about thread-safe actors and anything that is shared
/// between worker threads.
#[derive(Debug)]
pub struct SharedMetrics {
    /// Time when the runtime started.
    pub start: Instant,
    /// Number of shared processes that are ready to run.
    pub scheduler_ready: usize,
    /// Number of shared processes that are inactive.
    pub scheduler_inactive: usize,
    /// Number of shared timers.
    pub timers: usize,
    /// Time until the next shared timer expires, if any.
    pub timers_next: Option<Duration>,
    /// Number of events generated by running thread-safe actors.
    pub trace_counter: usize,
}

impl SharedMetrics {
    /// Duration since the starting of the runtime: the time from `start` to
    /// the current time, which the clock decides.
    pub fn uptime(&self) -> (uptime: Duration)
        ensures
            exists|now: Instant| uptime == time_between(now, self.start),
            exists|now: Instant| #[trigger] call_ensures(read_clock, (), now) && uptime == time_between(
                now,
                self.start,
            ),
    {
        let now = read_clock();
        let uptime = duration_since(now, self.start);
        assert(uptime == time_between(now, self.start));
        uptime
    }

    /// Number of shared processes that are ready to run.
    pub fn scheduler_ready(&self) -> (ready: usize)
        ensures
            ready == self.scheduler_ready,
    {
        self.scheduler_ready
    }

    /// Number of shared processes that are inactive.
    pub fn scheduler_inactive(&self) -> (inactive: usize)
        ensures
            inactive == self.scheduler_inactive,
    {
        self.scheduler_inactive
    }

    /// Number of shared timers.
    pub fn timers(&self) -> (timers: usize)
        ensures
            timers == self.timers,
    {
        self.timers
    }

    /// Next shared timer to expire, if any.
    pub fn timers_next(&self) -> (next: Option<Duration>)
        ensures
            next == self.timers_next,
    {
        self.timers_next
    }

    /// Number of events generated by running thread-safe actors.
    pub fn trace_counter(&self) -> (counter: usize)
        ensures
            counter == self.trace_counter,
    {
        self.trace_counter
    }
}

/// The seconds of a CPU time that `clock_gettime(2)` reported: none where
/// the count is negative.
pub open spec fn cpu_seconds(tv_sec: i64) -> int {
    if tv_sec >= 0 {
        tv_sec as int
    } else {
        0
    }
}

/// The nanoseconds of a CPU time that `clock_gettime(2)` reported: as many as
/// fit in a `u32`, `u32::MAX` where they don't.
pub open spec fn cpu_nanos(tv_nsec: i64) -> int {
    if 0 <= tv_nsec <= u32::MAX {
        tv_nsec as int
    } else {
        u32::MAX as int
    }
}

/// The CPU time that `clock_gettime(2)` reported, as `Duration::new` makes it
/// of the reported seconds and nanoseconds: a whole second of nanoseconds
/// carries into the seconds. Zero where the call failed (`result` is -1).
pub fn cpu_time(result: i32, tv_sec: i64, tv_nsec: i64) -> (time: Duration)
    requires
        result != -1 ==> cpu_seconds(tv_sec) + cpu_nanos(tv_nsec) / 1_000_000_000 <= u64::MAX,
    ensures
        result == -1 ==> time == duration_of(0, 0),
        result != -1 ==> time == duration_of(
            (cpu_seconds(tv_sec) + cpu_nanos(tv_nsec) / 1_000_000_000) as u64,
            (cpu_nanos(tv_nsec) % 1_000_000_000) as u32,
        ),
{
    if result == -1 {
        return duration_new(0, 0);
    }
    let secs: u64 = if tv_sec >= 0 {
        tv_sec as u64
    } else {
        0
    };
    let nanos: u32 = if tv_nsec >= 0 && tv_nsec <= u32::MAX as i64 {
        tv_nsec as u32
    } else {
        u32::MAX
    };
    duration_new(secs + (nanos / 1_000_000_000) as u64, nanos % 1_000_000_000)
}

/// The uptime is measured against the clock: it is the time from the start of
/// the runtime to a reading of the clock taken during the call, not a value
/// that ignores the clock.
pub proof fn lemma_uptime_reads_the_clock(metrics: SharedMetrics, uptime: Duration)
    requires
        call_ensures(SharedMetrics::uptime, (&metrics,), uptime),
    ensures
        exists|now: Instant| #[trigger]
            call_ensures(read_clock, (), now) && uptime == time_between(now, metrics.start),
{
}

} // verus!
