//! Scheduler interface.
//!
//! The scheduler keeps track of which processes are ready to run and which
//! are waiting for an event, and decides which process runs next. The order in
//! which processes run is decided by a [`Schedule`] implementation, by default
//! the [`Cfs`].

use std::task::Poll;
use std::time::{Duration, Instant};

use vstd::prelude::*;

use crate::spawn::options::Priority;
use crate::text::{decimal, push_decimal};
use crate::time::{
    duration_as_nanos, duration_from_nanos, duration_of, duration_since, time_between, MAX_DURATION_NANOS,
};

verus! {

/// Process id, or pid for short, is an identifier for a process in the
/// scheduler.
///
/// This can only be created by one of the schedulers and should be seen as an
/// opaque type otherwise. The id must be unique within the scheduler while the
/// process is alive (after it's dropped the id may be reused).
#[derive(Copy, Clone, Debug, PartialEq, Eq, Structural, Hash, Ord)]
pub struct ProcessId(pub usize);

impl ProcessId {
    /// Create a new process id.
    pub fn new(data: usize) -> (pid: ProcessId)
        ensures
            pid.0 == data,
    {
        ProcessId(data)
    }

    /// Returns the data passed to [`ProcessId::new`].
    pub fn data(self) -> (data: usize)
        ensures
            data == self.0,
    {
        self.0
    }

    /// The pid in decimal.
    pub fn to_string(&self) -> (text: String)
        ensures
            text@ == decimal(self.0 as nat),
    {
        let mut text = String::new();
        push_decimal(&mut text, self.0);
        proof {
            assert(text@ =~= decimal(self.0 as nat));
        }
        text
    }
}

/// Which of two processes should run first, see [`Schedule::order`].
#[derive(Copy, Clone, Debug, PartialEq, Eq, Structural)]
pub enum Order {
    /// The left process runs after the right one.
    Less,
    /// Neither process goes first.
    Equal,
    /// The left process runs before the right one.
    Greater,
}

/// The order of two ranks: the higher rank is the greater.
pub open spec fn order_of(lhs: int, rhs: int) -> Order {
    if lhs < rhs {
        Order::Less
    } else if lhs == rhs {
        Order::Equal
    } else {
        Order::Greater
    }
}

/// Statistics about the run of a process.
#[derive(Copy, Clone, Debug)]
pub struct RunStats {
    start: Instant,
    end: Instant,
    elapsed: u128,
    result: Poll<()>,
}

impl RunStats {
    /// When the process started running.
    pub closed spec fn spec_start(&self) -> Instant {
        self.start
    }

    /// When the process finished running.
    pub closed spec fn spec_end(&self) -> Instant {
        self.end
    }

    /// How long the process ran for, in nanoseconds.
    pub closed spec fn spec_elapsed(&self) -> nat {
        self.elapsed as nat
    }

    /// The result of the run.
    pub closed spec fn spec_result(&self) -> Poll<()> {
        self.result
    }

    /// Create new run statistics for a run from `start` to `end`.
    pub fn new(start: Instant, end: Instant, result: Poll<()>) -> (stats: RunStats)
        ensures
            stats.spec_start() == start,
            stats.spec_end() == end,
            stats.spec_result() == result,
    {
        let elapsed = duration_as_nanos(duration_since(end, start));
        RunStats { start, end, elapsed, result }
    }

    /// When the processes started running.
    pub fn start(&self) -> (start: Instant)
        ensures
            start == self.spec_start(),
    {
        self.start
    }

    /// When the processes finished running.
    pub fn end(&self) -> (end: Instant)
        ensures
            end == self.spec_end(),
    {
        self.end
    }

    /// How long the process ran for: the time from its start to its end.
    pub fn elapsed(&self) -> (elapsed: Duration)
        ensures
            elapsed == time_between(self.spec_end(), self.spec_start()),
            elapsed == duration_of(
                (self.spec_elapsed() / 1_000_000_000) as u64,
                (self.spec_elapsed() % 1_000_000_000) as u32,
            ),
    {
        proof {
            use_type_invariant(self);
        }
        duration_from_nanos(self.elapsed)
    }

    /// The result of the process run.
    pub fn result(&self) -> (result: Poll<()>)
        ensures
            result == self.spec_result(),
    {
        self.result
    }

    /// The elapsed time of a run fits in a `Duration` and is the time from
    /// its start to its end.
    #[verifier::type_invariant]
    spec fn elapsed_fits(self) -> bool {
        &&& self.elapsed <= MAX_DURATION_NANOS
        &&& duration_of((self.elapsed / 1_000_000_000) as u64, (self.elapsed % 1_000_000_000) as u32)
            == time_between(self.end, self.start)
    }
}

/// A process that a scheduler runs: it is polled until it is done, and has a
/// name for the logs.
pub trait Process {
    /// Return the name of this process.
    fn name(&self) -> &'static str;
}

/// Scheduling implementation: the per process data that decides the order in
/// which processes run.
pub trait Schedule: Sized {
    /// The rank of a process: of two processes the one with the higher rank
    /// runs first.
    spec fn rank(&self) -> int;

    /// Whether the data can take the run `stats` into account, i.e. the
    /// result still fits.
    spec fn can_update(&self, stats: &RunStats) -> bool;

    /// The process metadata that [`Schedule::new`] creates.
    spec fn spec_new(priority: Priority) -> Self;

    /// Create new process metadata.
    fn new(priority: Priority) -> (data: Self)
        ensures
            data == Self::spec_new(priority),
    ;

    /// The process metadata after taking the run `stats` into account.
    spec fn spec_update(&self, stats: &RunStats) -> Self;

    /// Update the process data with the latest run information.
    fn update(&mut self, stats: &RunStats)
        requires
            old(self).can_update(stats),
        ensures
            *final(self) == old(self).spec_update(stats),
    ;

    /// Determine if the `lhs` or `rhs` should run first: `Greater` if `lhs`
    /// runs first, `Less` if `rhs` does.
    fn order(lhs: &Self, rhs: &Self) -> (order: Order)
        ensures
            order == order_of(lhs.rank(), rhs.rank()),
    ;
}

/// Completely Fair Scheduler (CFS) algorithm.
///
/// A process that has run for less time runs first; of two processes that ran
/// for as long, the one with the higher priority. The time a process ran is
/// weighted by its priority, see [`Priority`]. See
/// <https://en.wikipedia.org/wiki/Completely_Fair_Scheduler> for more
/// information about CFS.
#[derive(Debug)]
pub struct Cfs {
    priority: Priority,
    /// Fair runtime of the process, which is `actual runtime * priority`, in
    /// nanoseconds.
    fair_runtime: u128,
}

impl Cfs {
    /// The priority of the process.
    pub closed spec fn spec_priority(&self) -> Priority {
        self.priority
    }

    /// The fair runtime of the process in nanoseconds.
    pub closed spec fn spec_fair_runtime(&self) -> nat {
        self.fair_runtime as nat
    }

    /// New metadata has the given priority and has not run yet.
    pub proof fn lemma_new(priority: Priority)
        ensures
            Cfs::spec_new(priority).spec_priority() == priority,
            Cfs::spec_new(priority).spec_fair_runtime() == 0,
    {
    }

    /// The fair runtime always fits in a `Duration`.
    #[verifier::type_invariant]
    spec fn fair_runtime_fits(self) -> bool {
        self.fair_runtime <= MAX_DURATION_NANOS
    }

    /// Returns the calculated fair runtime.
    pub fn fair_runtime(&mut self) -> (fair_runtime: Duration)
        ensures
            *final(self) == *old(self),
            fair_runtime == duration_of(
                (old(self).spec_fair_runtime() / 1_000_000_000) as u64,
                (old(self).spec_fair_runtime() % 1_000_000_000) as u32,
            ),
    {
        proof {
            use_type_invariant(&*self);
        }
        duration_from_nanos(self.fair_runtime)
    }
}

impl Schedule for Cfs {
    /// Less fair runtime ranks higher; of equal fair runtimes the smaller
    /// weight, i.e. the higher priority.
    open spec fn rank(&self) -> int {
        -(self.spec_fair_runtime() * 256 + self.spec_priority().spec_weight())
    }

    open spec fn can_update(&self, stats: &RunStats) -> bool {
        self.spec_fair_runtime() + stats.spec_elapsed() * self.spec_priority().spec_weight()
            <= MAX_DURATION_NANOS
    }

    closed spec fn spec_new(priority: Priority) -> Cfs {
        Cfs { priority, fair_runtime: 0 }
    }

    closed spec fn spec_update(&self, stats: &RunStats) -> Cfs {
        Cfs {
            priority: self.priority,
            fair_runtime: (self.fair_runtime + stats.spec_elapsed() * self.priority.spec_weight()) as u128,
        }
    }

    fn new(priority: Priority) -> (cfs: Cfs) {
        Cfs { priority, fair_runtime: 0 }
    }

    fn update(&mut self, stats: &RunStats)
        ensures
            final(self).spec_priority() == old(self).spec_priority(),
            final(self).spec_fair_runtime() == old(self).spec_fair_runtime() + stats.spec_elapsed()
                * old(self).spec_priority().spec_weight(),
    {
        proof {
            use_type_invariant(stats);
        }
        let weight = self.priority.weight() as u128;
        assert(stats.spec_elapsed() * weight <= MAX_DURATION_NANOS);
        self.fair_runtime = self.fair_runtime + stats.elapsed * weight;
    }

    fn order(lhs: &Self, rhs: &Self) -> (order: Order) {
        if rhs.fair_runtime < lhs.fair_runtime {
            Order::Less
        } else if rhs.fair_runtime > lhs.fair_runtime {
            Order::Greater
        } else if lhs.priority.is_higher_than(rhs.priority) {
            Order::Greater
        } else if rhs.priority.is_higher_than(lhs.priority) {
            Order::Less
        } else {
            Order::Equal
        }
    }
}

/// The total time, in nanoseconds, that the runs `stats` took.
pub open spec fn total_elapsed(stats: Seq<RunStats>) -> nat
    decreases stats.len(),
{
    if stats.len() == 0 {
        0
    } else {
        total_elapsed(stats.drop_last()) + stats.last().spec_elapsed()
    }
}

/// The scheduling data of a process with `priority` after the runs `stats`,
/// one update each.
pub open spec fn cfs_after(priority: Priority, stats: Seq<RunStats>) -> Cfs
    decreases stats.len(),
{
    if stats.len() == 0 {
        Cfs::spec_new(priority)
    } else {
        cfs_after(priority, stats.drop_last()).spec_update(&stats.last())
    }
}

/// The fair runtime of a process is the time of all its runs, each weighted by
/// its priority: new data starts at zero, and every update adds the time of
/// the run times the weight, so the fair runtime never goes down. Every
/// update along the way fits, as long as the whole sum fits in a `Duration`.
pub proof fn lemma_fair_runtime_sum(priority: Priority, stats: Seq<RunStats>)
    requires
        total_elapsed(stats) * priority.spec_weight() <= MAX_DURATION_NANOS,
    ensures
        cfs_after(priority, stats).spec_priority() == priority,
        cfs_after(priority, stats).spec_fair_runtime() == total_elapsed(stats) * priority.spec_weight(),
        stats.len() > 0 ==> cfs_after(priority, stats.drop_last()).can_update(&stats.last()),
        stats.len() > 0 ==> cfs_after(priority, stats.drop_last()).spec_fair_runtime() <= cfs_after(
            priority,
            stats,
        ).spec_fair_runtime(),
    decreases stats.len(),
{
    if stats.len() > 0 {
        let rest = stats.drop_last();
        let w = priority.spec_weight() as int;
        let a = total_elapsed(rest) as int;
        let b = stats.last().spec_elapsed() as int;
        assert((a + b) * w == a * w + b * w) by (nonlinear_arith);
        assert(0 <= a * w <= (a + b) * w) by (nonlinear_arith)
            requires
                0 <= a,
                0 <= b,
                0 <= w,
        ;
        assert(0 <= b * w) by (nonlinear_arith)
            requires
                0 <= b,
                0 <= w,
        ;
        lemma_fair_runtime_sum(priority, rest);
        let before = cfs_after(priority, rest);
        assert(before.spec_fair_runtime() + b * w <= MAX_DURATION_NANOS);
        assert(before.spec_priority() == priority);
        assert(cfs_after(priority, stats) == before.spec_update(&stats.last()));
    } else {
        let w = priority.spec_weight() as int;
        assert(0 * w == 0);
    }
}

} // verus!
