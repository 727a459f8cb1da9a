//! Thread-safe version of the scheduler.

pub mod inactive;
pub mod runqueue;

use vstd::prelude::*;

use crate::scheduler::process::Process;
use crate::setup::scheduler::{Cfs, ProcessId};
use crate::spawn::options::Priority;

use inactive::{ok_pid, valid_pid, Inactive};
use runqueue::{capped_len, inserted_by_rank, RunQueue};

verus! {

/// Data of a process that the thread-safe scheduler holds.
pub type ProcessData<P> = Process<Cfs, P>;

/// The thread-safe scheduler, responsible for scheduling processes that can run
/// one any of the worker threads, e.g. thread-safe actors.
///
/// There are two components to the scheduler:
///
/// * [`RunQueue`]: holds the processes that are ready to run.
/// * [`Inactive`]: holds the inactive processes.
///
/// Processes are inactive (in [`Inactive`]), ready (in the [`RunQueue`]),
/// running (removed via [`Scheduler::remove`]) or stopped.
///
/// Marking a process as ready to run moves it from [`Inactive`] to the
/// [`RunQueue`]. If the process is not in [`Inactive`], because it's running,
/// a marker is placed in its place. This marker ensures that the process is
/// moved to the run queue the next time its added back to the scheduler.
pub struct Scheduler<P> {
    /// Processes that are ready to run.
    ready: RunQueue<Cfs, P>,
    /// Inactive processes that are not ready to run.
    inactive: Inactive<Cfs, P>,
}

impl<P> Scheduler<P> {
    /// Both parts of the scheduler are well formed.
    pub closed spec fn wf(&self) -> bool {
        self.ready.wf() && self.inactive.wf()
    }

    /// The processes that are ready to run, in the order in which they run.
    pub closed spec fn spec_ready(&self) -> Seq<ProcessData<P>> {
        self.ready@
    }

    /// The inactive processes, by pid.
    pub closed spec fn spec_inactive(&self) -> Map<usize, ProcessData<P>> {
        self.inactive@.0
    }

    /// The pids of processes marked as ready to run while they were running.
    pub closed spec fn spec_marked(&self) -> Set<usize> {
        self.inactive@.1
    }

    /// Create a new `Scheduler`.
    pub fn new() -> (scheduler: Scheduler<P>)
        ensures
            scheduler.wf(),
            scheduler.spec_ready() == Seq::<ProcessData<P>>::empty(),
            scheduler.spec_inactive() == Map::<usize, ProcessData<P>>::empty(),
            scheduler.spec_marked() == Set::<usize>::empty(),
    {
        Scheduler { ready: RunQueue::empty(), inactive: Inactive::empty() }
    }

    /// Returns the number of processes ready to run, or `usize::MAX` where
    /// there are more.
    pub fn ready(&self) -> (ready: usize)
        ensures
            ready == capped_len(self.spec_ready()),
    {
        self.ready.len()
    }

    /// Returns the number of inactive processes.
    pub fn inactive(&self) -> (inactive: usize)
        requires
            self.wf(),
        ensures
            inactive == self.spec_inactive().len(),
    {
        self.inactive.len()
    }

    /// Returns `true` if the scheduler has any processes (in any state),
    /// `false` otherwise.
    pub fn has_process(&self) -> (has_process: bool)
        requires
            self.wf(),
        ensures
            has_process == (self.spec_inactive().len() > 0 || self.spec_ready().len() > 0),
    {
        let has_inactive = self.inactive.has_process();
        has_inactive || self.has_ready_process()
    }

    /// Returns `true` if the scheduler has any processes that are ready to run,
    /// `false` otherwise.
    pub fn has_ready_process(&self) -> (has_ready: bool)
        ensures
            has_ready == (self.spec_ready().len() > 0),
    {
        self.ready.has_process()
    }

    /// Add a new process, with id `pid`, to the scheduler, ready to run.
    pub fn add_new_process(&mut self, pid: ProcessId, priority: Priority, process: P) -> (added: ProcessId)
        requires
            old(self).wf(),
        ensures
            final(self).wf(),
            added == pid,
            exists|data: ProcessData<P>|
                {
                    &&& data.spec_id() == pid
                    &&& data.spec_process() == process
                    &&& data.spec_scheduler_data().spec_priority() == priority
                    &&& data.spec_scheduler_data().spec_fair_runtime() == 0
                    &&& inserted_by_rank(final(self).spec_ready(), old(self).spec_ready(), data)
                },
            final(self).spec_inactive() == old(self).spec_inactive(),
            final(self).spec_marked() == old(self).spec_marked(),
    {
        let process = Process::new(pid, priority, process);
        let ghost data = process;
        self.ready.add(Box::new(process));
        proof {
            Cfs::lemma_new(priority);
        }
        pid
    }

    /// Mark the process, with `pid`, as ready to run.
    ///
    /// If the process is inactive it's moved to the run queue, otherwise it's
    /// marked and [`Scheduler::add_back_process`] will move it to the run queue
    /// once its done running.
    ///
    /// Calling this with an invalid pid, one whose skipped bits are not zero,
    /// is silently ignored.
    pub fn mark_ready(&mut self, pid: ProcessId)
        requires
            old(self).wf(),
        ensures
            final(self).wf(),
            marks_ready(*old(self), pid.0, *final(self)),
    {
        if ok_pid(pid) {
            self.inactive.mark_ready(pid, &mut self.ready);
        }
    }

    /// Attempts to remove a process: the next one to run, if any.
    pub fn remove(&mut self) -> (removed: Option<Box<ProcessData<P>>>)
        requires
            old(self).wf(),
        ensures
            final(self).wf(),
            final(self).spec_inactive() == old(self).spec_inactive(),
            final(self).spec_marked() == old(self).spec_marked(),
            match removed {
                Some(process) => {
                    &&& old(self).spec_ready().len() > 0
                    &&& *process == old(self).spec_ready()[0]
                    &&& final(self).spec_ready() == old(self).spec_ready().drop_first()
                },
                None => old(self).spec_ready().len() == 0 && final(self).spec_ready().len() == 0,
            },
    {
        self.ready.remove()
    }

    /// Add back a process that was previously removed via
    /// [`Scheduler::remove`] and add it to the inactive list, or to the run
    /// queue if it was marked as ready while it was running.
    pub fn add_back_process(&mut self, process: ProcessData<P>)
        requires
            old(self).wf(),
            valid_pid(process.key()),
            !old(self).spec_inactive().contains_key(process.key()),
            old(self).spec_inactive().len() < usize::MAX,
        ensures
            final(self).wf(),
            adds_back(*old(self), process, *final(self)),
    {
        self.inactive.add(process, &mut self.ready);
    }

    /// Mark `process` as complete, removing it from the scheduler.
    pub fn complete(&mut self, process: ProcessData<P>)
        requires
            old(self).wf(),
        ensures
            final(self).wf(),
            final(self).spec_ready() == old(self).spec_ready(),
            final(self).spec_inactive() == old(self).spec_inactive(),
            final(self).spec_marked() == old(self).spec_marked().remove(process.key()),
    {
        self.inactive.complete(process);
    }
}

/// `after` is `before` with the process with `pid` marked as ready to run: an
/// inactive process moves to the run queue, by its rank; one that is not
/// inactive, because it is running, gets a marker. An invalid pid changes
/// nothing.
pub open spec fn marks_ready<P>(before: Scheduler<P>, pid: usize, after: Scheduler<P>) -> bool {
    if !valid_pid(pid) {
        after == before
    } else if before.spec_inactive().contains_key(pid) {
        &&& after.spec_inactive() == before.spec_inactive().remove(pid)
        &&& after.spec_marked() == before.spec_marked()
        &&& inserted_by_rank(after.spec_ready(), before.spec_ready(), before.spec_inactive()[pid])
    } else {
        &&& after.spec_inactive() == before.spec_inactive()
        &&& after.spec_marked() == before.spec_marked().insert(pid)
        &&& after.spec_ready() == before.spec_ready()
    }
}

/// `after` is `before` with `process`, done running, added back: to the run
/// queue, by its rank, if it was marked as ready while it ran, which removes
/// the marker, and to the inactive processes otherwise.
pub open spec fn adds_back<P>(before: Scheduler<P>, process: ProcessData<P>, after: Scheduler<P>) -> bool {
    if before.spec_marked().contains(process.key()) {
        &&& after.spec_inactive() == before.spec_inactive()
        &&& after.spec_marked() == before.spec_marked().remove(process.key())
        &&& inserted_by_rank(after.spec_ready(), before.spec_ready(), process)
    } else {
        &&& after.spec_inactive() == before.spec_inactive().insert(process.key(), process)
        &&& after.spec_marked() == before.spec_marked()
        &&& after.spec_ready() == before.spec_ready()
    }
}

/// No wake-up is lost: a running process that is marked as ready before it is
/// added back ends up in the run queue just as one that is marked as ready
/// after it was added back. Either way the process is inserted in the run
/// queue by its rank, and the inactive processes and markers are as they were
/// before.
pub proof fn lemma_wake_while_running<P>(
    start: Scheduler<P>,
    process: ProcessData<P>,
    marked: Scheduler<P>,
    woken: Scheduler<P>,
    added: Scheduler<P>,
    woken_after: Scheduler<P>,
)
    requires
        valid_pid(process.key()),
        !start.spec_inactive().contains_key(process.key()),
        !start.spec_marked().contains(process.key()),
        marks_ready(start, process.key(), marked),
        adds_back(marked, process, woken),
        adds_back(start, process, added),
        marks_ready(added, process.key(), woken_after),
    ensures
        woken.spec_inactive() == start.spec_inactive(),
        woken.spec_marked() == start.spec_marked(),
        inserted_by_rank(woken.spec_ready(), start.spec_ready(), process),
        woken_after.spec_inactive() == start.spec_inactive(),
        woken_after.spec_marked() == start.spec_marked(),
        inserted_by_rank(woken_after.spec_ready(), start.spec_ready(), process),
{
    assert(marked.spec_marked().contains(process.key()));
    assert(woken.spec_marked() =~= start.spec_marked());
    assert(added.spec_inactive().contains_key(process.key()));
    assert(woken_after.spec_inactive() =~= start.spec_inactive());
}

} // verus!
