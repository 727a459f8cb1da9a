//! Scheduler implementations.

pub mod inactive;
pub mod process;
pub mod shared;
pub mod system;

use vstd::prelude::*;

use crate::setup::scheduler::{Order, ProcessId, Schedule};
use crate::spawn::options::Priority;

use inactive::{valid_pid, Inactive};
use process::Process;

verus! {

/// The thread-local scheduler.
///
/// Processes that are ready to run are kept in `ready`, the others in
/// `inactive`. The next process to run is the ready one that `S` ranks the
/// highest.
pub struct Scheduler<S, P> {
    /// Processes that are ready to run.
    ready: Vec<Process<S, P>>,
    /// Processes that are not ready to run.
    inactive: Inactive<S, P>,
}

impl<S: Schedule, P> Scheduler<S, P> {
    /// The inactive processes are well formed.
    pub closed spec fn wf(&self) -> bool {
        self.inactive.wf()
    }

    /// The processes that are ready to run, in no particular order.
    pub closed spec fn spec_ready(&self) -> Seq<Process<S, P>> {
        self.ready@
    }

    /// The inactive processes, by pid.
    pub closed spec fn spec_inactive(&self) -> Map<usize, Process<S, P>> {
        self.inactive@
    }

    /// Create a new `Scheduler`.
    pub fn new() -> (scheduler: Scheduler<S, P>)
        ensures
            scheduler.wf(),
            scheduler.spec_ready() == Seq::<Process<S, P>>::empty(),
            scheduler.spec_inactive() == Map::<usize, Process<S, P>>::empty(),
    {
        Scheduler { ready: Vec::new(), inactive: Inactive::empty() }
    }

    /// Returns the number of processes ready to run.
    pub fn ready(&self) -> (ready: usize)
        ensures
            ready == self.spec_ready().len(),
    {
        self.ready.len()
    }

    /// Returns the number of inactive processes.
    pub fn inactive(&self) -> (inactive: usize)
        requires
            self.wf(),
        ensures
            inactive == self.spec_inactive().len(),
    {
        self.inactive.len()
    }

    /// Returns `true` if the scheduler has any processes that are ready to run,
    /// `false` otherwise.
    pub fn has_ready_process(&self) -> (has_ready: bool)
        ensures
            has_ready == (self.spec_ready().len() > 0),
    {
        self.ready.len() != 0
    }

    /// Add a new process, with id `pid`, to the scheduler, ready to run.
    pub fn add_new_process(&mut self, pid: ProcessId, priority: Priority, process: P) -> (added: ProcessId)
        ensures
            added == pid,
            final(self).spec_inactive() == old(self).spec_inactive(),
            old(self).wf() ==> final(self).wf(),
            exists|data: Process<S, P>|
                {
                    &&& data.spec_id() == pid
                    &&& data.spec_process() == process
                    &&& data.spec_scheduler_data() == S::spec_new(priority)
                    &&& final(self).spec_ready() == old(self).spec_ready().push(data)
                },
    {
        let process = Process::new(pid, priority, process);
        self.ready.push(process);
        pid
    }

    /// Mark the process, with `pid`, as ready to run.
    ///
    /// # Notes
    ///
    /// Calling this with an invalid or outdated `pid` will be silently ignored.
    pub fn mark_ready(&mut self, pid: ProcessId)
        requires
            old(self).wf(),
        ensures
            final(self).wf(),
            final(self).spec_inactive() == old(self).spec_inactive().remove(pid.0),
            final(self).spec_ready() == if old(self).spec_inactive().contains_key(pid.0) {
                old(self).spec_ready().push(old(self).spec_inactive()[pid.0])
            } else {
                old(self).spec_ready()
            },
    {
        if let Some(process) = self.inactive.remove(pid) {
            self.ready.push(*process);
        }
    }

    /// Returns the next ready process: one with the highest rank.
    pub fn next_process(&mut self) -> (next: Option<Process<S, P>>)
        requires
            old(self).wf(),
        ensures
            final(self).wf(),
            final(self).spec_inactive() == old(self).spec_inactive(),
            match next {
                Some(process) => exists|i: int|
                    {
                        &&& 0 <= i < old(self).spec_ready().len()
                        &&& old(self).spec_ready()[i] == process
                        &&& final(self).spec_ready() == old(self).spec_ready().remove(i)
                        &&& forall|j: int| 0 <= j < old(self).spec_ready().len() ==> #[trigger] old(self).spec_ready()[j].rank()
                            <= process.rank()
                    },
                None => old(self).spec_ready().len() == 0 && final(self).spec_ready() == old(self).spec_ready(),
            },
    {
        if self.ready.len() == 0 {
            return None;
        }
        let mut best: usize = 0;
        let mut i: usize = 1;
        while i < self.ready.len()
            invariant
                self.ready@ == old(self).ready@,
                0 < i <= self.ready@.len(),
                best < i,
                forall|j: int| 0 <= j < i ==> #[trigger] self.ready@[j].rank() <= self.ready@[best as int].rank(),
            decreases self.ready@.len() - i,
        {
            if self.ready[i].order(&self.ready[best]) == Order::Greater {
                best = i;
            }
            i += 1;
        }
        let process = self.ready.remove(best);
        proof {
            let b = best as int;
            assert(old(self).spec_ready()[b] == process);
            assert(self.spec_ready() == old(self).spec_ready().remove(b));
            assert(forall|j: int| 0 <= j < old(self).spec_ready().len() ==> #[trigger] old(self).spec_ready()[j].rank()
                <= process.rank());
        }
        Some(process)
    }

    /// Add back a process that was previously removed via
    /// [`Scheduler::next_process`].
    pub fn add_back_process(&mut self, process: Process<S, P>)
        requires
            old(self).wf(),
            valid_pid(process.key()),
            !old(self).spec_inactive().contains_key(process.key()),
            old(self).spec_inactive().len() < usize::MAX,
        ensures
            final(self).wf(),
            final(self).spec_ready() == old(self).spec_ready(),
            final(self).spec_inactive() == old(self).spec_inactive().insert(process.key(), process),
    {
        self.inactive.add(process);
    }

    /// Mark `process` as complete, removing it from the scheduler: the process
    /// is dropped.
    pub fn complete(&self, process: Process<S, P>) {
        let _completed = process;
    }
}

/// A process that runs and is then marked as ready again is back among the
/// ready processes: taking the `index`th ready process to run
/// ([`Scheduler::next_process`]), adding it back once it is done
/// ([`Scheduler::add_back_process`]) and marking it as ready
/// ([`Scheduler::mark_ready`]) leaves the same processes ready, in some order,
/// and the same ones inactive.
pub proof fn lemma_run_cycle<S: Schedule, P>(
    ready: Seq<Process<S, P>>,
    inactive: Map<usize, Process<S, P>>,
    index: int,
)
    requires
        0 <= index < ready.len(),
        !inactive.contains_key(ready[index].key()),
    ensures
        ({
            let process = ready[index];
            let added_back = inactive.insert(process.key(), process);
            &&& added_back.contains_key(process.key())
            &&& added_back[process.key()] == process
            &&& added_back.remove(process.key()) == inactive
            &&& ready.remove(index).push(added_back[process.key()]).to_multiset() == ready.to_multiset()
        }),
{
    let process = ready[index];
    let added_back = inactive.insert(process.key(), process);
    assert(added_back.remove(process.key()) =~= inactive);
    assert(ready.to_multiset().count(process) > 0) by {
        vstd::seq_lib::to_multiset_contains(ready, process);
    }
    assert(ready.remove(index).to_multiset() == ready.to_multiset().remove(process)) by {
        vstd::seq_lib::to_multiset_remove(ready, index);
    }
    assert(ready.remove(index).push(process).to_multiset() == ready.remove(index).to_multiset().insert(process)) by {
        vstd::seq_lib::to_multiset_build(ready.remove(index), process);
    }
    assert(ready.remove(index).push(process).to_multiset() =~= ready.to_multiset());
}

} // verus!
