//! Process container.

use vstd::prelude::*;

use crate::setup::scheduler::{order_of, Order, ProcessId, Schedule};
use crate::spawn::options::Priority;

verus! {

/// Process container.
///
/// Holds the process itself and all data needed to properly schedule and run
/// it.
///
/// # Notes
///
/// `PartialEq` and `Eq` are implemented based on the id of the process
/// (`ProcessId`). The order in which processes run is decided by `S`, see
/// [`Process::order`].
#[derive(Debug)]
pub struct Process<S, P> {
    id: ProcessId,
    scheduler_data: S,
    process: P,
}

impl<S, P> Process<S, P> {
    /// The process identifier.
    pub closed spec fn spec_id(&self) -> ProcessId {
        self.id
    }

    /// The scheduling data of the process.
    pub closed spec fn spec_scheduler_data(&self) -> S {
        self.scheduler_data
    }

    /// The process itself.
    pub closed spec fn spec_process(&self) -> P {
        self.process
    }

    /// The pid of the process as a number.
    pub open spec fn key(&self) -> usize {
        self.spec_id().0
    }

    /// Returns the process identifier, or pid for short.
    pub fn id(&self) -> (pid: ProcessId)
        ensures
            pid == self.spec_id(),
    {
        self.id
    }

    /// Returns the scheduling data of the process.
    pub fn scheduler_data(&self) -> (data: &S)
        ensures
            *data == self.spec_scheduler_data(),
    {
        &self.scheduler_data
    }

    /// Returns the process itself.
    pub fn process(&self) -> (process: &P)
        ensures
            *process == self.spec_process(),
    {
        &self.process
    }

    /// Returns the process itself, for running it.
    pub fn process_mut(&mut self) -> (process: &mut P)
        ensures
            *process == old(self).spec_process(),
            final(self).spec_id() == old(self).spec_id(),
            final(self).spec_scheduler_data() == old(self).spec_scheduler_data(),
            final(self).spec_process() == *final(process),
    {
        &mut self.process
    }
}

impl<S: Schedule, P> Process<S, P> {
    /// Create a new process container.
    pub fn new(id: ProcessId, priority: Priority, process: P) -> (container: Process<S, P>)
        ensures
            container.spec_id() == id,
            container.spec_scheduler_data() == S::spec_new(priority),
            container.spec_process() == process,
    {
        Process { id, scheduler_data: S::new(priority), process }
    }

    /// The rank of the process, higher ranks run first.
    pub open spec fn rank(&self) -> int {
        self.spec_scheduler_data().rank()
    }

    /// Whether the process' scheduling data can take `stats` into account.
    pub open spec fn can_update(&self, stats: &crate::setup::scheduler::RunStats) -> bool {
        self.spec_scheduler_data().can_update(stats)
    }

    /// Update the scheduling data with the statistics of the latest run.
    pub fn update(&mut self, stats: &crate::setup::scheduler::RunStats)
        requires
            old(self).can_update(stats),
        ensures
            final(self).spec_id() == old(self).spec_id(),
            final(self).spec_process() == old(self).spec_process(),
            final(self).spec_scheduler_data() == old(self).spec_scheduler_data().spec_update(stats),
    {
        self.scheduler_data.update(stats);
    }

    /// Determine if `self` (`Greater`) or `other` (`Less`) should run first.
    pub fn order(&self, other: &Self) -> (order: Order)
        ensures
            order == order_of(self.rank(), other.rank()),
    {
        S::order(&self.scheduler_data, &other.scheduler_data)
    }
}

impl<S, P: crate::setup::scheduler::Process> Process<S, P> {
    /// Returns the name of the process.
    pub fn name(&self) -> &'static str {
        self.process.name()
    }
}

impl<S, P> PartialEq for Process<S, P> {
    fn eq(&self, other: &Self) -> (equal: bool) {
        self.id.0 == other.id.0
    }
}

impl<S, P> vstd::std_specs::cmp::PartialEqSpecImpl for Process<S, P> {
    open spec fn obeys_eq_spec() -> bool {
        true
    }

    open spec fn eq_spec(&self, other: &Self) -> bool {
        self.key() == other.key()
    }
}

impl<S, P> Eq for Process<S, P> {}

} // verus!
