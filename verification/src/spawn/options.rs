//! Spawn options.

use vstd::prelude::*;

verus! {

/// Priority of a process in the scheduler.
///
/// Processes with a higher priority are scheduled to run more often and
/// sooner. Each priority has a weight: the time a process runs is multiplied
/// by it to get its fair runtime, so a smaller weight is a higher priority.
///
/// The default priority is [`Priority::NORMAL`].
#[allow(non_camel_case_types)]
#[derive(Copy, Clone, Debug, PartialEq, Eq, Structural, Hash)]
pub enum Priority {
    /// Low priority, weight 15.
    LOW,
    /// Normal priority, weight 10, the default.
    NORMAL,
    /// High priority, weight 5.
    HIGH,
}

impl Priority {
    /// The weight by which the runtime of a process is multiplied.
    pub open spec fn spec_weight(self) -> u8 {
        match self {
            Priority::LOW => 15,
            Priority::NORMAL => 10,
            Priority::HIGH => 5,
        }
    }

    /// The weight by which the runtime of a process is multiplied.
    pub fn weight(self) -> (weight: u8)
        ensures
            weight == self.spec_weight(),
    {
        match self {
            Priority::LOW => 15,
            Priority::NORMAL => 10,
            Priority::HIGH => 5,
        }
    }

    /// Returns `true` if `self` is a higher priority than `other`, i.e. has a
    /// smaller weight.
    pub fn is_higher_than(self, other: Priority) -> (higher: bool)
        ensures
            higher == (self.spec_weight() < other.spec_weight()),
    {
        self.weight() < other.weight()
    }
}

impl Default for Priority {
    fn default() -> (priority: Priority)
        ensures
            priority == Priority::NORMAL,
    {
        Priority::NORMAL
    }
}

} // verus!
