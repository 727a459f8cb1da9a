//! The order of process ids: that of the numbers they hold.

use std::cmp::Ordering;

use vstd::prelude::*;
use vstd::std_specs::cmp::PartialOrdSpec;

use super::scheduler::ProcessId;

verus! {

/// Process ids are ordered by the numbers they hold, as the derived `Ord` does.
impl PartialOrd for ProcessId {
    fn partial_cmp(&self, other: &Self) -> (order: Option<Ordering>) {
        if self.0 < other.0 {
            Some(Ordering::Less)
        } else if self.0 == other.0 {
            Some(Ordering::Equal)
        } else {
            Some(Ordering::Greater)
        }
    }
}

impl vstd::std_specs::cmp::PartialOrdSpecImpl for ProcessId {
    open spec fn obeys_partial_cmp_spec() -> bool {
        true
    }

    open spec fn partial_cmp_spec(&self, other: &Self) -> Option<Ordering> {
        if self.0 < other.0 {
            Some(Ordering::Less)
        } else if self.0 == other.0 {
            Some(Ordering::Equal)
        } else {
            Some(Ordering::Greater)
        }
    }
}

/// Two process ids compare as the numbers they were made from: less, equal or
/// greater exactly when the numbers are.
pub proof fn lemma_process_id_order(a: usize, b: usize)
    ensures
        ProcessId(a).partial_cmp_spec(&ProcessId(b)) == Some(Ordering::Less) <==> a < b,
        ProcessId(a).partial_cmp_spec(&ProcessId(b)) == Some(Ordering::Equal) <==> a == b,
        ProcessId(a).partial_cmp_spec(&ProcessId(b)) == Some(Ordering::Greater) <==> a > b,
        (ProcessId(a) == ProcessId(b)) <==> a == b,
{
}

} // verus!
