//! Scheduler for system processes: a fixed set of futures, each with a bit in
//! a bitmap that its waker sets.

use vstd::prelude::*;

use crate::bitmap::{claims, AtomicBitMap};
use crate::bits::word_bits;

verus! {

/// Scheduler for system processes: decides which of the futures to poll.
/// Polling them is up to the caller, who reports the ones that are done.
pub struct SystemScheduler {
    /// Bitmap indicating which futures are ready to run.
    ready: AtomicBitMap,
    /// Which futures are done, and never polled again.
    done: Vec<bool>,
}

impl SystemScheduler {
    /// Which futures are woken.
    pub closed spec fn spec_ready(&self) -> Seq<bool> {
        self.ready@
    }

    /// Which futures are done.
    pub closed spec fn spec_done(&self) -> Seq<bool> {
        self.done@
    }

    /// Whether the future at `index` is one to poll: it exists and is not
    /// done.
    pub open spec fn runnable(&self, index: int) -> bool {
        0 <= index < self.spec_done().len() && !self.spec_done()[index]
    }

    /// A new scheduler for `futures` futures, none of them woken or done.
    pub fn new(futures: usize) -> (scheduler: SystemScheduler)
        requires
            futures + word_bits() <= usize::MAX,
        ensures
            scheduler.spec_done() == Seq::new(futures as nat, |i: int| false),
            scheduler.spec_ready().len() >= futures,
            forall|i: int| 0 <= i < scheduler.spec_ready().len() ==> !#[trigger] scheduler.spec_ready()[i],
    {
        let ready = AtomicBitMap::new(futures);
        let mut done: Vec<bool> = Vec::new();
        while done.len() < futures
            invariant
                done@.len() <= futures,
                forall|i: int| 0 <= i < done@.len() ==> !#[trigger] done@[i],
            decreases futures - done@.len(),
        {
            done.push(false);
        }
        assert(done@ =~= Seq::new(futures as nat, |i: int| false));
        SystemScheduler { ready, done }
    }

    /// Wakes the future at `index`, as its waker does.
    pub fn wake(&mut self, index: usize)
        ensures
            final(self).spec_done() == old(self).spec_done(),
            final(self).spec_ready() == if index < old(self).spec_ready().len() {
                old(self).spec_ready().update(index as int, true)
            } else {
                old(self).spec_ready()
            },
    {
        self.ready.set(index);
    }

    /// The next woken future to poll, if any: the lowest woken one that is not
    /// done. The woken bits up to and including it are cleared.
    pub fn next_to_run(&mut self) -> (index: Option<usize>)
        ensures
            final(self).spec_done() == old(self).spec_done(),
            final(self).spec_ready().len() == old(self).spec_ready().len(),
            match index {
                Some(i) => {
                    &&& old(self).runnable(i as int)
                    &&& old(self).spec_ready()[i as int]
                    &&& forall|j: int| 0 <= j < i && #[trigger] old(self).spec_ready()[j] ==> !old(self).runnable(j)
                    &&& forall|j: int| 0 <= j < old(self).spec_ready().len() ==> #[trigger] final(self).spec_ready()[j]
                        == (old(self).spec_ready()[j] && j > i)
                },
                None => {
                    &&& forall|j: int| 0 <= j < old(self).spec_ready().len() && #[trigger] old(self).spec_ready()[j]
                        ==> !old(self).runnable(j)
                    &&& forall|j: int| 0 <= j < old(self).spec_ready().len() ==> !#[trigger] final(self).spec_ready()[j]
                },
            },
    {
        let ghost start = self.ready@;
        let ghost mut frontier: int = 0;
        loop
            invariant
                self.done@ == old(self).done@,
                start == old(self).ready@,
                self.ready@.len() == start.len(),
                0 <= frontier <= start.len(),
                forall|j: int| 0 <= j < frontier ==> !#[trigger] self.ready@[j],
                forall|j: int| frontier <= j < start.len() ==> #[trigger] self.ready@[j] == start[j],
                forall|j: int| 0 <= j < frontier && #[trigger] start[j] ==> !old(self).runnable(j),
            decreases start.len() - frontier,
        {
            let ghost before = self.ready@;
            let next = self.ready.next_set();
            match next {
                None => {
                    assert forall|j: int| 0 <= j < start.len() && #[trigger] start[j] implies !old(
                        self,
                    ).runnable(j) by {
                        if j >= frontier {
                            assert(before[j]);
                        }
                    }
                    return None;
                },
                Some(idx) => {
                    assert(idx >= frontier) by {
                        if idx < frontier {
                            assert(!before[idx as int]);
                        }
                    }
                    assert(start[idx as int]);
                    if idx < self.done.len() && !self.done[idx] {
                        assert forall|j: int| 0 <= j < idx && #[trigger] start[j] implies !old(
                            self,
                        ).runnable(j) by {
                            if j >= frontier {
                                assert(before[j]);
                            }
                        }
                        return Some(idx);
                    }
                    assert forall|j: int| 0 <= j < idx + 1 && #[trigger] start[j] implies !old(
                        self,
                    ).runnable(j) by {
                        if j >= frontier && j < idx {
                            assert(before[j]);
                        }
                    }
                    proof {
                        frontier = idx + 1;
                    }
                },
            }
        }
    }

    /// Marks the future at `index` as done: it is not polled again.
    pub fn finished(&mut self, index: usize)
        requires
            index < old(self).spec_done().len(),
        ensures
            final(self).spec_done() == old(self).spec_done().update(index as int, true),
            final(self).spec_ready() == old(self).spec_ready(),
    {
        self.done.set(index, true);
    }
}

} // verus!
