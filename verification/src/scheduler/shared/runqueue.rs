//! Processes that are ready to run.
//!
//! See [`RunQueue`].

use vstd::prelude::*;

use crate::scheduler::process::Process;
use crate::setup::scheduler::{Order, Schedule};

verus! {

/// A branch of the tree: empty, or a node.
pub type Branch<S, P> = Option<Box<Node<S, P>>>;

/// A node of the tree: a process, the processes that run before it on the left
/// and the processes that run after it on the right.
pub struct Node<S, P> {
    process: Box<Process<S, P>>,
    left: Branch<S, P>,
    right: Branch<S, P>,
}

/// The processes of `branch` in the order in which they run.
pub closed spec fn branch_seq<S, P>(branch: Branch<S, P>) -> Seq<Process<S, P>>
    decreases branch,
{
    match branch {
        None => Seq::empty(),
        Some(node) => branch_seq(node.left) + seq![*node.process] + branch_seq(node.right),
    }
}

/// The processes run in order of their rank, highest rank first.
pub open spec fn sorted_by_rank<S: Schedule, P>(processes: Seq<Process<S, P>>) -> bool {
    forall|i: int, j: int| 0 <= i < j < processes.len() ==> #[trigger] processes[i].rank() >= #[trigger] processes[j].rank()
}

/// `processes` is `old` with `process` inserted after every process of at
/// least its rank and before every process of a lower rank.
pub open spec fn inserted_by_rank<S: Schedule, P>(
    processes: Seq<Process<S, P>>,
    old: Seq<Process<S, P>>,
    process: Process<S, P>,
) -> bool {
    exists|pos: int|
        {
            &&& 0 <= pos <= old.len()
            &&& processes == old.insert(pos, process)
            &&& forall|i: int| 0 <= i < pos ==> #[trigger] old[i].rank() >= process.rank()
            &&& forall|i: int| pos <= i < old.len() ==> #[trigger] old[i].rank() < process.rank()
        }
}

/// Every node has the processes of a higher rank on its left and the processes
/// of at most its rank on its right.
pub closed spec fn branch_wf<S: Schedule, P>(branch: Branch<S, P>) -> bool
    decreases branch,
{
    match branch {
        None => true,
        Some(node) => {
            &&& branch_wf(node.left)
            &&& branch_wf(node.right)
            &&& forall|i: int| 0 <= i < branch_seq(node.left).len() ==> #[trigger] branch_seq(node.left)[i].rank() > node.process.rank()
            &&& forall|i: int| 0 <= i < branch_seq(node.right).len() ==> #[trigger] branch_seq(node.right)[i].rank() <= node.process.rank()
        },
    }
}

/// A well formed branch holds its processes in order of rank.
proof fn lemma_branch_sorted<S: Schedule, P>(branch: Branch<S, P>)
    requires
        branch_wf(branch),
    ensures
        sorted_by_rank(branch_seq(branch)),
    decreases branch,
{
    if let Some(node) = branch {
        lemma_branch_sorted(node.left);
        lemma_branch_sorted(node.right);
        let l = branch_seq(node.left);
        let r = branch_seq(node.right);
        let s = branch_seq(branch);
        assert(s == l + seq![*node.process] + r);
        assert forall|i: int, j: int| 0 <= i < j < s.len() implies #[trigger] s[i].rank() >= #[trigger] s[j].rank() by {
            if j < l.len() {
                assert(s[i] == l[i] && s[j] == l[j]);
            } else if j == l.len() {
                assert(s[j] == *node.process);
                assert(s[i] == l[i]);
            } else if i > l.len() {
                assert(s[i] == r[i - l.len() - 1] && s[j] == r[j - l.len() - 1]);
            } else if i == l.len() {
                assert(s[i] == *node.process && s[j] == r[j - l.len() - 1]);
            } else {
                assert(s[i] == l[i] && s[j] == r[j - l.len() - 1]);
            }
        }
    }
}

impl<S: Schedule, P> Node<S, P> {
    /// Returns a new `Node`.
    fn new(process: Box<Process<S, P>>) -> (node: Node<S, P>)
        ensures
            node.process == process,
            node.left is None,
            node.right is None,
    {
        Node { process, left: None, right: None }
    }

    /// Returns the number of processes in this node and it's descendants, or
    /// `usize::MAX` where there are more.
    fn len(&self) -> (count: usize)
        ensures
            count == capped_len(branch_seq(Some(Box::new(*self)))),
        decreases *self,
    {
        let ghost l = branch_seq(self.left);
        let ghost r = branch_seq(self.right);
        assert(branch_seq(Some(Box::new(*self))) == l + seq![*self.process] + r);
        let mut count: usize = 1;  // Count ourselves.
        if let Some(branch) = self.left.as_ref() {
            assert(branch_seq(Some(Box::new(**branch))) == l);
            count = saturating_add(count, branch.len());
        }
        if let Some(branch) = self.right.as_ref() {
            assert(branch_seq(Some(Box::new(**branch))) == r);
            count = saturating_add(count, branch.len());
        }
        count
    }
}

/// The length of `processes`, or `usize::MAX` where it is longer.
pub open spec fn capped_len<A>(processes: Seq<A>) -> usize {
    if processes.len() <= usize::MAX {
        processes.len() as usize
    } else {
        usize::MAX
    }
}

/// `a + b`, or `usize::MAX` where the sum is larger.
fn saturating_add(a: usize, b: usize) -> (sum: usize)
    ensures
        sum == if a + b <= usize::MAX {
            (a + b) as usize
        } else {
            usize::MAX
        },
{
    if a <= usize::MAX - b {
        a + b
    } else {
        usize::MAX
    }
}

/// Add `process` to `branch`: on the left of every node of a lower rank, on
/// the right of every other node.
fn add_to<S: Schedule, P>(branch: &mut Branch<S, P>, process: Box<Process<S, P>>)
    requires
        branch_wf(*old(branch)),
    ensures
        branch_wf(*final(branch)),
        inserted_by_rank(branch_seq(*final(branch)), branch_seq(*old(branch)), *process),
    decreases *old(branch),
{
    match branch.take() {
        Some(mut node) => {
            let ghost old_left = branch_seq(node.left);
            let ghost old_right = branch_seq(node.right);
            let ghost n = *node.process;
            let ghost x = *process;
            // Select the next node in the branch to attempt to add ourselves
            // to.
            if node.process.order(&process) == Order::Less {
                add_to(&mut node.left, process);
                proof {
                    let new_left = branch_seq(node.left);
                    let pos = choose|pos: int|
                        {
                            &&& 0 <= pos <= old_left.len()
                            &&& new_left == old_left.insert(pos, x)
                            &&& forall|i: int| 0 <= i < pos ==> #[trigger] old_left[i].rank() >= x.rank()
                            &&& forall|i: int| pos <= i < old_left.len() ==> #[trigger] old_left[i].rank() < x.rank()
                        };
                    assert forall|i: int| 0 <= i < new_left.len() implies #[trigger] new_left[i].rank() > n.rank() by {
                        if i < pos {
                            assert(new_left[i] == old_left[i]);
                        } else if i > pos {
                            assert(new_left[i] == old_left[i - 1]);
                        }
                    }
                    let old_seq = old_left + seq![n] + old_right;
                    let new_seq = new_left + seq![n] + old_right;
                    assert(new_seq =~= old_seq.insert(pos, x));
                    assert forall|i: int| pos <= i < old_seq.len() implies #[trigger] old_seq[i].rank() < x.rank() by {
                        if i < old_left.len() {
                            assert(old_seq[i] == old_left[i]);
                        } else if i > old_left.len() {
                            assert(old_seq[i] == old_right[i - old_left.len() - 1]);
                        }
                    }
                    assert forall|i: int| 0 <= i < pos implies #[trigger] old_seq[i].rank() >= x.rank() by {
                        assert(old_seq[i] == old_left[i]);
                    }
                }
            } else {
                add_to(&mut node.right, process);
                proof {
                    let new_right = branch_seq(node.right);
                    let pos = choose|pos: int|
                        {
                            &&& 0 <= pos <= old_right.len()
                            &&& new_right == old_right.insert(pos, x)
                            &&& forall|i: int| 0 <= i < pos ==> #[trigger] old_right[i].rank() >= x.rank()
                            &&& forall|i: int| pos <= i < old_right.len() ==> #[trigger] old_right[i].rank() < x.rank()
                        };
                    assert forall|i: int| 0 <= i < new_right.len() implies #[trigger] new_right[i].rank() <= n.rank() by {
                        if i < pos {
                            assert(new_right[i] == old_right[i]);
                        } else if i > pos {
                            assert(new_right[i] == old_right[i - 1]);
                        }
                    }
                    let old_seq = old_left + seq![n] + old_right;
                    let new_seq = old_left + seq![n] + new_right;
                    let p = old_left.len() + 1 + pos;
                    assert(new_seq =~= old_seq.insert(p, x));
                    assert forall|i: int| p <= i < old_seq.len() implies #[trigger] old_seq[i].rank() < x.rank() by {
                        assert(old_seq[i] == old_right[i - old_left.len() - 1]);
                    }
                    assert forall|i: int| 0 <= i < p implies #[trigger] old_seq[i].rank() >= x.rank() by {
                        if i < old_left.len() {
                            assert(old_seq[i] == old_left[i]);
                        } else if i > old_left.len() {
                            assert(old_seq[i] == old_right[i - old_left.len() - 1]);
                        }
                    }
                }
            }
            *branch = Some(node);
        },
        None => {
            // Last node in the branch add our process to it.
            *branch = Some(Box::new(Node::new(process)));
            proof {
                assert(branch_seq(*branch) =~= Seq::<Process<S, P>>::empty().insert(0, *process));
            }
        },
    }
}

/// Remove the first process to run from `branch`: the process of its leftmost
/// node.
fn remove_from<S: Schedule, P>(branch: &mut Branch<S, P>) -> (removed: Option<Box<Process<S, P>>>)
    requires
        branch_wf(*old(branch)),
    ensures
        branch_wf(*final(branch)),
        match removed {
            Some(process) => {
                &&& branch_seq(*old(branch)).len() > 0
                &&& *process == branch_seq(*old(branch))[0]
                &&& branch_seq(*final(branch)) == branch_seq(*old(branch)).drop_first()
            },
            None => branch_seq(*old(branch)).len() == 0 && *final(branch) is None,
        },
    decreases *old(branch),
{
    match branch.take() {
        Some(mut node) => {
            if node.left.is_none() {
                // Reached the end of the left branch. Make the right branch
                // the new parent node, ensuring its still part of the tree,
                // and return the parent node's process.
                let ghost old_seq = branch_seq(Some(node));
                let ghost right_seq = branch_seq(node.right);
                let ghost first = *node.process;
                proof {
                    assert(branch_seq(node.left) == Seq::<Process<S, P>>::empty());
                    assert(old_seq == branch_seq(node.left) + seq![first] + right_seq);
                    assert(old_seq =~= seq![first] + right_seq);
                }
                let Node { process, left: _, right } = *node;
                *branch = right;
                proof {
                    assert(branch_seq(*branch) =~= old_seq.drop_first());
                }
                Some(process)
            } else {
                // Another node on the left branch.
                let ghost old_left = branch_seq(node.left);
                let ghost old_seq = branch_seq(Some(node));
                let removed = remove_from(&mut node.left);
                *branch = Some(node);
                proof {
                    let new_left = branch_seq(node.left);
                    assert forall|i: int| 0 <= i < new_left.len() implies #[trigger] new_left[i].rank() > node.process.rank() by {
                        assert(new_left[i] == old_left[i + 1]);
                    }
                    assert(old_seq == old_left + seq![*node.process] + branch_seq(node.right));
                    assert(branch_seq(*branch) =~= old_seq.drop_first());
                }
                removed
            }
        },
        // This case can only happen on the root.
        None => None,
    }
}

/// Processes that are ready to run.
///
/// Implemented as a simple binary tree: on the left of a node the processes
/// that run before it, on the right those that run after it. Processes of an
/// equal rank run in the order in which they were added.
pub struct RunQueue<S, P> {
    root: Branch<S, P>,
}

impl<S: Schedule, P> View for RunQueue<S, P> {
    type V = Seq<Process<S, P>>;

    /// The processes in the order in which they will run.
    closed spec fn view(&self) -> Seq<Process<S, P>> {
        branch_seq(self.root)
    }
}

impl<S: Schedule, P> RunQueue<S, P> {
    /// The tree is ordered by rank.
    pub closed spec fn wf(&self) -> bool {
        branch_wf(self.root)
    }

    /// A well formed queue holds its processes in order of rank.
    pub proof fn lemma_sorted(&self)
        requires
            self.wf(),
        ensures
            sorted_by_rank(self@),
    {
        lemma_branch_sorted(self.root);
    }

    /// Returns an empty `RunQueue`.
    pub fn empty() -> (queue: RunQueue<S, P>)
        ensures
            queue.wf(),
            queue@ == Seq::<Process<S, P>>::empty(),
    {
        RunQueue { root: None }
    }

    /// Returns the number of processes in the queue, or `usize::MAX` where
    /// there are more.
    pub fn len(&self) -> (len: usize)
        ensures
            len == capped_len(self@),
    {
        match &self.root {
            Some(branch) => branch.len(),
            None => 0,
        }
    }

    /// Returns `true` if the queue contains any process.
    pub fn has_process(&self) -> (has_process: bool)
        ensures
            has_process == (self@.len() > 0),
    {
        proof {
            if self.root is Some {
                let node = self.root.unwrap();
                assert(self@ == branch_seq(node.left) + seq![*node.process] + branch_seq(node.right));
            }
        }
        self.root.is_some()
    }

    /// Add `process` to the queue of running processes: after every process of
    /// at least its rank, before every process of a lower rank.
    pub fn add(&mut self, process: Box<Process<S, P>>)
        requires
            old(self).wf(),
        ensures
            final(self).wf(),
            inserted_by_rank(final(self)@, old(self)@, *process),
    {
        add_to(&mut self.root, process);
    }

    /// Remove the next process to run from the queue, the first one.
    pub fn remove(&mut self) -> (removed: Option<Box<Process<S, P>>>)
        requires
            old(self).wf(),
        ensures
            final(self).wf(),
            match removed {
                Some(process) => {
                    &&& old(self)@.len() > 0
                    &&& *process == old(self)@[0]
                    &&& final(self)@ == old(self)@.drop_first()
                },
                None => old(self)@.len() == 0 && final(self)@.len() == 0,
            },
    {
        remove_from(&mut self.root)
    }
}

/// Adding a process keeps the queue in order of rank.
pub proof fn lemma_insert_keeps_sorted<S: Schedule, P>(
    old: Seq<Process<S, P>>,
    process: Process<S, P>,
    processes: Seq<Process<S, P>>,
)
    requires
        sorted_by_rank(old),
        inserted_by_rank(processes, old, process),
    ensures
        sorted_by_rank(processes),
{
    let pos = choose|pos: int|
        {
            &&& 0 <= pos <= old.len()
            &&& processes == old.insert(pos, process)
            &&& forall|i: int| 0 <= i < pos ==> #[trigger] old[i].rank() >= process.rank()
            &&& forall|i: int| pos <= i < old.len() ==> #[trigger] old[i].rank() < process.rank()
        };
    assert forall|i: int, j: int| 0 <= i < j < processes.len() implies #[trigger] processes[i].rank()
        >= #[trigger] processes[j].rank() by {
        if j < pos {
            assert(processes[i] == old[i] && processes[j] == old[j]);
        } else if j == pos {
            assert(processes[i] == old[i]);
        } else if i < pos {
            assert(processes[i] == old[i] && processes[j] == old[j - 1]);
        } else if i == pos {
            assert(processes[j] == old[j - 1]);
        } else {
            assert(processes[i] == old[i - 1] && processes[j] == old[j - 1]);
        }
    }
}

/// The process that runs next, the first in the queue, has the highest rank of
/// all processes in a queue in order of rank.
pub proof fn lemma_first_runs_first<S: Schedule, P>(processes: Seq<Process<S, P>>)
    requires
        sorted_by_rank(processes),
        processes.len() > 0,
    ensures
        forall|i: int| 0 <= i < processes.len() ==> #[trigger] processes[i].rank() <= processes[0].rank(),
{
    assert forall|i: int| 0 <= i < processes.len() implies #[trigger] processes[i].rank() <= processes[0].rank() by {
        if i > 0 {
            assert(processes[0].rank() >= processes[i].rank());
        }
    }
}

} // verus!
