//! Inactive processes of the thread-safe scheduler.
//!
//! See [`Inactive`].

use vstd::prelude::*;

use crate::scheduler::process::Process;
use crate::scheduler::shared::runqueue::{inserted_by_rank, RunQueue};
use crate::setup::scheduler::{ProcessId, Schedule};

verus! {

/// Number of bits to shift per level.
pub const LEVEL_SHIFT: usize = 2;
/// Number of branches per level of the tree.
pub const N_BRANCHES: usize = 4;
/// Number of bits to mask per level.
pub const LEVEL_MASK: usize = 3;
/// The two least significant bits of a process id are always 0, so we can
/// safely skip them.
pub const SKIP_BITS: usize = 2;
/// Mask of the bits we skip.
pub const SKIP_MASK: usize = 3;

/// The bits of `pid` that select the slots at `depth` and below: `pid` shifted
/// right by `SKIP_BITS` and then by `LEVEL_SHIFT` per level.
pub open spec fn wpid(pid: usize, depth: nat) -> usize
    decreases depth,
{
    if depth == 0 {
        pid >> 2usize
    } else {
        wpid(pid, (depth - 1) as nat) >> 2usize
    }
}

/// The slot `pid` takes in a branch at `depth`.
pub open spec fn slot_of(pid: usize, depth: nat) -> usize {
    wpid(pid, depth) & 3usize
}

/// Whether the bits of `pid` we skip are zero, as they are for any valid pid.
pub open spec fn valid_pid(pid: usize) -> bool {
    pid & 3usize == 0
}

/// `a` and `b` take the same slots at every depth below `depth`.
pub open spec fn same_path(a: usize, b: usize, depth: nat) -> bool {
    forall|j: nat| j < depth ==> #[trigger] slot_of(a, j) == slot_of(b, j)
}

/// Returns `false` if `pid`'s `SKIP_BITS` aren't valid.
pub fn ok_pid(pid: ProcessId) -> (ok: bool)
    ensures
        ok == valid_pid(pid.0),
{
    pid.0 & SKIP_MASK == 0
}

/// A slot index is below `N_BRANCHES`.
pub proof fn lemma_slot_below_branches(pid: usize, depth: nat)
    ensures
        slot_of(pid, depth) < 4,
{
    let w = wpid(pid, depth);
    assert(w & 3usize < 4usize) by (bit_vector);
}

/// Shifting the working pid by `k` more levels gives the working pid `k`
/// levels deeper.
pub proof fn lemma_wpid_shift(pid: usize, depth: nat, k: nat)
    requires
        2 * k < usize::BITS,
    ensures
        wpid(pid, depth) >> ((2 * k) as usize) == wpid(pid, depth + k),
    decreases k,
{
    if k == 0 {
        let w = wpid(pid, depth);
        assert(w >> 0usize == w) by (bit_vector);
    } else {
        lemma_wpid_shift(pid, depth, (k - 1) as nat);
        let w = wpid(pid, depth);
        let s = (2 * (k - 1)) as usize;
        assert(s + 2 < usize::BITS ==> (w >> s) >> 2usize == w >> ((s + 2) as usize)) by (bit_vector);
        assert(wpid(pid, depth + k) == wpid(pid, (depth + k - 1) as nat) >> 2usize);
    }
}

/// Working pids that agree in their lowest slot but differ, still differ one
/// level deeper and are not both zero there.
proof fn lemma_differ_deeper(w1: usize, w2: usize, s: usize)
    requires
        w1 != w2,
        w1 & 3usize == w2 & 3usize,
        s < usize::BITS,
        w1 >> s == 0usize,
        w2 >> s == 0usize,
    ensures
        w1 >> 2usize != w2 >> 2usize,
        s > 2,
        (w1 >> 2usize) >> ((s - 2) as usize) == 0usize,
        (w2 >> 2usize) >> ((s - 2) as usize) == 0usize,
{
    assert(w1 != w2 && w1 & 3usize == w2 & 3usize ==> w1 >> 2usize != w2 >> 2usize) by (bit_vector);
    assert(w1 != w2 && w1 & 3usize == w2 & 3usize ==> (w1 >> 2usize != 0usize || w2 >> 2usize != 0usize))
        by (bit_vector);
    assert(s <= 2usize && w1 >> s == 0usize ==> w1 >> 2usize == 0usize) by (bit_vector);
    assert(s <= 2usize && w2 >> s == 0usize ==> w2 >> 2usize == 0usize) by (bit_vector);
    assert(2usize < s && s < usize::BITS && w1 >> s == 0usize ==> (w1 >> 2usize) >> ((s - 2) as usize) == 0usize)
        by (bit_vector);
    assert(2usize < s && s < usize::BITS && w2 >> s == 0usize ==> (w2 >> 2usize) >> ((s - 2) as usize) == 0usize)
        by (bit_vector);
}

/// Returns the depth at which `pid1` and `pid2` use different branches: they
/// take the same slot at every smaller depth and a different one at the
/// returned depth. The two bits that are skipped play no part: pids that
/// differ only in them never use different branches, and for them the depth
/// is half of `usize::BITS`.
pub fn diff_branch_depth(pid1: ProcessId, pid2: ProcessId) -> (depth: usize)
    requires
        pid1 != pid2,
    ensures
        pid1.0 >> 2usize == pid2.0 >> 2usize ==> depth == usize::BITS / 2,
        pid1.0 >> 2usize != pid2.0 >> 2usize ==> {
            &&& 2 * depth + 2 < usize::BITS
            &&& same_path(pid1.0, pid2.0, depth as nat)
            &&& slot_of(pid1.0, depth as nat) != slot_of(pid2.0, depth as nat)
        },
{
    let p1 = pid1.0;
    let p2 = pid2.0;
    let mut w1 = p1 >> SKIP_BITS;
    let mut w2 = p2 >> SKIP_BITS;
    if w1 == w2 {
        return (usize::BITS / 2) as usize;
    }
    let mut depth: usize = 0;
    proof {
        let b = (usize::BITS - 2) as usize;
        assert(b == usize::BITS - 2 ==> (p1 >> 2usize) >> b == 0usize) by (bit_vector);
        assert(b == usize::BITS - 2 ==> (p2 >> 2usize) >> b == 0usize) by (bit_vector);
    }
    while (w1 & LEVEL_MASK) == (w2 & LEVEL_MASK)
        invariant
            w1 == wpid(p1, depth as nat),
            w2 == wpid(p2, depth as nat),
            w1 != w2,
            2 * depth + 2 < usize::BITS,
            w1 >> ((usize::BITS - 2 - 2 * depth) as usize) == 0usize,
            w2 >> ((usize::BITS - 2 - 2 * depth) as usize) == 0usize,
            same_path(p1, p2, depth as nat),
        decreases usize::BITS - 2 * depth,
    {
        proof {
            lemma_differ_deeper(w1, w2, (usize::BITS - 2 - 2 * depth) as usize);
        }
        w1 = w1 >> LEVEL_SHIFT;
        w2 = w2 >> LEVEL_SHIFT;
        depth = depth + 1;
    }
    depth
}

/// Returns the working pid for `pid` at `depth`.
pub fn wpid_for(pid: ProcessId, depth: usize) -> (w_pid: usize)
    requires
        2 * depth + 2 < usize::BITS,
    ensures
        w_pid == wpid(pid.0, depth as nat),
{
    proof {
        lemma_wpid_shift(pid.0, 0, depth as nat);
        let k = (2 * depth) as usize;
        let p = pid.0;
        assert(k + 2 < usize::BITS ==> (p >> 2usize) >> k == p >> ((k + 2) as usize)) by (bit_vector);
    }
    pid.0 >> ((depth * LEVEL_SHIFT) + SKIP_BITS)
}

/// What the tree holds for a pid: the process, waiting to be marked ready, or
/// a marker that the process was marked ready while it was not in the tree.
pub enum Entry<S, P> {
    /// The inactive process.
    Waiting(Process<S, P>),
    /// The process was marked as ready to run.
    Ready,
}

/// A slot in a branch of the tree.
pub enum Slot<S, P> {
    /// Nothing in this slot.
    Empty,
    /// An inactive process.
    Process(Box<Process<S, P>>),
    /// A marker that the process with this pid was marked as ready to run.
    Marker(ProcessId),
    /// A branch one level deeper.
    Branch(Box<Branch<S, P>>),
}

/// A level of the tree, holding `N_BRANCHES` slots.
pub struct Branch<S, P> {
    branches: Vec<Slot<S, P>>,
}

/// Create a marker that the process with id `pid` is ready to run.
pub fn ready_to_run<S, P>(pid: ProcessId) -> (marker: Slot<S, P>)
    ensures
        marker == Slot::<S, P>::Marker(pid),
{
    Slot::Marker(pid)
}

/// The pid of a process or marker.
pub open spec fn leaf_key<S, P>(slot: Slot<S, P>) -> usize {
    match slot {
        Slot::Process(process) => process.key(),
        Slot::Marker(pid) => pid.0,
        _ => 0,
    }
}

/// What a process or marker holds for its pid.
pub open spec fn leaf_entry<S, P>(slot: Slot<S, P>) -> Entry<S, P> {
    match slot {
        Slot::Process(process) => Entry::Waiting(*process),
        _ => Entry::Ready,
    }
}

/// Whether `slot` is a process or a marker.
pub open spec fn is_leaf<S, P>(slot: Slot<S, P>) -> bool {
    slot is Process || slot is Marker
}

/// What `slot`, at `depth`, holds for `pid`, if anything.
pub closed spec fn slot_get<S, P>(slot: Slot<S, P>, pid: usize, depth: nat) -> Option<Entry<S, P>>
    decreases slot,
{
    match slot {
        Slot::Empty => None,
        Slot::Process(process) => if process.key() == pid {
            Some(Entry::Waiting(*process))
        } else {
            None
        },
        Slot::Marker(marker) => if marker.0 == pid {
            Some(Entry::Ready)
        } else {
            None
        },
        Slot::Branch(branch) => branch_get(*branch, pid, depth + 1),
    }
}

/// What `branch`, at `depth`, holds for `pid`, if anything: found by following
/// the slots that `pid` selects.
pub closed spec fn branch_get<S, P>(branch: Branch<S, P>, pid: usize, depth: nat) -> Option<Entry<S, P>>
    decreases branch,
{
    let i = slot_of(pid, depth) as int;
    if 0 <= i < branch.branches@.len() {
        slot_get(branch.branches@[i], pid, depth)
    } else {
        None
    }
}

/// `slot`, at `index` of a branch at `depth`, is well formed: a process or
/// marker sits in the slot its pid selects and a branch only holds pids that
/// select `index`.
pub closed spec fn slot_wf<S, P>(slot: Slot<S, P>, depth: nat, index: int) -> bool
    decreases slot,
{
    match slot {
        Slot::Empty => true,
        Slot::Process(process) => slot_of(process.key(), depth) == index && valid_pid(process.key()),
        Slot::Marker(pid) => slot_of(pid.0, depth) == index && valid_pid(pid.0),
        Slot::Branch(branch) => {
            &&& 2 * (depth + 1) + 2 < usize::BITS
            &&& branch_wf(*branch, depth + 1)
            &&& forall|pid: usize| #[trigger] branch_get(*branch, pid, depth + 1) is Some ==> slot_of(pid, depth) == index
        },
    }
}

/// `branch`, at `depth`, is well formed: it has `N_BRANCHES` well formed
/// slots.
pub closed spec fn branch_wf<S, P>(branch: Branch<S, P>, depth: nat) -> bool
    decreases branch,
{
    &&& branch.branches@.len() == 4
    &&& forall|i: int| 0 <= i < 4 ==> slot_wf(#[trigger] branch.branches@[i], depth, i)
}

/// Every pid in `branch`, at `depth`, took the same slots as `pid` to get
/// there.
pub closed spec fn on_path<S, P>(branch: Branch<S, P>, pid: usize, depth: nat) -> bool {
    forall|k: usize| #[trigger] branch_get(branch, k, depth) is Some ==> same_path(k, pid, depth)
}

/// What a process or marker holds for the pid it was looked up by.
proof fn lemma_slot_get_key<S, P>(slot: Slot<S, P>, pid: usize, depth: nat)
    ensures
        slot_get(slot, pid, depth) matches Some(Entry::Waiting(process)) ==> process.key() == pid,
    decreases slot,
{
    match slot {
        Slot::Branch(branch) => lemma_branch_get_key(*branch, pid, depth + 1),
        _ => {},
    }
}

/// A process found in a branch has the pid it was looked up by.
proof fn lemma_branch_get_key<S, P>(branch: Branch<S, P>, pid: usize, depth: nat)
    ensures
        branch_get(branch, pid, depth) matches Some(Entry::Waiting(process)) ==> process.key() == pid,
    decreases branch,
{
    let i = slot_of(pid, depth) as int;
    if 0 <= i < branch.branches@.len() {
        lemma_slot_get_key(branch.branches@[i], pid, depth);
    }
}

/// Two valid pids that differ still differ once the skipped bits are dropped.
proof fn lemma_valid_pids_differ(a: usize, b: usize)
    requires
        valid_pid(a),
        valid_pid(b),
        a != b,
    ensures
        a >> 2usize != b >> 2usize,
{
    assert(a & 3usize == 0usize && b & 3usize == 0usize && a != b ==> a >> 2usize != b >> 2usize) by (bit_vector);
}

/// Returns the pid of a process or marker.
fn as_pid<S, P>(slot: &Slot<S, P>) -> (pid: ProcessId)
    requires
        is_leaf(*slot),
    ensures
        pid.0 == leaf_key(*slot),
{
    match slot {
        Slot::Process(process) => process.id(),
        Slot::Marker(pid) => *pid,
        _ => ProcessId(0),
    }
}

impl<S, P> Branch<S, P> {
    /// Create an empty `Branch`.
    fn empty(Ghost(depth): Ghost<nat>) -> (branch: Branch<S, P>)
        ensures
            branch_wf(branch, depth),
            branch.branches@.len() == 4,
            forall|i: int| 0 <= i < 4 ==> #[trigger] branch.branches@[i] is Empty,
            forall|pid: usize| #[trigger] branch_get(branch, pid, depth) is None,
    {
        let mut branches: Vec<Slot<S, P>> = Vec::new();
        while branches.len() < N_BRANCHES
            invariant
                branches@.len() <= 4,
                forall|i: int| 0 <= i < branches@.len() ==> #[trigger] branches@[i] is Empty,
            decreases 4 - branches@.len(),
        {
            branches.push(Slot::Empty);
        }
        let branch = Branch { branches };
        assert forall|pid: usize| #[trigger] branch_get(branch, pid, depth) is None by {
            lemma_slot_below_branches(pid, depth);
        }
        branch
    }

    /// Add two processes or markers at a time.
    ///
    /// Used when a process or marker is added but another one is encountered
    /// at the end of a branch. We create enough levels for them to be in
    /// different slots and add both. `w_pid` is the working pid of `leaf1` at
    /// `depth`.
    fn add_both(&mut self, leaf1: Slot<S, P>, leaf2: Slot<S, P>, w_pid: usize, depth: usize)
        requires
            branch_wf(*old(self), depth as nat),
            2 * depth + 2 < usize::BITS,
            is_leaf(leaf1),
            is_leaf(leaf2),
            w_pid == wpid(leaf_key(leaf1), depth as nat),
            old(self).branches@[(w_pid & 3usize) as int] is Empty,
            valid_pid(leaf_key(leaf1)),
            valid_pid(leaf_key(leaf2)),
            leaf_key(leaf1) != leaf_key(leaf2),
            same_path(leaf_key(leaf1), leaf_key(leaf2), (depth + 1) as nat),
        ensures
            branch_wf(*final(self), depth as nat),
            forall|k: usize| #[trigger]
                branch_get(*final(self), k, depth as nat) == if k == leaf_key(leaf1) {
                    Some(leaf_entry(leaf1))
                } else if k == leaf_key(leaf2) {
                    Some(leaf_entry(leaf2))
                } else {
                    branch_get(*old(self), k, depth as nat)
                },
    {
        let ghost key1 = leaf_key(leaf1);
        let ghost key2 = leaf_key(leaf2);
        let ghost l1 = leaf1;
        let ghost l2 = leaf2;
        let idx = w_pid & LEVEL_MASK;
        let pid1 = as_pid(&leaf1);
        let pid2 = as_pid(&leaf2);
        proof {
            lemma_valid_pids_differ(key1, key2);
        }
        // Required depth to go were the pointers are in different slots.
        let req_depth = diff_branch_depth(pid1, pid2);
        proof {
            lemma_slot_below_branches(key1, depth as nat);
            if req_depth <= depth {
                assert(slot_of(key1, req_depth as nat) == slot_of(key2, req_depth as nat));
            }
        }
        let mut branch = Branch::empty(Ghost(req_depth as nat));
        let w_pid1 = wpid_for(pid1, req_depth);
        let w_pid2 = wpid_for(pid2, req_depth);
        proof {
            lemma_slot_below_branches(key1, req_depth as nat);
            lemma_slot_below_branches(key2, req_depth as nat);
        }
        branch.branches.set(w_pid1 & LEVEL_MASK, leaf1);
        branch.branches.set(w_pid2 & LEVEL_MASK, leaf2);
        proof {
            let i1 = slot_of(key1, req_depth as nat) as int;
            let i2 = slot_of(key2, req_depth as nat) as int;
            assert forall|i: int| 0 <= i < 4 implies slot_wf(#[trigger] branch.branches@[i], req_depth as nat, i) by {
                if i != i1 && i != i2 {
                    assert(branch.branches@[i] is Empty);
                }
            }
            assert forall|k: usize| #[trigger]
                branch_get(branch, k, req_depth as nat) == if k == key1 {
                    Some(leaf_entry(l1))
                } else if k == key2 {
                    Some(leaf_entry(l2))
                } else {
                    None::<Entry<S, P>>
                } by {
                lemma_slot_below_branches(k, req_depth as nat);
            }
        }
        // Build up to route to the branch.
        let mut d = depth + 1;
        while d < req_depth
            invariant
                depth < d <= req_depth,
                2 * req_depth + 2 < usize::BITS,
                w_pid == wpid(key1, depth as nat),
                same_path(key1, key2, req_depth as nat),
                branch_wf(branch, (depth + req_depth + 1 - d) as nat),
                forall|k: usize| #[trigger]
                    branch_get(branch, k, (depth + req_depth + 1 - d) as nat) == if k == key1 {
                        Some(leaf_entry(l1))
                    } else if k == key2 {
                        Some(leaf_entry(l2))
                    } else {
                        None::<Entry<S, P>>
                    },
            decreases req_depth - d,
        {
            let ghost cur = (depth + req_depth + 1 - d) as nat;
            proof {
                lemma_wpid_shift(key1, depth as nat, (req_depth - d) as nat);
                lemma_slot_below_branches(key1, (cur - 1) as nat);
            }
            let index = (w_pid >> ((req_depth - d) * LEVEL_SHIFT)) & LEVEL_MASK;
            let mut outer = Branch::empty(Ghost((cur - 1) as nat));
            let ghost inner = branch;
            outer.branches.set(index, Slot::Branch(Box::new(branch)));
            branch = outer;
            proof {
                assert(slot_of(key1, (cur - 1) as nat) == slot_of(key2, (cur - 1) as nat));
                assert forall|k: usize| #[trigger] branch_get(inner, k, cur) is Some implies slot_of(k, (cur - 1) as nat)
                    == index by {
                }
                assert forall|i: int| 0 <= i < 4 implies slot_wf(#[trigger] branch.branches@[i], (cur - 1) as nat, i) by {
                    if i != index {
                        assert(branch.branches@[i] is Empty);
                    }
                }
                assert forall|k: usize| #[trigger]
                    branch_get(branch, k, (cur - 1) as nat) == if k == key1 {
                        Some(leaf_entry(l1))
                    } else if k == key2 {
                        Some(leaf_entry(l2))
                    } else {
                        None::<Entry<S, P>>
                    } by {
                    lemma_slot_below_branches(k, (cur - 1) as nat);
                    if slot_of(k, (cur - 1) as nat) == index {
                        assert(branch_get(branch, k, (cur - 1) as nat) == branch_get(inner, k, cur));
                    }
                }
            }
            d = d + 1;
        }
        let ghost last = branch;
        self.branches.set(idx, Slot::Branch(Box::new(branch)));
        proof {
            assert(slot_of(key2, depth as nat) == slot_of(key1, depth as nat));
            assert forall|k: usize| #[trigger] branch_get(last, k, (depth + 1) as nat) is Some implies slot_of(
                k,
                depth as nat,
            ) == idx by {
            }
            assert forall|i: int| 0 <= i < 4 implies slot_wf(#[trigger] self.branches@[i], depth as nat, i) by {
                assert(i != idx ==> self.branches@[i] == old(self).branches@[i]);
            }
            assert forall|k: usize| #[trigger]
                branch_get(*self, k, depth as nat) == if k == key1 {
                    Some(leaf_entry(l1))
                } else if k == key2 {
                    Some(leaf_entry(l2))
                } else {
                    branch_get(*old(self), k, depth as nat)
                } by {
                lemma_slot_below_branches(k, depth as nat);
                if slot_of(k, depth as nat) == idx {
                    assert(branch_get(*self, k, depth as nat) == branch_get(last, k, (depth + 1) as nat));
                }
            }
        }
    }
}

impl<S: Schedule, P> Branch<S, P> {
    /// Add `process` to this branch at `depth`, unless it was marked as ready
    /// to run: then the marker is removed and the process is added to
    /// `run_queue` instead. Returns the number of processes added to the tree.
    fn _add(&mut self, process: Box<Process<S, P>>, w_pid: usize, depth: usize, run_queue: &mut RunQueue<S, P>) -> (changed: isize)
        requires
            branch_wf(*old(self), depth as nat),
            2 * depth + 2 < usize::BITS,
            w_pid == wpid(process.key(), depth as nat),
            valid_pid(process.key()),
            !(branch_get(*old(self), process.key(), depth as nat) matches Some(Entry::Waiting(_))),
            on_path(*old(self), process.key(), depth as nat),
            old(run_queue).wf(),
        ensures
            branch_wf(*final(self), depth as nat),
            final(run_queue).wf(),
            branch_get(*old(self), process.key(), depth as nat) matches Some(Entry::Ready) ==> {
                &&& changed == 0
                &&& inserted_by_rank(final(run_queue)@, old(run_queue)@, *process)
                &&& forall|k: usize| #[trigger]
                    branch_get(*final(self), k, depth as nat) == if k == process.key() {
                        None
                    } else {
                        branch_get(*old(self), k, depth as nat)
                    }
            },
            branch_get(*old(self), process.key(), depth as nat) is None ==> {
                &&& changed == 1
                &&& final(run_queue)@ == old(run_queue)@
                &&& forall|k: usize| #[trigger]
                    branch_get(*final(self), k, depth as nat) == if k == process.key() {
                        Some(Entry::Waiting(*process))
                    } else {
                        branch_get(*old(self), k, depth as nat)
                    }
            },
        decreases *old(self),
    {
        let ghost key = process.key();
        let idx = w_pid & LEVEL_MASK;
        proof {
            lemma_slot_below_branches(key, depth as nat);
        }
        let ghost old_slot = self.branches@[idx as int];
        let mut node = Slot::Empty;
        std::mem::swap(&mut node, &mut self.branches[idx]);
        match node {
            Slot::Empty => {
                // Empty slot, we can put the `process` into it.
                self.branches.set(idx, Slot::Process(process));
                proof {
                    assert forall|k: usize| #[trigger]
                        branch_get(*self, k, depth as nat) == if k == key {
                            Some(Entry::Waiting(*process))
                        } else {
                            branch_get(*old(self), k, depth as nat)
                        } by {
                        lemma_slot_below_branches(k, depth as nat);
                    }
                    assert forall|i: int| 0 <= i < 4 implies slot_wf(#[trigger] self.branches@[i], depth as nat, i) by {
                        assert(i != idx ==> self.branches@[i] == old(self).branches@[i]);
                    }
                }
                1
            },
            Slot::Branch(mut child) => {
                // Try at the next level.
                let ghost old_child = *child;
                proof {
                    assert(branch_get(*old(self), key, depth as nat) == branch_get(old_child, key, (depth + 1) as nat));
                    assert forall|k: usize| #[trigger] branch_get(old_child, k, (depth + 1) as nat) is Some implies same_path(
                        k,
                        key,
                        (depth + 1) as nat,
                    ) by {
                        assert(slot_of(k, depth as nat) == idx);
                        assert(branch_get(*old(self), k, depth as nat) == branch_get(old_child, k, (depth + 1) as nat));
                        assert forall|j: nat| j < (depth + 1) as nat implies #[trigger] slot_of(k, j) == slot_of(key, j) by {
                            if j < depth {
                                assert(same_path(k, key, depth as nat));
                            }
                        }
                    }
                }
                let changed = child._add(process, w_pid >> LEVEL_SHIFT, depth + 1, run_queue);
                let ghost new_child = *child;
                self.branches.set(idx, Slot::Branch(child));
                proof {
                    assert forall|k: usize| #[trigger] branch_get(*self, k, depth as nat) == (if slot_of(k, depth as nat) == idx {
                        branch_get(new_child, k, (depth + 1) as nat)
                    } else {
                        branch_get(*old(self), k, depth as nat)
                    }) by {
                        lemma_slot_below_branches(k, depth as nat);
                    }
                    assert forall|k: usize| slot_of(k, depth as nat) == idx implies #[trigger] branch_get(*old(self), k, depth as nat)
                        == branch_get(old_child, k, (depth + 1) as nat) by {
                    }
                    assert forall|k: usize| #[trigger] branch_get(new_child, k, (depth + 1) as nat) is Some implies slot_of(
                        k,
                        depth as nat,
                    ) == idx by {
                        if k != key {
                            assert(branch_get(new_child, k, (depth + 1) as nat) == slot_get(old_slot, k, depth as nat));
                        }
                    }
                    assert forall|i: int| 0 <= i < 4 implies slot_wf(#[trigger] self.branches@[i], depth as nat, i) by {
                        assert(i != idx ==> self.branches@[i] == old(self).branches@[i]);
                    }
                }
                changed
            },
            Slot::Marker(marker) => {
                if marker.0 == key_of(&process) {
                    // Found a ready marker for the process we want to add.
                    // Remove it and add the process to the run queue instead.
                    run_queue.add(process);
                    proof {
                        assert forall|k: usize| #[trigger]
                            branch_get(*self, k, depth as nat) == if k == key {
                                None
                            } else {
                                branch_get(*old(self), k, depth as nat)
                            } by {
                            lemma_slot_below_branches(k, depth as nat);
                        }
                        assert forall|i: int| 0 <= i < 4 implies slot_wf(#[trigger] self.branches@[i], depth as nat, i) by {
                            assert(i != idx ==> self.branches@[i] == old(self).branches@[i]);
                        }
                    }
                    0
                } else {
                    // Found a ready marker for another process.
                    let other = Slot::Marker(marker);
                    proof {
                        self.prepare_add_both(*old(self), other, key, idx, depth as nat);
                    }
                    self.add_both(Slot::Process(process), other, w_pid, depth);
                    proof {
                        assert forall|k: usize| #[trigger]
                            branch_get(*self, k, depth as nat) == if k == key {
                                Some(Entry::Waiting(*process))
                            } else {
                                branch_get(*old(self), k, depth as nat)
                            } by {
                            lemma_slot_below_branches(k, depth as nat);
                        }
                    }
                    1
                }
            },
            Slot::Process(other_process) => {
                // Found another process.
                let other = Slot::Process(other_process);
                proof {
                    self.prepare_add_both(*old(self), other, key, idx, depth as nat);
                }
                self.add_both(Slot::Process(process), other, w_pid, depth);
                proof {
                    assert forall|k: usize| #[trigger]
                        branch_get(*self, k, depth as nat) == if k == key {
                            Some(Entry::Waiting(*process))
                        } else {
                            branch_get(*old(self), k, depth as nat)
                        } by {
                        lemma_slot_below_branches(k, depth as nat);
                    }
                }
                1
            },
        }
    }

    /// Mark the process with id `pid` as ready to run: if the process is in
    /// this branch, at `depth`, it's removed and added to `run_queue`,
    /// otherwise a marker for it is added (if there isn't one already).
    /// Returns the number of processes added to the tree (zero or minus one).
    fn _mark_ready(&mut self, pid: ProcessId, w_pid: usize, depth: usize, run_queue: &mut RunQueue<S, P>) -> (changed: isize)
        requires
            branch_wf(*old(self), depth as nat),
            2 * depth + 2 < usize::BITS,
            w_pid == wpid(pid.0, depth as nat),
            valid_pid(pid.0),
            on_path(*old(self), pid.0, depth as nat),
            old(run_queue).wf(),
        ensures
            branch_wf(*final(self), depth as nat),
            final(run_queue).wf(),
            match branch_get(*old(self), pid.0, depth as nat) {
                Some(Entry::Waiting(process)) => {
                    &&& changed == -1
                    &&& inserted_by_rank(final(run_queue)@, old(run_queue)@, process)
                    &&& forall|k: usize| #[trigger]
                        branch_get(*final(self), k, depth as nat) == if k == pid.0 {
                            None
                        } else {
                            branch_get(*old(self), k, depth as nat)
                        }
                },
                Some(Entry::Ready) => {
                    &&& changed == 0
                    &&& final(run_queue)@ == old(run_queue)@
                    &&& forall|k: usize| #[trigger] branch_get(*final(self), k, depth as nat) == branch_get(*old(self), k, depth as nat)
                },
                None => {
                    &&& changed == 0
                    &&& final(run_queue)@ == old(run_queue)@
                    &&& forall|k: usize| #[trigger]
                        branch_get(*final(self), k, depth as nat) == if k == pid.0 {
                            Some(Entry::Ready)
                        } else {
                            branch_get(*old(self), k, depth as nat)
                        }
                },
            },
        decreases *old(self),
    {
        let ghost key = pid.0;
        let idx = w_pid & LEVEL_MASK;
        proof {
            lemma_slot_below_branches(key, depth as nat);
        }
        let ghost old_slot = self.branches@[idx as int];
        let mut node = Slot::Empty;
        std::mem::swap(&mut node, &mut self.branches[idx]);
        match node {
            Slot::Empty => {
                // Empty slot, we can put the marker into it.
                self.branches.set(idx, ready_to_run(pid));
                proof {
                    assert forall|k: usize| #[trigger]
                        branch_get(*self, k, depth as nat) == if k == key {
                            Some(Entry::Ready)
                        } else {
                            branch_get(*old(self), k, depth as nat)
                        } by {
                        lemma_slot_below_branches(k, depth as nat);
                    }
                    assert forall|i: int| 0 <= i < 4 implies slot_wf(#[trigger] self.branches@[i], depth as nat, i) by {
                        assert(i != idx ==> self.branches@[i] == old(self).branches@[i]);
                    }
                }
                0
            },
            Slot::Branch(mut child) => {
                // Try at the next level.
                let ghost old_child = *child;
                proof {
                    assert(branch_get(*old(self), key, depth as nat) == branch_get(old_child, key, (depth + 1) as nat));
                    assert forall|k: usize| #[trigger] branch_get(old_child, k, (depth + 1) as nat) is Some implies same_path(
                        k,
                        key,
                        (depth + 1) as nat,
                    ) by {
                        assert(slot_of(k, depth as nat) == idx);
                        assert(branch_get(*old(self), k, depth as nat) == branch_get(old_child, k, (depth + 1) as nat));
                        assert forall|j: nat| j < (depth + 1) as nat implies #[trigger] slot_of(k, j) == slot_of(key, j) by {
                            if j < depth {
                                assert(same_path(k, key, depth as nat));
                            }
                        }
                    }
                }
                let changed = child._mark_ready(pid, w_pid >> LEVEL_SHIFT, depth + 1, run_queue);
                let ghost new_child = *child;
                self.branches.set(idx, Slot::Branch(child));
                proof {
                    assert forall|k: usize| #[trigger] branch_get(*self, k, depth as nat) == (if slot_of(k, depth as nat) == idx {
                        branch_get(new_child, k, (depth + 1) as nat)
                    } else {
                        branch_get(*old(self), k, depth as nat)
                    }) by {
                        lemma_slot_below_branches(k, depth as nat);
                    }
                    assert forall|k: usize| slot_of(k, depth as nat) == idx implies #[trigger] branch_get(*old(self), k, depth as nat)
                        == branch_get(old_child, k, (depth + 1) as nat) by {
                    }
                    assert forall|k: usize| #[trigger] branch_get(new_child, k, (depth + 1) as nat) is Some implies slot_of(
                        k,
                        depth as nat,
                    ) == idx by {
                        if k != key {
                            assert(branch_get(new_child, k, (depth + 1) as nat) == slot_get(old_slot, k, depth as nat));
                        }
                    }
                    assert forall|i: int| 0 <= i < 4 implies slot_wf(#[trigger] self.branches@[i], depth as nat, i) by {
                        assert(i != idx ==> self.branches@[i] == old(self).branches@[i]);
                    }
                }
                changed
            },
            Slot::Marker(marker) => {
                if marker.0 == pid.0 {
                    // Already has a marker for the process.
                    self.branches.set(idx, Slot::Marker(marker));
                    proof {
                        assert(self.branches@ =~= old(self).branches@);
                    }
                    0
                } else {
                    // Found a ready marker for another process.
                    let other = Slot::Marker(marker);
                    proof {
                        self.prepare_add_both(*old(self), other, key, idx, depth as nat);
                    }
                    self.add_both(ready_to_run(pid), other, w_pid, depth);
                    proof {
                        assert forall|k: usize| #[trigger]
                            branch_get(*self, k, depth as nat) == if k == key {
                                Some(Entry::Ready)
                            } else {
                                branch_get(*old(self), k, depth as nat)
                            } by {
                            lemma_slot_below_branches(k, depth as nat);
                        }
                    }
                    0
                }
            },
            Slot::Process(process) => {
                if key_of(&process) == pid.0 {
                    // Found the process, remove it.
                    let ghost p = *process;
                    run_queue.add(process);
                    proof {
                        assert(branch_get(*old(self), key, depth as nat) == Some(Entry::Waiting(p)));
                        assert forall|k: usize| #[trigger]
                            branch_get(*self, k, depth as nat) == if k == key {
                                None
                            } else {
                                branch_get(*old(self), k, depth as nat)
                            } by {
                            lemma_slot_below_branches(k, depth as nat);
                        }
                        assert forall|i: int| 0 <= i < 4 implies slot_wf(#[trigger] self.branches@[i], depth as nat, i) by {
                            assert(i != idx ==> self.branches@[i] == old(self).branches@[i]);
                        }
                    }
                    -1
                } else {
                    // Found another process.
                    let other = Slot::Process(process);
                    proof {
                        self.prepare_add_both(*old(self), other, key, idx, depth as nat);
                    }
                    self.add_both(ready_to_run(pid), other, w_pid, depth);
                    proof {
                        assert forall|k: usize| #[trigger]
                            branch_get(*self, k, depth as nat) == if k == key {
                                Some(Entry::Ready)
                            } else {
                                branch_get(*old(self), k, depth as nat)
                            } by {
                            lemma_slot_below_branches(k, depth as nat);
                        }
                    }
                    0
                }
            },
        }
    }

    /// Remove the ready marker of the process with id `pid` from this branch,
    /// at `depth`, if there is one.
    fn remove_marker(&mut self, pid: ProcessId, w_pid: usize, Ghost(depth): Ghost<nat>)
        requires
            branch_wf(*old(self), depth),
            w_pid == wpid(pid.0, depth),
        ensures
            branch_wf(*final(self), depth),
            forall|k: usize| #[trigger]
                branch_get(*final(self), k, depth) == if k == pid.0 && branch_get(*old(self), k, depth) == Some(
                    Entry::<S, P>::Ready,
                ) {
                    None
                } else {
                    branch_get(*old(self), k, depth)
                },
        decreases *old(self),
    {
        let idx = w_pid & LEVEL_MASK;
        proof {
            lemma_slot_below_branches(pid.0, depth);
        }
        let ghost old_slot = self.branches@[idx as int];
        let mut node = Slot::Empty;
        std::mem::swap(&mut node, &mut self.branches[idx]);
        match node {
            Slot::Marker(marker) => {
                if marker.0 == pid.0 {
                    // Found the marker, remove it.
                    proof {
                        assert forall|k: usize| #[trigger]
                            branch_get(*self, k, depth) == if k == pid.0 && branch_get(*old(self), k, depth) == Some(
                                Entry::<S, P>::Ready,
                            ) {
                                None
                            } else {
                                branch_get(*old(self), k, depth)
                            } by {
                            lemma_slot_below_branches(k, depth);
                        }
                        assert forall|i: int| 0 <= i < 4 implies slot_wf(#[trigger] self.branches@[i], depth, i) by {
                            assert(i != idx ==> self.branches@[i] == old(self).branches@[i]);
                        }
                    }
                } else {
                    self.branches.set(idx, Slot::Marker(marker));
                    proof {
                        assert(self.branches@ =~= old(self).branches@);
                    }
                }
            },
            Slot::Branch(mut next) => {
                // Try at the next level.
                let ghost old_next = *next;
                next.remove_marker(pid, w_pid >> LEVEL_SHIFT, Ghost(depth + 1));
                let ghost new_next = *next;
                self.branches.set(idx, Slot::Branch(next));
                proof {
                    assert forall|k: usize| #[trigger]
                        branch_get(*self, k, depth) == if k == pid.0 && branch_get(*old(self), k, depth) == Some(
                            Entry::<S, P>::Ready,
                        ) {
                            None
                        } else {
                            branch_get(*old(self), k, depth)
                        } by {
                        lemma_slot_below_branches(k, depth);
                        if slot_of(k, depth) == idx {
                            assert(branch_get(*self, k, depth) == branch_get(new_next, k, depth + 1));
                            assert(branch_get(*old(self), k, depth) == branch_get(old_next, k, depth + 1));
                        }
                    }
                    assert forall|k: usize| #[trigger] branch_get(new_next, k, depth + 1) is Some implies slot_of(k, depth)
                        == idx by {
                        assert(branch_get(new_next, k, depth + 1) is Some ==> branch_get(old_next, k, depth + 1) is Some);
                    }
                    assert forall|i: int| 0 <= i < 4 implies slot_wf(#[trigger] self.branches@[i], depth, i) by {
                        assert(i != idx ==> self.branches@[i] == old(self).branches@[i]);
                    }
                }
            },
            node => {
                // No marker for the process in the tree.
                self.branches.set(idx, node);
                proof {
                    assert(self.branches@ =~= old(self).branches@);
                }
            },
        }
    }

    /// The facts `add_both` needs when a process or marker for `key` meets
    /// `other` in slot `idx`, which was taken out of `old`.
    proof fn prepare_add_both(&self, old: Branch<S, P>, other: Slot<S, P>, key: usize, idx: usize, depth: nat)
        requires
            branch_wf(old, depth),
            self.branches@ == old.branches@.update(idx as int, Slot::Empty),
            old.branches@[idx as int] == other,
            is_leaf(other),
            idx == slot_of(key, depth),
            branch_get(old, key, depth) is None,
            on_path(old, key, depth),
        ensures
            branch_wf(*self, depth),
            valid_pid(leaf_key(other)),
            leaf_key(other) != key,
            same_path(key, leaf_key(other), depth + 1),
            forall|k: usize| slot_of(k, depth) != idx ==> #[trigger] branch_get(*self, k, depth) == branch_get(old, k, depth),
            forall|k: usize| slot_of(k, depth) == idx && k != leaf_key(other) ==> #[trigger] branch_get(old, k, depth) is None,
            branch_get(old, leaf_key(other), depth) == Some(leaf_entry(other)),
    {
        let o = leaf_key(other);
        lemma_slot_below_branches(key, depth);
        assert(slot_wf(old.branches@[idx as int], depth, idx as int));
        assert(slot_of(o, depth) == idx);
        assert(slot_get(other, o, depth) == Some(leaf_entry(other)));
        assert(branch_get(old, o, depth) == Some(leaf_entry(other)));
        assert(same_path(o, key, depth));
        assert forall|j: nat| j < depth + 1 implies #[trigger] slot_of(key, j) == slot_of(o, j) by {
            if j < depth {
                assert(slot_of(o, j) == slot_of(key, j));
            }
        }
        assert forall|i: int| 0 <= i < 4 implies slot_wf(#[trigger] self.branches@[i], depth, i) by {
            assert(i != idx ==> self.branches@[i] == old.branches@[i]);
        }
        assert forall|k: usize| slot_of(k, depth) != idx implies #[trigger] branch_get(*self, k, depth) == branch_get(old, k, depth) by {
            lemma_slot_below_branches(k, depth);
        }
    }
}

/// The pid of `process` as a number.
fn key_of<S, P>(process: &Box<Process<S, P>>) -> (key: usize)
    ensures
        key == process.key(),
{
    process.id().0
}

/// Inactive processes.
///
/// Implemented as a tree with `N_BRANCHES` slots on each level. A slot can be
/// one of four things:
///  * a `Branch`, which again contains `N_BRANCHES` slots,
///  * a process,
///  * a marker to indicate a process was marked as ready to run,
///  * or empty.
///
/// Indexing into the structure is done using the `ProcessId` of the process.
///
/// Because processes should have short ready state times (see process states),
/// but longer total lifetime they quickly move into and out from this
/// structure. To ensure operations remain quick we keep the structure of tree
/// in place when removing processes.
///
/// The implementation is effectively a hash set based on Hash Array Mapped Trie
/// (HAMT).
pub struct Inactive<S, P> {
    root: Branch<S, P>,
    /// The number of processes in the tree, **not** markers.
    length: usize,
    processes: Ghost<Map<usize, Process<S, P>>>,
    markers: Ghost<Set<usize>>,
}

impl<S, P> View for Inactive<S, P> {
    type V = (Map<usize, Process<S, P>>, Set<usize>);

    /// The inactive processes by pid, and the pids of the processes that were
    /// marked as ready to run while they were not in the tree.
    closed spec fn view(&self) -> (Map<usize, Process<S, P>>, Set<usize>) {
        (self.processes@, self.markers@)
    }
}

impl<S, P> Inactive<S, P> {
    /// The tree is well formed, holds exactly the processes and markers of its
    /// view, and `length` counts the processes.
    pub closed spec fn wf(&self) -> bool {
        &&& branch_wf(self.root, 0)
        &&& self.processes@.dom().finite()
        &&& self.length == self.processes@.len()
        &&& forall|pid: usize| #[trigger] self.processes@.contains_key(pid) ==> !self.markers@.contains(pid)
        &&& forall|pid: usize| #[trigger]
            branch_get(self.root, pid, 0) == if self.processes@.contains_key(pid) {
                Some(Entry::Waiting(self.processes@[pid]))
            } else if self.markers@.contains(pid) {
                Some(Entry::<S, P>::Ready)
            } else {
                None
            }
    }

    /// A pid is never both that of a process in the tree and marked as ready,
    /// and every process is stored under its own pid.
    pub proof fn lemma_disjoint(&self)
        requires
            self.wf(),
        ensures
            forall|pid: usize| #[trigger] self@.0.contains_key(pid) ==> !self@.1.contains(pid) && self@.0[pid].key() == pid,
    {
        assert forall|pid: usize| #[trigger] self@.0.contains_key(pid) implies !self@.1.contains(pid) && self@.0[pid].key()
            == pid by {
            lemma_branch_get_key(self.root, pid, 0);
        }
    }

    /// Create an empty `Inactive` tree.
    pub fn empty() -> (inactive: Inactive<S, P>)
        ensures
            inactive.wf(),
            inactive@.0 == Map::<usize, Process<S, P>>::empty(),
            inactive@.1 == Set::<usize>::empty(),
    {
        Inactive {
            root: Branch::empty(Ghost(0)),
            length: 0,
            processes: Ghost(Map::empty()),
            markers: Ghost(Set::empty()),
        }
    }

    /// Returns the number of processes in the inactive list.
    pub fn len(&self) -> (len: usize)
        requires
            self.wf(),
        ensures
            len == self@.0.len(),
    {
        self.length
    }

    /// Returns `true` if the tree contains a process.
    pub fn has_process(&self) -> (has_process: bool)
        requires
            self.wf(),
        ensures
            has_process == (self@.0.len() > 0),
    {
        self.length != 0
    }

    /// Update `length` with `n` added/removed processes.
    fn update_length(&mut self, n: isize)
        requires
            n > isize::MIN,
            0 <= old(self).length + n <= usize::MAX,
        ensures
            final(self).length == old(self).length + n,
            final(self).root == old(self).root,
            final(self).processes == old(self).processes,
            final(self).markers == old(self).markers,
    {
        if n == 0 {
        } else if n < 0 {
            self.length = self.length - ((-n) as usize);
        } else {
            self.length = self.length + (n as usize);
        }
    }
}

impl<S: Schedule, P> Inactive<S, P> {
    /// Attempts to add the `process`.
    ///
    /// It will add `process` to `run_queue` if it was marked as ready-to-run
    /// while it was removed from the `Inactive` tree.
    pub fn add(&mut self, process: Process<S, P>, run_queue: &mut RunQueue<S, P>)
        requires
            old(self).wf(),
            old(run_queue).wf(),
            valid_pid(process.key()),
            !old(self)@.0.contains_key(process.key()),
            old(self)@.0.len() < usize::MAX,
        ensures
            final(self).wf(),
            final(run_queue).wf(),
            old(self)@.1.contains(process.key()) ==> {
                &&& final(self)@.0 == old(self)@.0
                &&& final(self)@.1 == old(self)@.1.remove(process.key())
                &&& inserted_by_rank(final(run_queue)@, old(run_queue)@, process)
            },
            !old(self)@.1.contains(process.key()) ==> {
                &&& final(self)@.0 == old(self)@.0.insert(process.key(), process)
                &&& final(self)@.1 == old(self)@.1
                &&& final(run_queue)@ == old(run_queue)@
            },
    {
        let pid = process.id();
        let ghost key = process.key();
        let changed = self.root._add(Box::new(process), pid.0 >> SKIP_BITS, 0, run_queue);
        self.update_length(changed);
        if changed == 0 {
            proof {
                self.markers@ = self.markers@.remove(key);
                assert forall|k: usize| #[trigger]
                    branch_get(self.root, k, 0) == if self.processes@.contains_key(k) {
                        Some(Entry::Waiting(self.processes@[k]))
                    } else if self.markers@.contains(k) {
                        Some(Entry::<S, P>::Ready)
                    } else {
                        None
                    } by {
                }
            }
        } else {
            proof {
                self.processes@ = self.processes@.insert(key, process);
                assert forall|k: usize| #[trigger]
                    branch_get(self.root, k, 0) == if self.processes@.contains_key(k) {
                        Some(Entry::Waiting(self.processes@[k]))
                    } else if self.markers@.contains(k) {
                        Some(Entry::<S, P>::Ready)
                    } else {
                        None
                    } by {
                }
            }
        }
    }

    /// Mark the process with id `pid` as ready to run: if it's in the tree it
    /// is moved to `run_queue`, otherwise it's marked as ready and
    /// [`Inactive::add`] will move it to the run queue once it's added back.
    pub fn mark_ready(&mut self, pid: ProcessId, run_queue: &mut RunQueue<S, P>)
        requires
            old(self).wf(),
            old(run_queue).wf(),
            valid_pid(pid.0),
        ensures
            final(self).wf(),
            final(run_queue).wf(),
            old(self)@.0.contains_key(pid.0) ==> {
                &&& final(self)@.0 == old(self)@.0.remove(pid.0)
                &&& final(self)@.1 == old(self)@.1
                &&& inserted_by_rank(final(run_queue)@, old(run_queue)@, old(self)@.0[pid.0])
            },
            !old(self)@.0.contains_key(pid.0) ==> {
                &&& final(self)@.0 == old(self)@.0
                &&& final(self)@.1 == old(self)@.1.insert(pid.0)
                &&& final(run_queue)@ == old(run_queue)@
            },
    {
        let changed = self.root._mark_ready(pid, pid.0 >> SKIP_BITS, 0, run_queue);
        self.update_length(changed);
        proof {
            if self.processes@.contains_key(pid.0) {
                self.processes@ = self.processes@.remove(pid.0);
            } else {
                self.markers@ = self.markers@.insert(pid.0);
            }
            assert forall|k: usize| #[trigger]
                branch_get(self.root, k, 0) == if self.processes@.contains_key(k) {
                    Some(Entry::Waiting(self.processes@[k]))
                } else if self.markers@.contains(k) {
                    Some(Entry::<S, P>::Ready)
                } else {
                    None
                } by {
            }
        }
    }

    /// Mark `process` as complete, removing a ready marker from the tree.
    pub fn complete(&mut self, process: Process<S, P>)
        requires
            old(self).wf(),
        ensures
            final(self).wf(),
            final(self)@.0 == old(self)@.0,
            final(self)@.1 == old(self)@.1.remove(process.key()),
    {
        let pid = process.id();
        self.root.remove_marker(pid, pid.0 >> SKIP_BITS, Ghost(0));
        proof {
            self.markers@ = self.markers@.remove(pid.0);
            assert forall|k: usize| #[trigger]
                branch_get(self.root, k, 0) == if self.processes@.contains_key(k) {
                    Some(Entry::Waiting(self.processes@[k]))
                } else if self.markers@.contains(k) {
                    Some(Entry::<S, P>::Ready)
                } else {
                    None
                } by {
            }
        }
    }
}

} // verus!
