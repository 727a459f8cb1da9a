//! Inactive processes of the thread-local scheduler.
//!
//! See [`Inactive`].

use vstd::prelude::*;

use crate::scheduler::process::Process;
use crate::setup::scheduler::ProcessId;

verus! {

/// Number of bits to shift per level.
pub const LEVEL_SHIFT: usize = 4;
/// Number of branches per level of the tree, must be a power of 2.
pub const N_BRANCHES: usize = 16;
/// Number of bits to mask per level.
pub const LEVEL_MASK: usize = 15;
/// The two least significant bits of a process id are always 0, so we can
/// safely skip them.
pub const SKIP_BITS: usize = 2;
/// Mask of the bits we skip.
pub const SKIP_MASK: usize = 3;

/// The bits of `pid` that select the slots at `depth` and below: `pid` shifted
/// right by `SKIP_BITS` and then by `LEVEL_SHIFT` per level.
pub open spec fn wpid(pid: usize, depth: nat) -> usize
    decreases depth,
{
    if depth == 0 {
        pid >> 2usize
    } else {
        wpid(pid, (depth - 1) as nat) >> 4usize
    }
}

/// The slot `pid` takes in a branch at `depth`.
pub open spec fn slot_of(pid: usize, depth: nat) -> usize {
    wpid(pid, depth) & 15usize
}

/// Whether the bits of `pid` we skip are zero, as they are for any valid pid.
pub open spec fn valid_pid(pid: usize) -> bool {
    pid & 3usize == 0
}

/// Returns `false` if `pid`'s `SKIP_BITS` aren't valid.
pub fn ok_pid(pid: ProcessId) -> (ok: bool)
    ensures
        ok == valid_pid(pid.0),
{
    pid.0 & SKIP_MASK == 0
}

/// A slot index is below `N_BRANCHES`.
pub proof fn lemma_slot_below_branches(pid: usize, depth: nat)
    ensures
        slot_of(pid, depth) < 16,
{
    let w = wpid(pid, depth);
    assert(w & 15usize < 16usize) by (bit_vector);
}

/// Shifting the working pid by `k` more levels gives the working pid `k`
/// levels deeper.
pub proof fn lemma_wpid_shift(pid: usize, depth: nat, k: nat)
    requires
        4 * k < usize::BITS,
    ensures
        wpid(pid, depth) >> ((4 * k) as usize) == wpid(pid, depth + k),
    decreases k,
{
    if k == 0 {
        let w = wpid(pid, depth);
        assert(w >> 0usize == w) by (bit_vector);
    } else {
        lemma_wpid_shift(pid, depth, (k - 1) as nat);
        let w = wpid(pid, depth);
        let s = (4 * (k - 1)) as usize;
        assert(s + 4 < usize::BITS ==> (w >> s) >> 4usize == w >> ((s + 4) as usize)) by (bit_vector);
        assert(wpid(pid, depth + k) == wpid(pid, (depth + k - 1) as nat) >> 4usize);
    }
}

/// The working pid at `depth` is `pid` shifted right by `SKIP_BITS` and
/// `LEVEL_SHIFT` per level.
pub proof fn lemma_wpid_is_shift(pid: usize, depth: nat)
    requires
        4 * depth + 2 < usize::BITS,
    ensures
        wpid(pid, depth) == pid >> ((4 * depth + 2) as usize),
{
    lemma_wpid_shift(pid, 0, depth);
    let k = (4 * depth) as usize;
    assert(k + 2 < usize::BITS ==> (pid >> 2usize) >> k == pid >> ((k + 2) as usize)) by (bit_vector);
}

/// Working pids that agree in their lowest slot but differ, still differ one
/// level deeper and are not both zero there.
proof fn lemma_differ_deeper(w1: usize, w2: usize, s: usize)
    requires
        w1 != w2,
        w1 & 15usize == w2 & 15usize,
        s < usize::BITS,
        w1 >> s == 0usize,
        w2 >> s == 0usize,
    ensures
        w1 >> 4usize != w2 >> 4usize,
        s > 4,
        (w1 >> 4usize) >> ((s - 4) as usize) == 0usize,
        (w2 >> 4usize) >> ((s - 4) as usize) == 0usize,
{
    assert(w1 != w2 && w1 & 15usize == w2 & 15usize ==> w1 >> 4usize != w2 >> 4usize) by (bit_vector);
    assert(w1 != w2 && w1 & 15usize == w2 & 15usize ==> (w1 >> 4usize != 0usize || w2 >> 4usize != 0usize))
        by (bit_vector);
    assert(s <= 4usize && w1 >> s == 0usize ==> w1 >> 4usize == 0usize) by (bit_vector);
    assert(s <= 4usize && w2 >> s == 0usize ==> w2 >> 4usize == 0usize) by (bit_vector);
    assert(4usize < s && s < usize::BITS && w1 >> s == 0usize ==> (w1 >> 4usize) >> ((s - 4) as usize) == 0usize)
        by (bit_vector);
    assert(4usize < s && s < usize::BITS && w2 >> s == 0usize ==> (w2 >> 4usize) >> ((s - 4) as usize) == 0usize)
        by (bit_vector);
}

/// Returns the depth at which `pid1` and `pid2` use different branches: they
/// take the same slot at every smaller depth and a different one at the
/// returned depth. Pids that differ only in the skipped bits never use
/// different branches: for them the depth is a quarter of `usize::BITS`.
pub fn diff_branch_depth(pid1: ProcessId, pid2: ProcessId) -> (depth: usize)
    requires
        pid1 != pid2,
    ensures
        pid1.0 >> 2usize == pid2.0 >> 2usize ==> depth == usize::BITS / 4,
        pid1.0 >> 2usize != pid2.0 >> 2usize ==> {
            &&& 4 * depth + 2 < usize::BITS
            &&& forall|j: nat| j < depth ==> slot_of(pid1.0, j) == slot_of(pid2.0, j)
            &&& slot_of(pid1.0, depth as nat) != slot_of(pid2.0, depth as nat)
        },
{
    let p1 = pid1.0;
    let p2 = pid2.0;
    let mut w1 = p1 >> SKIP_BITS;
    let mut w2 = p2 >> SKIP_BITS;
    if w1 == w2 {
        return (usize::BITS / 4) as usize;
    }
    let mut depth: usize = 0;
    proof {
        let b = (usize::BITS - 2) as usize;
        assert(b == usize::BITS - 2 ==> (p1 >> 2usize) >> b == 0usize) by (bit_vector);
        assert(b == usize::BITS - 2 ==> (p2 >> 2usize) >> b == 0usize) by (bit_vector);
    }
    while (w1 & LEVEL_MASK) == (w2 & LEVEL_MASK)
        invariant
            w1 == wpid(p1, depth as nat),
            w2 == wpid(p2, depth as nat),
            w1 != w2,
            4 * depth + 2 < usize::BITS,
            w1 >> ((usize::BITS - 2 - 4 * depth) as usize) == 0usize,
            w2 >> ((usize::BITS - 2 - 4 * depth) as usize) == 0usize,
            forall|j: nat| j < depth ==> slot_of(p1, j) == slot_of(p2, j),
        decreases usize::BITS - 4 * depth,
    {
        proof {
            lemma_differ_deeper(w1, w2, (usize::BITS - 2 - 4 * depth) as usize);
        }
        w1 = w1 >> LEVEL_SHIFT;
        w2 = w2 >> LEVEL_SHIFT;
        depth = depth + 1;
    }
    depth
}

/// Skip the bits up to `depth`: the working pid of `pid` at `depth`.
pub fn skip_bits(pid: ProcessId, depth: usize) -> (w_pid: usize)
    requires
        4 * depth + 2 < usize::BITS,
    ensures
        w_pid == wpid(pid.0, depth as nat),
{
    proof {
        lemma_wpid_is_shift(pid.0, depth as nat);
    }
    pid.0 >> ((depth * LEVEL_SHIFT) + SKIP_BITS)
}

/// A slot in a branch of the tree: empty, a process, or a branch one level
/// deeper.
pub enum Slot<S, P> {
    /// Nothing in this slot.
    Empty,
    /// A process.
    Process(Box<Process<S, P>>),
    /// A branch one level deeper.
    Branch(Box<Branch<S, P>>),
}

/// A level of the tree, holding `N_BRANCHES` slots.
pub struct Branch<S, P> {
    branches: Vec<Slot<S, P>>,
}

/// The process with id `pid` that `slot`, at `depth`, holds, if any.
pub closed spec fn slot_get<S, P>(slot: Slot<S, P>, pid: usize, depth: nat) -> Option<Process<S, P>>
    decreases slot,
{
    match slot {
        Slot::Empty => None,
        Slot::Process(process) => if process.key() == pid {
            Some(*process)
        } else {
            None
        },
        Slot::Branch(branch) => branch_get(*branch, pid, depth + 1),
    }
}

/// The process with id `pid` that `branch`, at `depth`, holds, if any: the
/// one found by following the slots that `pid` selects.
pub closed spec fn branch_get<S, P>(branch: Branch<S, P>, pid: usize, depth: nat) -> Option<Process<S, P>>
    decreases branch,
{
    let i = slot_of(pid, depth) as int;
    if 0 <= i < branch.branches@.len() {
        slot_get(branch.branches@[i], pid, depth)
    } else {
        None
    }
}

/// `slot`, at `index` of a branch at `depth`, is well formed: a process sits
/// in the slot its pid selects and a branch only holds processes whose pid
/// selects `index`.
pub closed spec fn slot_wf<S, P>(slot: Slot<S, P>, depth: nat, index: int) -> bool
    decreases slot,
{
    match slot {
        Slot::Empty => true,
        Slot::Process(process) => slot_of(process.key(), depth) == index && valid_pid(process.key()),
        Slot::Branch(branch) => {
            &&& 4 * (depth + 1) + 2 < usize::BITS
            &&& branch_wf(*branch, depth + 1)
            &&& forall|pid: usize| #[trigger] branch_get(*branch, pid, depth + 1) is Some ==> slot_of(pid, depth) == index
        },
    }
}

/// `branch`, at `depth`, is well formed: it has `N_BRANCHES` well formed
/// slots.
pub closed spec fn branch_wf<S, P>(branch: Branch<S, P>, depth: nat) -> bool
    decreases branch,
{
    &&& branch.branches@.len() == 16
    &&& forall|i: int| 0 <= i < 16 ==> slot_wf(#[trigger] branch.branches@[i], depth, i)
}


/// `a` and `b` take the same slots at every depth below `depth`.
pub open spec fn same_path(a: usize, b: usize, depth: nat) -> bool {
    forall|j: nat| j < depth ==> #[trigger] slot_of(a, j) == slot_of(b, j)
}

/// Every process in `branch`, at `depth`, took the same slots as `pid` to get
/// there.
pub closed spec fn on_path<S, P>(branch: Branch<S, P>, pid: usize, depth: nat) -> bool {
    forall|k: usize| #[trigger] branch_get(branch, k, depth) is Some ==> same_path(k, pid, depth)
}

/// A process found in a slot has the pid it was looked up by.
proof fn lemma_slot_get_key<S, P>(slot: Slot<S, P>, pid: usize, depth: nat)
    ensures
        slot_get(slot, pid, depth) is Some ==> slot_get(slot, pid, depth).unwrap().key() == pid,
    decreases slot,
{
    match slot {
        Slot::Branch(branch) => lemma_branch_get_key(*branch, pid, depth + 1),
        _ => {},
    }
}

/// A process found in a branch has the pid it was looked up by.
proof fn lemma_branch_get_key<S, P>(branch: Branch<S, P>, pid: usize, depth: nat)
    ensures
        branch_get(branch, pid, depth) is Some ==> branch_get(branch, pid, depth).unwrap().key() == pid,
    decreases branch,
{
    let i = slot_of(pid, depth) as int;
    if 0 <= i < branch.branches@.len() {
        lemma_slot_get_key(branch.branches@[i], pid, depth);
    }
}

impl<S, P> Branch<S, P> {
    /// Create an empty `Branch`.
    fn empty(Ghost(depth): Ghost<nat>) -> (branch: Branch<S, P>)
        ensures
            branch_wf(branch, depth),
            branch.branches@.len() == 16,
            forall|i: int| 0 <= i < 16 ==> #[trigger] branch.branches@[i] is Empty,
            forall|pid: usize| #[trigger] branch_get(branch, pid, depth) is None,
    {
        let mut branches: Vec<Slot<S, P>> = Vec::new();
        while branches.len() < N_BRANCHES
            invariant
                branches@.len() <= 16,
                forall|i: int| 0 <= i < branches@.len() ==> #[trigger] branches@[i] is Empty,
            decreases 16 - branches@.len(),
        {
            branches.push(Slot::Empty);
        }
        let branch = Branch { branches };
        assert forall|pid: usize| #[trigger] branch_get(branch, pid, depth) is None by {
            lemma_slot_below_branches(pid, depth);
        }
        branch
    }

    /// Add `process` to this branch at `depth`. `w_pid` is the working pid of
    /// the process at `depth`.
    fn add(&mut self, process: Box<Process<S, P>>, w_pid: usize, depth: usize)
        requires
            branch_wf(*old(self), depth as nat),
            4 * depth + 2 < usize::BITS,
            w_pid == wpid(process.key(), depth as nat),
            valid_pid(process.key()),
            branch_get(*old(self), process.key(), depth as nat) is None,
            on_path(*old(self), process.key(), depth as nat),
        ensures
            branch_wf(*final(self), depth as nat),
            forall|k: usize| #[trigger]
                branch_get(*final(self), k, depth as nat) == if k == process.key() {
                    Some(*process)
                } else {
                    branch_get(*old(self), k, depth as nat)
                },
        decreases *old(self),
    {
        let ghost key = process.key();
        let idx = w_pid & LEVEL_MASK;
        proof {
            lemma_slot_below_branches(key, depth as nat);
        }
        let ghost old_slot = self.branches@[idx as int];
        let mut node = Slot::Empty;
        std::mem::swap(&mut node, &mut self.branches[idx]);
        match node {
            Slot::Process(other_process) => {
                proof {
                    let other = other_process.key();
                    assert(branch_get(*old(self), other, depth as nat) == Some(*other_process));
                    assert(same_path(other, key, depth as nat));
                    assert(other != key);
                    assert forall|j: nat| j < (depth + 1) as nat implies #[trigger] slot_of(key, j) == slot_of(other, j) by {
                        if j < depth {
                            assert(slot_of(other, j) == slot_of(key, j));
                        }
                    }
                    assert forall|i: int| 0 <= i < 16 implies slot_wf(#[trigger] self.branches@[i], depth as nat, i) by {
                        assert(i != idx ==> self.branches@[i] == old(self).branches@[i]);
                    }
                }
                self.add_both(process, other_process, w_pid, depth);
                proof {
                    assert forall|k: usize| #[trigger]
                        branch_get(*self, k, depth as nat) == if k == key {
                            Some(*process)
                        } else {
                            branch_get(*old(self), k, depth as nat)
                        } by {
                        lemma_slot_below_branches(k, depth as nat);
                    }
                }
            },
            Slot::Branch(mut child) => {
                let ghost old_child = *child;
                proof {
                    assert(branch_get(old_child, key, (depth + 1) as nat) is None);
                    assert forall|k: usize| #[trigger] branch_get(old_child, k, (depth + 1) as nat) is Some implies same_path(
                        k,
                        key,
                        (depth + 1) as nat,
                    ) by {
                        assert(slot_of(k, depth as nat) == idx);
                        assert(branch_get(*old(self), k, depth as nat) == branch_get(old_child, k, (depth + 1) as nat));
                        assert forall|j: nat| j < (depth + 1) as nat implies #[trigger] slot_of(k, j) == slot_of(key, j) by {
                            if j < depth {
                                assert(same_path(k, key, depth as nat));
                            }
                        }
                    }
                }
                child.add(process, w_pid >> LEVEL_SHIFT, depth + 1);
                let ghost new_child = *child;
                self.branches.set(idx, Slot::Branch(child));
                proof {
                    assert forall|k: usize| #[trigger]
                        branch_get(*self, k, depth as nat) == if k == key {
                            Some(*process)
                        } else {
                            branch_get(*old(self), k, depth as nat)
                        } by {
                        lemma_slot_below_branches(k, depth as nat);
                        if slot_of(k, depth as nat) == idx {
                            assert(branch_get(*self, k, depth as nat) == branch_get(new_child, k, (depth + 1) as nat));
                            assert(branch_get(*old(self), k, depth as nat) == branch_get(old_child, k, (depth + 1) as nat));
                        }
                    }
                    assert forall|k: usize| #[trigger] branch_get(new_child, k, (depth + 1) as nat) is Some implies slot_of(
                        k,
                        depth as nat,
                    ) == idx by {
                        if k != key {
                            assert(branch_get(new_child, k, (depth + 1) as nat) == slot_get(old_slot, k, depth as nat));
                        }
                    }
                    assert forall|i: int| 0 <= i < 16 implies slot_wf(#[trigger] self.branches@[i], depth as nat, i) by {
                        assert(i != idx ==> self.branches@[i] == old(self).branches@[i]);
                    }
                }
            },
            Slot::Empty => {
                self.branches.set(idx, Slot::Process(process));
                proof {
                    assert forall|k: usize| #[trigger]
                        branch_get(*self, k, depth as nat) == if k == key {
                            Some(*process)
                        } else {
                            branch_get(*old(self), k, depth as nat)
                        } by {
                        lemma_slot_below_branches(k, depth as nat);
                    }
                    assert forall|i: int| 0 <= i < 16 implies slot_wf(#[trigger] self.branches@[i], depth as nat, i) by {
                        assert(i != idx ==> self.branches@[i] == old(self).branches@[i]);
                    }
                }
            },
        }
    }

    /// Add two processes at a time.
    ///
    /// Used when a process is added but another process is encountered at the
    /// end of a branch. Instead of adding one process (by creating a new level)
    /// and then add the other, possibly creating another conflict. We first
    /// create enough levels to not have conflicting branches and then add both
    /// processes.
    fn add_both(
        &mut self,
        process1: Box<Process<S, P>>,
        process2: Box<Process<S, P>>,
        w_pid: usize,
        depth: usize,
    )
        requires
            branch_wf(*old(self), depth as nat),
            4 * depth + 2 < usize::BITS,
            w_pid == wpid(process1.key(), depth as nat),
            old(self).branches@[(w_pid & 15usize) as int] is Empty,
            valid_pid(process1.key()),
            valid_pid(process2.key()),
            process1.key() != process2.key(),
            same_path(process1.key(), process2.key(), (depth + 1) as nat),
        ensures
            branch_wf(*final(self), depth as nat),
            forall|k: usize| #[trigger]
                branch_get(*final(self), k, depth as nat) == if k == process1.key() {
                    Some(*process1)
                } else if k == process2.key() {
                    Some(*process2)
                } else {
                    branch_get(*old(self), k, depth as nat)
                },
    {
        let ghost key1 = process1.key();
        let ghost key2 = process2.key();
        let ghost p1 = *process1;
        let ghost p2 = *process2;
        let idx = w_pid & LEVEL_MASK;
        let pid1 = process1.id();
        let pid2 = process2.id();
        // Required depth to go were the pointers are in different slots.
        proof {
            assert(key1 & 3usize == 0usize && key2 & 3usize == 0usize && key1 != key2 ==> key1 >> 2usize
                != key2 >> 2usize) by (bit_vector);
        }
        let req_depth = diff_branch_depth(pid1, pid2);
        proof {
            lemma_slot_below_branches(key1, depth as nat);
            if req_depth <= depth {
                assert(slot_of(key1, req_depth as nat) == slot_of(key2, req_depth as nat));
            }
        }
        // Build the part of the branch in reverse, starting at the lowest
        // branch.
        let mut branch = Branch::empty(Ghost(req_depth as nat));
        let w_pid1 = skip_bits(pid1, req_depth);
        let w_pid2 = skip_bits(pid2, req_depth);
        proof {
            lemma_slot_below_branches(key1, req_depth as nat);
            lemma_slot_below_branches(key2, req_depth as nat);
        }
        branch.branches.set(w_pid1 & LEVEL_MASK, Slot::Process(process1));
        branch.branches.set(w_pid2 & LEVEL_MASK, Slot::Process(process2));
        proof {
            let i1 = slot_of(key1, req_depth as nat) as int;
            let i2 = slot_of(key2, req_depth as nat) as int;
            assert forall|i: int| 0 <= i < 16 implies slot_wf(#[trigger] branch.branches@[i], req_depth as nat, i) by {
                if i != i1 && i != i2 {
                    assert(branch.branches@[i] is Empty);
                }
            }
            assert forall|k: usize| #[trigger]
                branch_get(branch, k, req_depth as nat) == if k == key1 {
                    Some(p1)
                } else if k == key2 {
                    Some(p2)
                } else {
                    None::<Process<S, P>>
                } by {
                lemma_slot_below_branches(k, req_depth as nat);
            }
        }
        // Build up to route to the branch.
        let mut d = depth + 1;
        while d < req_depth
            invariant
                depth < d <= req_depth,
                4 * req_depth + 2 < usize::BITS,
                w_pid == wpid(key1, depth as nat),
                forall|j: nat| j < req_depth ==> slot_of(key1, j) == slot_of(key2, j),
                branch_wf(branch, (depth + req_depth + 1 - d) as nat),
                forall|k: usize| #[trigger]
                    branch_get(branch, k, (depth + req_depth + 1 - d) as nat) == if k == key1 {
                        Some(p1)
                    } else if k == key2 {
                        Some(p2)
                    } else {
                        None::<Process<S, P>>
                    },
            decreases req_depth - d,
        {
            let ghost cur = (depth + req_depth + 1 - d) as nat;
            proof {
                lemma_wpid_shift(key1, depth as nat, (req_depth - d) as nat);
                lemma_slot_below_branches(key1, (cur - 1) as nat);
            }
            let index = (w_pid >> ((req_depth - d) * LEVEL_SHIFT)) & LEVEL_MASK;
            let mut outer = Branch::empty(Ghost((cur - 1) as nat));
            let ghost inner = branch;
            outer.branches.set(index, Slot::Branch(Box::new(branch)));
            branch = outer;
            proof {
                assert(slot_of(key1, (cur - 1) as nat) == slot_of(key2, (cur - 1) as nat));
                assert forall|k: usize| #[trigger] branch_get(inner, k, cur) is Some implies slot_of(k, (cur - 1) as nat)
                    == index by {
                }
                assert forall|i: int| 0 <= i < 16 implies slot_wf(#[trigger] branch.branches@[i], (cur - 1) as nat, i) by {
                    if i != index {
                        assert(branch.branches@[i] is Empty);
                    }
                }
                assert forall|k: usize| #[trigger]
                    branch_get(branch, k, (cur - 1) as nat) == if k == key1 {
                        Some(p1)
                    } else if k == key2 {
                        Some(p2)
                    } else {
                        None::<Process<S, P>>
                    } by {
                    lemma_slot_below_branches(k, (cur - 1) as nat);
                    if slot_of(k, (cur - 1) as nat) == index {
                        assert(branch_get(branch, k, (cur - 1) as nat) == branch_get(inner, k, cur));
                    }
                }
            }
            d = d + 1;
        }
        let ghost last = branch;
        self.branches.set(idx, Slot::Branch(Box::new(branch)));
        proof {
            assert(slot_of(key2, depth as nat) == slot_of(key1, depth as nat));
            assert forall|k: usize| #[trigger] branch_get(last, k, (depth + 1) as nat) is Some implies slot_of(k, depth as nat)
                == idx by {
            }
            assert forall|i: int| 0 <= i < 16 implies slot_wf(#[trigger] self.branches@[i], depth as nat, i) by {
                assert(i != idx ==> self.branches@[i] == old(self).branches@[i]);
            }
            assert forall|k: usize| #[trigger]
                branch_get(*self, k, depth as nat) == if k == key1 {
                    Some(p1)
                } else if k == key2 {
                    Some(p2)
                } else {
                    branch_get(*old(self), k, depth as nat)
                } by {
                lemma_slot_below_branches(k, depth as nat);
                if slot_of(k, depth as nat) == idx {
                    assert(branch_get(*self, k, depth as nat) == branch_get(last, k, (depth + 1) as nat));
                }
            }
        }
    }

    /// Removes the process with id `pid`, if it's in this branch at `depth`.
    /// `w_pid` is the working pid of `pid` at `depth`.
    fn remove(&mut self, pid: ProcessId, w_pid: usize, Ghost(depth): Ghost<nat>) -> (removed: Option<
        Box<Process<S, P>>,
    >)
        requires
            branch_wf(*old(self), depth),
            w_pid == wpid(pid.0, depth),
        ensures
            branch_wf(*final(self), depth),
            match removed {
                Some(process) => branch_get(*old(self), pid.0, depth) == Some(*process),
                None => branch_get(*old(self), pid.0, depth) is None,
            },
            forall|k: usize| #[trigger]
                branch_get(*final(self), k, depth) == if k == pid.0 {
                    None
                } else {
                    branch_get(*old(self), k, depth)
                },
        decreases *old(self),
    {
        let idx = w_pid & LEVEL_MASK;
        proof {
            lemma_slot_below_branches(pid.0, depth);
        }
        let ghost old_slot = self.branches@[idx as int];
        let mut node = Slot::Empty;
        std::mem::swap(&mut node, &mut self.branches[idx]);
        match node {
            Slot::Process(process) => {
                if process.id().0 == pid.0 {
                    proof {
                        assert forall|k: usize| #[trigger]
                            branch_get(*self, k, depth) == if k == pid.0 {
                                None
                            } else {
                                branch_get(*old(self), k, depth)
                            } by {
                            lemma_slot_below_branches(k, depth);
                        }
                        assert forall|i: int| 0 <= i < 16 implies slot_wf(#[trigger] self.branches@[i], depth, i) by {
                            assert(i != idx ==> self.branches@[i] == old(self).branches@[i]);
                        }
                    }
                    Some(process)
                } else {
                    self.branches.set(idx, Slot::Process(process));
                    proof {
                        assert(self.branches@ =~= old(self).branches@);
                    }
                    None
                }
            },
            Slot::Branch(mut next) => {
                let ghost old_next = *next;
                let removed = next.remove(pid, w_pid >> LEVEL_SHIFT, Ghost(depth + 1));
                let ghost new_next = *next;
                self.branches.set(idx, Slot::Branch(next));
                proof {
                    assert forall|k: usize| #[trigger]
                        branch_get(*self, k, depth) == if k == pid.0 {
                            None
                        } else {
                            branch_get(*old(self), k, depth)
                        } by {
                        lemma_slot_below_branches(k, depth);
                        if slot_of(k, depth) == idx {
                            assert(branch_get(*self, k, depth) == branch_get(new_next, k, depth + 1));
                            assert(branch_get(*old(self), k, depth) == branch_get(old_next, k, depth + 1));
                        }
                    }
                    assert forall|k: usize| #[trigger] branch_get(new_next, k, depth + 1) is Some implies slot_of(k, depth)
                        == idx by {
                        if k != pid.0 {
                            assert(branch_get(new_next, k, depth + 1) == slot_get(old_slot, k, depth));
                        }
                    }
                    assert forall|i: int| 0 <= i < 16 implies slot_wf(#[trigger] self.branches@[i], depth, i) by {
                        assert(i != idx ==> self.branches@[i] == old(self).branches@[i]);
                    }
                }
                removed
            },
            Slot::Empty => {
                proof {
                    assert(self.branches@ =~= old(self).branches@);
                }
                None
            },
        }
    }
}

/// Inactive processes.
///
/// Implemented as a tree with `N_BRANCHES` slots on each level. A slot can hold
/// a `Branch`, which again contains `N_BRANCHES` slots, or a `Process`.
///
/// Indexing into the structure is done using the `ProcessId` of the process:
/// at each level `LEVEL_SHIFT` bits of the pid, after the `SKIP_BITS`, select
/// the slot.
///
/// Because processes should have short ready state times (see process states),
/// but longer total lifetime they quickly move into and out from the structure.
/// To ensure operations remain quick we keep the structure of tree in place
/// when removing processes.
///
/// The implementation is effectively a hash set based on Hash array mapped trie
/// (HAMT).
pub struct Inactive<S, P> {
    root: Branch<S, P>,
    length: usize,
    processes: Ghost<Map<usize, Process<S, P>>>,
}

impl<S, P> View for Inactive<S, P> {
    type V = Map<usize, Process<S, P>>;

    /// The processes in the tree, by pid.
    closed spec fn view(&self) -> Map<usize, Process<S, P>> {
        self.processes@
    }
}

impl<S, P> Inactive<S, P> {
    /// The tree is well formed, holds exactly the processes of its view, and
    /// `length` counts them.
    pub closed spec fn wf(&self) -> bool {
        &&& branch_wf(self.root, 0)
        &&& self.processes@.dom().finite()
        &&& self.length == self.processes@.len()
        &&& forall|pid: usize| #[trigger]
            branch_get(self.root, pid, 0) == if self.processes@.contains_key(pid) {
                Some(self.processes@[pid])
            } else {
                None
            }
    }

    /// Every process in the tree has a valid pid and is stored under it.
    pub proof fn lemma_valid_pids(&self)
        requires
            self.wf(),
        ensures
            forall|pid: usize| #[trigger] self@.contains_key(pid) ==> self@[pid].key() == pid,
    {
        assert forall|pid: usize| #[trigger] self@.contains_key(pid) implies self@[pid].key() == pid by {
            lemma_branch_get_key(self.root, pid, 0);
        }
    }

    /// Create an empty `Inactive` tree.
    pub fn empty() -> (inactive: Inactive<S, P>)
        ensures
            inactive.wf(),
            inactive@ == Map::<usize, Process<S, P>>::empty(),
    {
        Inactive { root: Branch::empty(Ghost(0)), length: 0, processes: Ghost(Map::empty()) }
    }

    /// Returns the number of processes in the inactive list.
    pub fn len(&self) -> (len: usize)
        requires
            self.wf(),
        ensures
            len == self@.len(),
    {
        self.length
    }

    /// Add a `process`.
    pub fn add(&mut self, process: Process<S, P>)
        requires
            old(self).wf(),
            valid_pid(process.key()),
            !old(self)@.contains_key(process.key()),
            old(self)@.len() < usize::MAX,
        ensures
            final(self).wf(),
            final(self)@ == old(self)@.insert(process.key(), process),
    {
        let pid = process.id();
        let ghost key = process.key();
        proof {
            assert(branch_get(self.root, key, 0) is None);
        }
        self.root.add(Box::new(process), pid.0 >> SKIP_BITS, 0);
        self.length = self.length + 1;
        self.processes = Ghost(self.processes@.insert(key, process));
    }

    /// Removes the process with id `pid`, if any.
    pub fn remove(&mut self, pid: ProcessId) -> (removed: Option<Box<Process<S, P>>>)
        requires
            old(self).wf(),
        ensures
            final(self).wf(),
            match removed {
                Some(process) => old(self)@.contains_key(pid.0) && *process == old(self)@[pid.0],
                None => !old(self)@.contains_key(pid.0),
            },
            final(self)@ == old(self)@.remove(pid.0),
    {
        let removed = self.root.remove(pid, pid.0 >> SKIP_BITS, Ghost(0));
        if removed.is_some() {
            self.length = self.length - 1;
        }
        self.processes = Ghost(self.processes@.remove(pid.0));
        proof {
            assert forall|k: usize| #[trigger]
                branch_get(self.root, k, 0) == if self.processes@.contains_key(k) {
                    Some(self.processes@[k])
                } else {
                    None
                } by {
            }
        }
        removed
    }
}

/// Removing a process that was added gives that process back, and leaves the
/// inactive processes as they were before it was added.
pub proof fn lemma_add_then_remove<S, P>(processes: Map<usize, Process<S, P>>, process: Process<S, P>)
    requires
        !processes.contains_key(process.key()),
    ensures
        processes.insert(process.key(), process).contains_key(process.key()),
        processes.insert(process.key(), process)[process.key()] == process,
        processes.insert(process.key(), process).remove(process.key()) == processes,
{
    assert(processes.insert(process.key(), process).remove(process.key()) =~= processes);
}

} // verus!
