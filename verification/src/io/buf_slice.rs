//! Buffers used together in vectored I/O: [`BufMutSlice`] for reads, which
//! fill the buffers one after the other, and [`BufSlice`] for writes.

use vstd::prelude::*;
use vstd::slice::slice_subrange;

use super::buf::{
    copy_bytes, min_of, lemma_total_nonnegative, lemma_total_take, limit_lengths, limited_length, total, Buf,
    BufMut, Limited,
};

verus! {

broadcast use vstd::seq_lib::group_seq_properties;

/// What was added at the end of each buffer, from `before` to `after`.
pub open spec fn added(before: Seq<Seq<u8>>, after: Seq<Seq<u8>>) -> Seq<Seq<u8>> {
    Seq::new(before.len(), |i: int| after[i].skip(before[i].len() as int))
}

/// `after` is `before` with `bytes` written at the ends of the buffers in
/// order: each buffer keeps what it held, and what was added to the first
/// buffer, then to the second and so on, makes up `bytes`.
pub open spec fn appended_in_order(before: Seq<Seq<u8>>, after: Seq<Seq<u8>>, bytes: Seq<u8>) -> bool {
    &&& before.len() == after.len()
    &&& forall|i: int| 0 <= i < before.len() ==> #[trigger] before[i].is_prefix_of(after[i])
    &&& added(before, after).flatten() == bytes
}

/// Trait that defines the behaviour of buffers used in reading using vectored
/// I/O, which requires mutable access.
pub trait BufMutSlice<const N: usize>: Sized {
    /// The bytes in each of the buffers.
    spec fn spec_buffers(&self) -> Seq<Seq<u8>>;

    /// Extend the buffers with `bytes`, filling them in order; returns the
    /// number of bytes copied.
    fn extend_from_slice(&mut self, bytes: &[u8]) -> (written: usize)
        ensures
            written <= bytes@.len(),
            appended_in_order(old(self).spec_buffers(), final(self).spec_buffers(), bytes@.take(written as int)),
    ;

    /// Returns the spare capacity of all buffers together.
    fn total_spare_capacity(&self) -> usize;

    /// Returns `true` if at least one of the buffers has spare capacity.
    fn has_spare_capacity(&self) -> bool {
        self.total_spare_capacity() != 0
    }

    /// Wrap the buffers in `Limited`, which limits the amount of bytes used
    /// to `limit`.
    fn limit(self, limit: usize) -> (limited: Limited<Self>)
        ensures
            limited.spec_buf() == self,
            limited.spec_limit() == limit,
    {
        Limited::new(self, limit)
    }
}

/// The bytes of each buffer in `bufs`.
pub open spec fn mut_contents<B: BufMut>(bufs: Seq<B>) -> Seq<Seq<u8>> {
    Seq::new(bufs.len(), |i: int| bufs[i].spec_bytes())
}

impl<B: BufMut, const N: usize> BufMutSlice<N> for [B; N] {
    open spec fn spec_buffers(&self) -> Seq<Seq<u8>> {
        mut_contents(self@)
    }

    /// Offers what is left of `bytes` to each buffer in turn, so that all of
    /// `bytes` is written or else every buffer took all the room it had: the
    /// number written is the smaller of `bytes`' length and the room of the
    /// buffers together.
    fn extend_from_slice(&mut self, bytes: &[u8]) -> (written: usize)
        ensures
            written == bytes@.len() || fills_all(old(self)@, written as int),
    {
        let ghost before = mut_contents(self@);
        let ghost start = self@;
        let ghost mut spares: Seq<usize> = Seq::empty();
        let mut offset: usize = 0;
        let mut i: usize = 0;
        while i < N && offset < bytes.len()
            invariant
                i <= N,
                self@.len() == N,
                start.len() == N,
                before.len() == N,
                before == mut_contents(start),
                offset <= bytes@.len(),
                forall|j: int| i <= j < N ==> #[trigger] self@[j] == start[j],
                spares.len() == i,
                forall|j: int| 0 <= j < i ==> #[trigger] start[j].reports_spare(spares[j]),
                offset < bytes@.len() ==> offset == total(spares),
                forall|j: int| 0 <= j < N ==> #[trigger] before[j].is_prefix_of(self@[j].spec_bytes()),
                forall|j: int| i <= j < N ==> #[trigger] self@[j].spec_bytes() == before[j],
                added(before, mut_contents(self@)).take(i as int).flatten() == bytes@.take(offset as int),
            decreases N - i,
        {
            let rest = slice_subrange(bytes, offset, bytes.len());
            let ghost prev = mut_contents(self@);
            let ghost buffer = self@[i as int];
            let n = self[i].extend_from_slice(rest);
            proof {
                let spare = choose|spare: usize| #[trigger]
                    buffer.reports_spare(spare) && n == min_of(rest@.len() as int, spare as int);
                let pushed = spares.push(spare);
                assert(pushed.drop_last() =~= spares);
                if offset + n < bytes@.len() {
                    assert(n == spare);
                }
                spares = pushed;
                let next = mut_contents(self@);
                let step = rest@.take(n as int);
                assert(next[i as int] == before[i as int] + step);
                assert(added(before, next).take(i as int) =~= added(before, prev).take(i as int));
                assert(added(before, next)[i as int] =~= step);
                assert(added(before, next).take(i + 1) =~= added(before, next).take(i as int).push(step));
                added(before, next).take(i as int).lemma_flatten_push(step);
                assert(bytes@.take(offset + n) =~= bytes@.take(offset as int) + step);
            }
            offset = offset + n;
            i = i + 1;
        }
        proof {
            let after = mut_contents(self@);
            assert forall|j: int| i <= j < N implies #[trigger] added(before, after)[j] == Seq::<u8>::empty() by {
                assert(after[j] == before[j]);
            }
            lemma_flatten_empty_tail(added(before, after), i as int);
            if offset < bytes@.len() {
                assert(fills_all(start, offset as int)) by {
                    assert(forall|j: int| 0 <= j < N ==> #[trigger] start[j].reports_spare(spares[j]));
                }
            }
        }
        offset
    }

    /// Saturates at `usize::MAX`, which the spare capacity of buffers in
    /// memory does not reach.
    fn total_spare_capacity(&self) -> usize {
        let mut sum: usize = 0;
        let mut i: usize = 0;
        while i < N
            invariant
                i <= N,
            decreases N - i,
        {
            sum = sum.saturating_add(self[i].spare_capacity());
            i = i + 1;
        }
        sum
    }

    fn has_spare_capacity(&self) -> bool {
        let mut i: usize = 0;
        while i < N
            invariant
                i <= N,
            decreases N - i,
        {
            if self[i].has_spare_capacity() {
                return true;
            }
            i = i + 1;
        }
        false
    }
}

/// Adding only empty parts after the first `index` leaves the flattened
/// sequence as it was.
pub proof fn lemma_flatten_empty_tail(parts: Seq<Seq<u8>>, index: int)
    requires
        0 <= index <= parts.len(),
        forall|j: int| index <= j < parts.len() ==> #[trigger] parts[j] == Seq::<u8>::empty(),
    ensures
        parts.flatten() == parts.take(index).flatten(),
    decreases parts.len() - index,
{
    if index < parts.len() {
        lemma_flatten_empty_tail(parts, index + 1);
        assert(parts.take(index + 1) =~= parts.take(index).push(parts[index]));
        parts.take(index).lemma_flatten_push(parts[index]);
        assert(parts.take(index).flatten() + Seq::<u8>::empty() =~= parts.take(index).flatten());
    } else {
        assert(parts.take(index) =~= parts);
    }
}

impl<B: BufMutSlice<N>, const N: usize> BufMutSlice<N> for Limited<B> {
    open spec fn spec_buffers(&self) -> Seq<Seq<u8>> {
        self.spec_buf().spec_buffers()
    }

    /// Writes at most the limit's worth of `bytes`, and takes what was written
    /// off the limit, for use in read N bytes kind of calls.
    fn extend_from_slice(&mut self, bytes: &[u8]) -> (written: usize)
        ensures
            written <= old(self).spec_limit(),
            final(self).spec_limit() == old(self).spec_limit() - written,
    {
        let allowed = copy_bytes(self.bytes_left(), bytes.len());
        let part = slice_subrange(bytes, 0, allowed);
        let written = self.buf_mut().extend_from_slice(part);
        self.set_limit(self.bytes_left() - written);
        proof {
            assert(part@.take(written as int) =~= bytes@.take(written as int));
        }
        written
    }

    fn total_spare_capacity(&self) -> (spare: usize)
        ensures
            spare <= self.spec_limit(),
    {
        copy_bytes(self.bytes_left(), self.buf().total_spare_capacity())
    }

    fn has_spare_capacity(&self) -> (has_spare: bool)
        ensures
            has_spare ==> self.spec_limit() != 0,
    {
        self.bytes_left() != 0 && self.buf().has_spare_capacity()
    }
}

/// The lengths of `buffers`.
pub open spec fn lengths(buffers: Seq<Seq<u8>>) -> Seq<usize> {
    Seq::new(buffers.len(), |i: int| buffers[i].len() as usize)
}

/// The total length of `buffers`.
pub open spec fn total_length(buffers: Seq<Seq<u8>>) -> int {
    total(lengths(buffers))
}

/// Trait that defines the behaviour of buffers used in writing using vectored
/// I/O, which requires read only access.
pub trait BufSlice<const N: usize>: Sized {
    /// The bytes in each of the buffers.
    spec fn spec_buffers(&self) -> Seq<Seq<u8>>;

    /// Returns the lengths of the buffers, in order, as vectored I/O hands
    /// them to the operating system.
    fn lengths(&self) -> (lens: Vec<usize>)
        ensures
            lens@.len() == self.spec_buffers().len(),
            forall|i: int| 0 <= i < lens@.len() ==> lens@[i] == #[trigger] self.spec_buffers()[i].len(),
    ;

    /// Returns the total length of all buffers in bytes.
    fn total_len(&self) -> (len: usize)
        requires
            total_length(self.spec_buffers()) <= usize::MAX,
        ensures
            len == total_length(self.spec_buffers()),
    {
        let lens = self.lengths();
        proof {
            assert(lens@ =~= lengths(self.spec_buffers()));
        }
        sum_lengths(&lens)
    }

    /// Wrap the buffers in `Limited`, which limits the amount of bytes used
    /// to `limit`.
    fn limit(self, limit: usize) -> (limited: Limited<Self>)
        ensures
            limited.spec_buf() == self,
            limited.spec_limit() == limit,
    {
        Limited::new(self, limit)
    }
}

/// The total of `lens`.
pub fn sum_lengths(lens: &Vec<usize>) -> (sum: usize)
    requires
        total(lens@) <= usize::MAX,
    ensures
        sum == total(lens@),
{
    let mut sum: usize = 0;
    let mut i: usize = 0;
    while i < lens.len()
        invariant
            i <= lens@.len(),
            total(lens@) <= usize::MAX,
            sum == total(lens@.take(i as int)),
        decreases lens@.len() - i,
    {
        proof {
            lemma_total_take(lens@, i as int);
            lemma_total_prefix(lens@, i + 1);
        }
        sum = sum + lens[i];
        i = i + 1;
    }
    proof {
        assert(lens@.take(i as int) =~= lens@);
    }
    sum
}

/// The total of a prefix is at most the total of the whole.
pub proof fn lemma_total_prefix(lens: Seq<usize>, len: int)
    requires
        0 <= len <= lens.len(),
    ensures
        total(lens.take(len)) <= total(lens),
    decreases lens.len() - len,
{
    if len < lens.len() {
        lemma_total_prefix(lens, len + 1);
        lemma_total_take(lens, len);
    } else {
        assert(lens.take(len) =~= lens);
    }
}

/// The bytes of each buffer in `bufs`.
pub open spec fn contents<B: Buf>(bufs: Seq<B>) -> Seq<Seq<u8>> {
    Seq::new(bufs.len(), |i: int| bufs[i].spec_bytes())
}

impl<B: Buf, const N: usize> BufSlice<N> for [B; N] {
    open spec fn spec_buffers(&self) -> Seq<Seq<u8>> {
        contents(self@)
    }

    fn lengths(&self) -> (lens: Vec<usize>) {
        let mut lens: Vec<usize> = Vec::new();
        let mut i: usize = 0;
        while i < N
            invariant
                i <= N,
                self@.len() == N,
                lens@.len() == i,
                forall|j: int| 0 <= j < i ==> lens@[j] == #[trigger] self@[j].spec_bytes().len(),
            decreases N - i,
        {
            lens.push(self[i].len());
            i = i + 1;
        }
        lens
    }
}

/// The buffers `buffers` limited to `limit` bytes in all: each keeps what the
/// buffers before it left of the limit.
pub open spec fn limit_buffers(buffers: Seq<Seq<u8>>, limit: int) -> Seq<Seq<u8>> {
    Seq::new(buffers.len(), |i: int| buffers[i].take(limited_length(lengths(buffers), limit, i)))
}

impl<B: BufSlice<N>, const N: usize> BufSlice<N> for Limited<B> {
    open spec fn spec_buffers(&self) -> Seq<Seq<u8>> {
        limit_buffers(self.spec_buf().spec_buffers(), self.spec_limit() as int)
    }

    fn lengths(&self) -> (lens: Vec<usize>) {
        let mut lens = self.buf().lengths();
        let ghost given = lens@;
        limit_lengths(&mut lens, self.bytes_left());
        proof {
            let buffers = self.spec_buf().spec_buffers();
            assert(given =~= lengths(buffers));
            assert forall|i: int| 0 <= i < lens@.len() implies lens@[i] == #[trigger] self.spec_buffers()[i].len() by {
                lemma_limited_length_bounds(given, self.spec_limit() as int, i);
            }
        }
        lens
    }
}

/// A limited length is never negative and at most the length it limits.
pub proof fn lemma_limited_length_bounds(lens: Seq<usize>, limit: int, index: int)
    requires
        0 <= index < lens.len(),
        limit >= 0,
    ensures
        0 <= limited_length(lens, limit, index) <= lens[index],
{
    lemma_total_nonnegative(lens.take(index));
}

/// Limiting buffers to `limit` bytes leaves them the smaller of the limit and
/// their total length.
pub proof fn lemma_limit_buffers_total(buffers: Seq<Seq<u8>>, limit: int)
    requires
        limit >= 0,
        forall|i: int| 0 <= i < buffers.len() ==> #[trigger] buffers[i].len() <= usize::MAX,
    ensures
        total_length(limit_buffers(buffers, limit)) == min_of(limit, total_length(buffers)),
{
    let lens = lengths(buffers);
    let limited = lengths(limit_buffers(buffers, limit));
    assert forall|k: int| 0 <= k <= lens.len() implies #[trigger] total(limited.take(k)) == min_of(
        limit,
        total(lens.take(k)),
    ) by {
        lemma_limit_prefix(buffers, limit, k);
    }
    assert(limited.take(limited.len() as int) =~= limited);
    assert(lens.take(lens.len() as int) =~= lens);
}

/// The first `k` limited buffers hold the smaller of the limit and what the
/// first `k` buffers hold.
proof fn lemma_limit_prefix(buffers: Seq<Seq<u8>>, limit: int, k: int)
    requires
        limit >= 0,
        0 <= k <= buffers.len(),
        forall|i: int| 0 <= i < buffers.len() ==> #[trigger] buffers[i].len() <= usize::MAX,
    ensures
        total(lengths(limit_buffers(buffers, limit)).take(k)) == min_of(limit, total(lengths(buffers).take(k))),
    decreases k,
{
    let lens = lengths(buffers);
    let limited = lengths(limit_buffers(buffers, limit));
    if k == 0 {
        assert(limited.take(0) =~= Seq::<usize>::empty());
        assert(lens.take(0) =~= Seq::<usize>::empty());
    } else {
        lemma_limit_prefix(buffers, limit, k - 1);
        lemma_total_take(limited, k - 1);
        lemma_total_take(lens, k - 1);
        lemma_total_nonnegative(lens.take(k - 1));
        lemma_limited_length_bounds(lens, limit, k - 1);
    }
}

/// Every buffer of `bufs` took all the room it had: `written` is the total of
/// spare capacities that the buffers report.
pub open spec fn fills_all<B: BufMut>(bufs: Seq<B>, written: int) -> bool {
    exists|spares: Seq<usize>|
        {
            &&& spares.len() == bufs.len()
            &&& forall|j: int| 0 <= j < bufs.len() ==> #[trigger] bufs[j].reports_spare(spares[j])
            &&& written == total(spares)
        }
}

/// Writing into several buffers stops short of all the bytes only once every
/// buffer is full: then each buffer took all the room it reported, so the
/// bytes written are at least the room of any one buffer, and a buffer with
/// room left means some bytes were written.
pub proof fn lemma_room_is_used<B: BufMut>(bufs: Seq<B>, offered: nat, written: usize)
    requires
        written == offered || fills_all(bufs, written as int),
    ensures
        written < offered ==> exists|spares: Seq<usize>|
            {
                &&& spares.len() == bufs.len()
                &&& forall|j: int| 0 <= j < bufs.len() ==> #[trigger] bufs[j].reports_spare(spares[j])
                &&& written == total(spares)
                &&& forall|j: int| 0 <= j < bufs.len() ==> #[trigger] spares[j] <= written
            },
{
    if written < offered {
        let spares = choose|spares: Seq<usize>|
            {
                &&& spares.len() == bufs.len()
                &&& forall|j: int| 0 <= j < bufs.len() ==> #[trigger] bufs[j].reports_spare(spares[j])
                &&& written == total(spares)
            };
        assert forall|j: int| 0 <= j < bufs.len() implies #[trigger] spares[j] <= written by {
            lemma_total_at_least(spares, j);
        }
    }
}

/// A total is at least each of its parts.
pub proof fn lemma_total_at_least(lens: Seq<usize>, index: int)
    requires
        0 <= index < lens.len(),
    ensures
        lens[index] <= total(lens),
    decreases lens.len(),
{
    lemma_total_nonnegative(lens.drop_last());
    if index < lens.len() - 1 {
        lemma_total_at_least(lens.drop_last(), index);
    }
}

} // verus!
