//! Buffers.
//!
//! [`Buf`] is a buffer that writes read from, [`BufMut`] one that reads write
//! into, and [`Limited`] limits either to a number of bytes. The lengths that
//! vectored I/O hands to the operating system are computed by
//! [`limit_lengths`], [`fill_lengths`] and [`split_length`].

use vstd::prelude::*;
use vstd::slice::slice_subrange;

verus! {

/// The smaller of `a` and `b`.
pub open spec fn min_of(a: int, b: int) -> int {
    if a <= b {
        a
    } else {
        b
    }
}

/// The number of bytes copied from `src_len` bytes into `dst_len` bytes of
/// room: as many as fit, never beyond either bound.
pub fn copy_bytes(dst_len: usize, src_len: usize) -> (n: usize)
    ensures
        n == min_of(dst_len as int, src_len as int),
{
    if src_len <= dst_len {
        src_len
    } else {
        dst_len
    }
}

/// Trait that defines the behaviour of buffers used in reading, which requires
/// mutable access: reads write into the spare capacity of the buffer.
pub trait BufMut: Sized {
    /// The bytes in the buffer.
    spec fn spec_bytes(&self) -> Seq<u8>;

    /// Whether `spare` is a spare capacity that the buffer can report: the
    /// number of bytes that can still be written into it, as a reading of
    /// where it stands gives it.
    spec fn reports_spare(&self, spare: usize) -> bool;

    /// Extend the buffer with `bytes`, as far as its spare capacity goes;
    /// returns the number of bytes copied: as many of `bytes` as there is
    /// room for.
    fn extend_from_slice(&mut self, bytes: &[u8]) -> (written: usize)
        ensures
            written <= bytes@.len(),
            final(self).spec_bytes() == old(self).spec_bytes() + bytes@.take(written as int),
            exists|spare: usize| #[trigger]
                old(self).reports_spare(spare) && written == min_of(bytes@.len() as int, spare as int),
    ;

    /// Returns the number of bytes that can still be written.
    fn spare_capacity(&self) -> (spare: usize)
        ensures
            self.reports_spare(spare),
    ;

    /// Returns `true` if the buffer has spare capacity.
    fn has_spare_capacity(&self) -> (has_spare: bool)
        ensures
            exists|spare: usize| #[trigger] self.reports_spare(spare) && has_spare == (spare != 0),
    {
        self.spare_capacity() != 0
    }

    /// Wrap the buffer in `Limited`, which limits the amount of bytes used to
    /// `limit`. [`Limited::into_inner`] can be used to retrieve the buffer
    /// again.
    fn limit(self, limit: usize) -> (limited: Limited<Self>)
        ensures
            limited.spec_buf() == self,
            limited.spec_limit() == limit,
    {
        Limited { buf: self, limit }
    }
}

/// `Vec::capacity`: the number of elements the vector can hold without
/// reallocating, never less than its length.
#[verifier::external_body]
fn vec_capacity(vec: &Vec<u8>) -> (capacity: usize)
    ensures
        capacity >= vec@.len(),
{
    vec.capacity()
}

/// The capacity of `vec`: the number of bytes it can hold without
/// reallocating, never less than its length. It is what the allocator gave,
/// so contracts speak of a capacity that a call reported, with
/// `call_ensures(capacity_of, (vec,), capacity)`.
pub fn capacity_of(vec: &Vec<u8>) -> (capacity: usize)
    ensures
        capacity >= vec@.len(),
{
    vec_capacity(vec)
}

/// The implementation for `Vec<u8>` only uses the spare capacity of the
/// vector: the bytes already in it stay as they are.
impl BufMut for Vec<u8> {
    open spec fn spec_bytes(&self) -> Seq<u8> {
        self@
    }

    /// The spare capacity of a vector is its capacity less its length.
    open spec fn reports_spare(&self, spare: usize) -> bool {
        exists|capacity: usize| #[trigger]
            call_ensures(capacity_of, (self,), capacity) && spare == capacity - self@.len()
    }

    /// Writes as many bytes as fit in the capacity the vector had, so it
    /// never grows past that capacity (see [`lemma_vec_stays_in_capacity`]).
    fn extend_from_slice(&mut self, bytes: &[u8]) -> (written: usize) {
        let spare = self.spare_capacity();
        let written = copy_bytes(spare, bytes.len());
        let part = slice_subrange(bytes, 0, written);
        Vec::extend_from_slice(self, part);
        proof {
            assert(part@ =~= bytes@.take(written as int));
        }
        written
    }

    fn spare_capacity(&self) -> usize {
        capacity_of(self) - self.len()
    }

    fn has_spare_capacity(&self) -> bool {
        let capacity = capacity_of(self);
        proof {
            assert(self.reports_spare((capacity - self@.len()) as usize));
        }
        capacity != self.len()
    }
}

/// Trait that defines the behaviour of buffers used in writing, which requires
/// read only access.
pub trait Buf: Sized {
    /// The bytes in the buffer.
    spec fn spec_bytes(&self) -> Seq<u8>;

    /// Returns itself as slice of bytes.
    fn as_slice(&self) -> (bytes: &[u8])
        ensures
            bytes@ == self.spec_bytes(),
    ;

    /// Length of the buffer in bytes.
    fn len(&self) -> (len: usize)
        ensures
            len == self.spec_bytes().len(),
    {
        self.as_slice().len()
    }

    /// Wrap the buffer in `Limited`, which limits the amount of bytes used to
    /// `limit`. [`Limited::into_inner`] can be used to retrieve the buffer
    /// again.
    fn limit(self, limit: usize) -> (limited: Limited<Self>)
        ensures
            limited.spec_buf() == self,
            limited.spec_limit() == limit,
    {
        Limited { buf: self, limit }
    }
}

impl Buf for Vec<u8> {
    open spec fn spec_bytes(&self) -> Seq<u8> {
        self@
    }

    fn as_slice(&self) -> (bytes: &[u8]) {
        Vec::as_slice(self)
    }
}

impl Buf for String {
    open spec fn spec_bytes(&self) -> Seq<u8> {
        vstd::utf8::encode_utf8(self@)
    }

    fn as_slice(&self) -> (bytes: &[u8]) {
        self.as_str().as_bytes()
    }
}

impl Buf for &'static [u8] {
    open spec fn spec_bytes(&self) -> Seq<u8> {
        self@
    }

    fn as_slice(&self) -> (bytes: &[u8]) {
        *self
    }
}

impl Buf for &'static str {
    open spec fn spec_bytes(&self) -> Seq<u8> {
        vstd::utf8::encode_utf8(self@)
    }

    fn as_slice(&self) -> (bytes: &[u8]) {
        (*self).as_bytes()
    }
}

/// Wrapper to limit the number of bytes `B` can use.
///
/// Created using [`Buf::limit`] or [`BufMut::limit`].
#[derive(Debug)]
pub struct Limited<B> {
    buf: B,
    limit: usize,
}

impl<B> Limited<B> {
    /// The wrapped buffer.
    pub closed spec fn spec_buf(&self) -> B {
        self.buf
    }

    /// The number of bytes the buffer may still use.
    pub closed spec fn spec_limit(&self) -> usize {
        self.limit
    }

    /// Wraps `buf`, limiting it to `limit` bytes.
    pub(crate) fn new(buf: B, limit: usize) -> (limited: Limited<B>)
        ensures
            limited.spec_buf() == buf,
            limited.spec_limit() == limit,
    {
        Limited { buf, limit }
    }

    /// The wrapped buffer.
    pub(crate) fn buf(&self) -> (buf: &B)
        ensures
            *buf == self.spec_buf(),
    {
        &self.buf
    }

    /// The wrapped buffer, to change.
    pub(crate) fn buf_mut(&mut self) -> (buf: &mut B)
        ensures
            *buf == old(self).spec_buf(),
            final(self).spec_buf() == *final(buf),
            final(self).spec_limit() == old(self).spec_limit(),
    {
        &mut self.buf
    }

    /// The number of bytes the buffer may still use.
    pub(crate) fn bytes_left(&self) -> (limit: usize)
        ensures
            limit == self.spec_limit(),
    {
        self.limit
    }

    /// Sets the number of bytes the buffer may still use.
    pub(crate) fn set_limit(&mut self, limit: usize)
        ensures
            final(self).spec_buf() == old(self).spec_buf(),
            final(self).spec_limit() == limit,
    {
        self.limit = limit;
    }

    /// Returns the underlying buffer.
    pub fn into_inner(self) -> (buf: B)
        ensures
            buf == self.spec_buf(),
    {
        self.buf
    }
}

impl<B: BufMut> BufMut for Limited<B> {
    open spec fn spec_bytes(&self) -> Seq<u8> {
        self.spec_buf().spec_bytes()
    }

    /// The smaller of the limit and the spare capacity of the wrapped buffer.
    open spec fn reports_spare(&self, spare: usize) -> bool {
        if self.spec_limit() == 0 {
            spare == 0
        } else {
            exists|inner: usize| #[trigger]
                self.spec_buf().reports_spare(inner) && spare == min_of(self.spec_limit() as int, inner as int)
        }
    }

    /// Writes at most the limit's worth of `bytes`, and takes what was written
    /// off the limit, for use in read N bytes kind of calls.
    fn extend_from_slice(&mut self, bytes: &[u8]) -> (written: usize)
        ensures
            written <= old(self).spec_limit(),
            final(self).spec_limit() == old(self).spec_limit() - written,
    {
        let ghost before = *self;
        let allowed = copy_bytes(self.limit, bytes.len());
        let part = slice_subrange(bytes, 0, allowed);
        let written = self.buf.extend_from_slice(part);
        self.limit = self.limit - written;
        proof {
            assert(part@.take(written as int) =~= bytes@.take(written as int));
            if before.spec_limit() == 0 {
                assert(before.reports_spare(0));
            } else {
                let inner = choose|inner: usize| #[trigger]
                    before.spec_buf().reports_spare(inner) && written == min_of(part@.len() as int, inner as int);
                assert(before.reports_spare(min_of(before.spec_limit() as int, inner as int) as usize));
            }
        }
        written
    }

    fn spare_capacity(&self) -> (spare: usize)
        ensures
            spare <= self.spec_limit(),
            exists|inner: usize| #[trigger]
                call_ensures(B::spare_capacity, (&self.spec_buf(),), inner) && spare == min_of(
                    self.spec_limit() as int,
                    inner as int,
                ),
    {
        let inner = self.buf.spare_capacity();
        let spare = copy_bytes(self.limit, inner);
        proof {
            assert(call_ensures(B::spare_capacity, (&self.spec_buf(),), inner));
            assert(self.spec_buf().reports_spare(inner));
        }
        spare
    }

    fn has_spare_capacity(&self) -> (has_spare: bool)
        ensures
            has_spare ==> self.spec_limit() != 0,
    {
        if self.limit == 0 {
            proof {
                assert(self.reports_spare(0));
            }
            false
        } else {
            let has_spare = self.buf.has_spare_capacity();
            proof {
                let inner = choose|inner: usize| #[trigger]
                    self.spec_buf().reports_spare(inner) && has_spare == (inner != 0);
                assert(self.reports_spare(min_of(self.spec_limit() as int, inner as int) as usize));
            }
            has_spare
        }
    }
}

impl<B: Buf> Buf for Limited<B> {
    open spec fn spec_bytes(&self) -> Seq<u8> {
        self.spec_buf().spec_bytes().take(min_of(self.spec_buf().spec_bytes().len() as int, self.spec_limit() as int))
    }

    fn as_slice(&self) -> (bytes: &[u8]) {
        let all = self.buf.as_slice();
        let len = copy_bytes(self.limit, all.len());
        slice_subrange(all, 0, len)
    }
}

/// The total of `lens`.
pub open spec fn total(lens: Seq<usize>) -> int
    decreases lens.len(),
{
    if lens.len() == 0 {
        0
    } else {
        total(lens.drop_last()) + lens.last()
    }
}

/// The length that a limit of `limit` bytes leaves to the buffer at `index` of
/// buffers with lengths `lens`: what the buffers before it have not used up of
/// the limit, at most its own length.
pub open spec fn limited_length(lens: Seq<usize>, limit: int, index: int) -> int {
    min_of(lens[index] as int, limit - min_of(limit, total(lens.take(index))))
}

/// The total of the first `index + 1` lengths is that of the first `index`
/// plus the one at `index`.
pub proof fn lemma_total_take(lens: Seq<usize>, index: int)
    requires
        0 <= index < lens.len(),
    ensures
        total(lens.take(index + 1)) == total(lens.take(index)) + lens[index],
{
    assert(lens.take(index + 1).drop_last() =~= lens.take(index));
}

/// A total is never negative.
pub proof fn lemma_total_nonnegative(lens: Seq<usize>)
    ensures
        total(lens) >= 0,
    decreases lens.len(),
{
    if lens.len() > 0 {
        lemma_total_nonnegative(lens.drop_last());
    }
}

/// Limits the lengths of the buffers for vectored I/O, `lens`, to `limit`
/// bytes in all: each keeps what the buffers before it left of the limit, at
/// most its own length. The lengths then add up to the smaller of the limit
/// and their old total.
pub fn limit_lengths(lens: &mut Vec<usize>, limit: usize)
    ensures
        final(lens)@.len() == old(lens)@.len(),
        forall|i: int| 0 <= i < old(lens)@.len() ==> final(lens)@[i] == limited_length(old(lens)@, limit as int, i),
        total(final(lens)@) == min_of(limit as int, total(old(lens)@)),
{
    let ghost given = lens@;
    let mut total_len: usize = 0;
    let mut i: usize = 0;
    while i < lens.len()
        invariant
            lens@.len() == given.len(),
            i <= lens@.len(),
            total_len == min_of(limit as int, total(given.take(i as int))),
            total(lens@.take(i as int)) == total_len,
            forall|j: int| 0 <= j < i ==> lens@[j] == limited_length(given, limit as int, j),
            forall|j: int| i <= j < lens@.len() ==> lens@[j] == given[j],
        decreases lens@.len() - i,
    {
        let len = lens[i];
        let ghost before = lens@;
        proof {
            lemma_total_take(given, i as int);
            lemma_total_nonnegative(given.take(i as int));
        }
        if len > limit - total_len {
            lens.set(i, limit - total_len);
            total_len = limit;
        } else {
            total_len = total_len + len;
        }
        proof {
            assert(lens@.take(i as int) =~= before.take(i as int));
            lemma_total_take(lens@, i as int);
        }
        i = i + 1;
    }
    proof {
        assert(lens@.take(lens@.len() as int) =~= lens@);
        assert(given.take(given.len() as int) =~= given);
    }
}

/// The total of a sequence is its first element plus the total of the rest.
pub proof fn lemma_total_first(lens: Seq<usize>)
    requires
        lens.len() > 0,
    ensures
        total(lens) == lens[0] + total(lens.drop_first()),
    decreases lens.len(),
{
    if lens.len() > 1 {
        lemma_total_first(lens.drop_last());
        assert(lens.drop_last().drop_first() =~= lens.drop_first().drop_last());
    } else {
        assert(lens.drop_first() =~= Seq::<usize>::empty());
        assert(lens.drop_last() =~= Seq::<usize>::empty());
    }
}

/// How `left` bytes read into buffers of lengths `lens` are divided over them:
/// the buffers are filled in turn, and the one that takes the last of the bytes
/// is the last one that is marked.
pub open spec fn split(lens: Seq<usize>, left: usize) -> Seq<usize>
    decreases lens.len(),
{
    if lens.len() == 0 {
        Seq::empty()
    } else if lens[0] < left {
        seq![lens[0]] + split(lens.drop_first(), (left - lens[0]) as usize)
    } else {
        seq![left]
    }
}

/// Divides `n` bytes, read into buffers of lengths `lens`, over those buffers:
/// the number of bytes to mark as initialised in each buffer in turn, up to the
/// one that holds the last of them. Reading more bytes than the buffers hold is
/// impossible, so `n` is at most their total.
pub fn split_length(lens: &[usize], n: usize) -> (parts: Vec<usize>)
    requires
        lens@.len() > 0,
        n <= total(lens@),
    ensures
        parts@ == split(lens@, n),
{
    let mut parts: Vec<usize> = Vec::new();
    let mut left = n;
    let mut i: usize = 0;
    proof {
        assert(lens@.skip(0) =~= lens@);
        assert(parts@ + split(lens@, n) =~= split(lens@, n));
    }
    loop
        invariant
            i < lens@.len(),
            left <= total(lens@.skip(i as int)),
            parts@ + split(lens@.skip(i as int), left) == split(lens@, n),
        decreases lens@.len() - i,
    {
        let len = lens[i];
        let ghost rest = lens@.skip(i as int);
        proof {
            assert(rest[0] == len);
            assert(rest.drop_first() =~= lens@.skip(i + 1));
            lemma_total_first(rest);
        }
        if len < left {
            parts.push(len);
            left = left - len;
            proof {
                assert(split(rest, (left + len) as usize) == seq![len] + split(lens@.skip(i + 1), left));
            }
            if i + 1 == lens.len() {
                proof {
                    assert(lens@.skip(i + 1) =~= Seq::<usize>::empty());
                }
                assert(false);
            }
            i = i + 1;
            proof {
                assert(parts@ + split(lens@.skip(i as int), left) =~= parts@.drop_last() + (seq![len]
                    + split(lens@.skip(i as int), left)));
            }
        } else {
            parts.push(left);
            proof {
                assert(parts@ =~= parts@.drop_last() + split(rest, left));
            }
            return parts;
        }
    }
}

/// How `left` bytes are copied into buffers of lengths `lens`: each buffer in
/// turn takes as many as fit, until none are left or the buffers run out.
pub open spec fn fill(lens: Seq<usize>, left: usize) -> Seq<usize>
    decreases lens.len(),
{
    if lens.len() == 0 {
        Seq::empty()
    } else if left <= lens[0] {
        seq![left]
    } else {
        seq![lens[0]] + fill(lens.drop_first(), (left - lens[0]) as usize)
    }
}

/// The number of bytes copied into each of the buffers of lengths `lens` when
/// extending them with `len` bytes: each buffer in turn takes as many as fit,
/// up to the one that takes the last of them.
pub fn fill_lengths(lens: &[usize], len: usize) -> (parts: Vec<usize>)
    ensures
        parts@ == fill(lens@, len),
{
    let mut parts: Vec<usize> = Vec::new();
    let mut left = len;
    let mut i: usize = 0;
    proof {
        assert(lens@.skip(0) =~= lens@);
        assert(parts@ + fill(lens@, len) =~= fill(lens@, len));
    }
    while i < lens.len()
        invariant
            i <= lens@.len(),
            parts@ + fill(lens@.skip(i as int), left) == fill(lens@, len),
        decreases lens@.len() - i,
    {
        let ghost rest = lens@.skip(i as int);
        proof {
            assert(rest.drop_first() =~= lens@.skip(i + 1));
        }
        let n = copy_bytes(lens[i], left);
        parts.push(n);
        if n == left {
            proof {
                assert(parts@ =~= parts@.drop_last() + fill(rest, left));
            }
            return parts;
        }
        left = left - n;
        i = i + 1;
        proof {
            assert(parts@ + fill(lens@.skip(i as int), left) =~= parts@.drop_last() + (seq![n]
                + fill(lens@.skip(i as int), left)));
        }
    }
    proof {
        assert(lens@.skip(i as int) =~= Seq::<usize>::empty());
        assert(parts@ + fill(lens@.skip(i as int), left) =~= parts@);
    }
    parts
}

/// The total of a sequence with `x` in front is `x` plus the total of the
/// sequence.
pub proof fn lemma_total_prepend(x: usize, lens: Seq<usize>)
    ensures
        total(seq![x] + lens) == x + total(lens),
{
    lemma_total_first(seq![x] + lens);
    assert((seq![x] + lens).drop_first() =~= lens);
}

/// Lengths that add up to nothing are all zero.
pub proof fn lemma_total_zero(lens: Seq<usize>)
    requires
        total(lens) == 0,
    ensures
        forall|j: int| 0 <= j < lens.len() ==> lens[j] == 0,
    decreases lens.len(),
{
    if lens.len() > 0 {
        lemma_total_nonnegative(lens.drop_last());
        lemma_total_zero(lens.drop_last());
        assert forall|j: int| 0 <= j < lens.len() implies lens[j] == 0 by {
            if j < lens.len() - 1 {
                assert(lens[j] == lens.drop_last()[j]);
            }
        }
    }
}

/// Extending vectored buffers and then marking what was written: after
/// copying `len` bytes into buffers of lengths `lens` ([`fill`]), the number of
/// bytes written is the smaller of `len` and what the buffers hold, and
/// dividing that number over the buffers ([`split`]) marks in each buffer the
/// bytes copied into it; the buffers after the last one marked got none.
pub proof fn lemma_split_of_fill(lens: Seq<usize>, len: usize)
    requires
        lens.len() > 0,
    ensures
        total(fill(lens, len)) == min_of(len as int, total(lens)),
        split(lens, total(fill(lens, len)) as usize).is_prefix_of(fill(lens, len)),
        forall|j: int|
            split(lens, total(fill(lens, len)) as usize).len() <= j < fill(lens, len).len() ==> fill(
                lens,
                len,
            )[j] == 0,
    decreases lens.len(),
{
    let f = fill(lens, len);
    let first = lens[0];
    let rest = lens.drop_first();
    lemma_total_first(lens);
    lemma_total_nonnegative(rest);
    if len <= first {
        assert(f == seq![len]);
        lemma_total_prepend(len, Seq::<usize>::empty());
        assert(seq![len] + Seq::<usize>::empty() =~= seq![len]);
        assert(split(lens, len) == seq![len]);
    } else {
        let left = (len - first) as usize;
        let f_rest = fill(rest, left);
        assert(f == seq![first] + f_rest);
        lemma_total_prepend(first, f_rest);
        let w = total(f);
        if rest.len() == 0 {
            assert(f_rest =~= Seq::<usize>::empty());
            assert(split(lens, w as usize) == seq![first]);
            assert(f =~= seq![first]);
        } else {
            lemma_split_of_fill(rest, left);
            let w_rest = total(f_rest);
            if w_rest == 0 {
                assert(split(lens, w as usize) == seq![first]);
                lemma_total_zero(f_rest);
                assert(seq![first].is_prefix_of(f)) by {
                    assert(f.subrange(0, 1) =~= seq![first]);
                }
                assert forall|j: int| seq![first].len() <= j < f.len() implies f[j] == 0 by {
                    assert(f[j] == f_rest[j - 1]);
                }
            } else {
                let s_rest = split(rest, w_rest as usize);
                assert(split(lens, w as usize) == seq![first] + s_rest);
                assert((seq![first] + s_rest).is_prefix_of(f)) by {
                    assert(f.subrange(0, 1 + s_rest.len() as int) =~= seq![first] + f_rest.subrange(0, s_rest.len() as int));
                }
                assert forall|j: int| (seq![first] + s_rest).len() <= j < f.len() implies f[j] == 0 by {
                    assert(f[j] == f_rest[j - 1]);
                }
            }
        }
    }
}

/// Extending a vector fills at most its spare capacity: for a spare capacity
/// that it reported, the bytes written are the smaller of what was offered and
/// that room, which is the capacity it reported less its length; so the vector
/// never grows past its capacity.
pub proof fn lemma_vec_stays_in_capacity(before: Vec<u8>, offered: nat, written: usize)
    requires
        exists|spare: usize| #[trigger]
            before.reports_spare(spare) && written == min_of(offered as int, spare as int),
    ensures
        exists|capacity: usize|
            {
                &&& #[trigger] call_ensures(capacity_of, (&before,), capacity)
                &&& capacity >= before@.len()
                &&& written == min_of(offered as int, capacity - before@.len())
                &&& before@.len() + written <= capacity
            },
{
    let spare = choose|spare: usize| #[trigger]
        before.reports_spare(spare) && written == min_of(offered as int, spare as int);
    let capacity = choose|capacity: usize| #[trigger]
        call_ensures(capacity_of, (&before,), capacity) && spare == capacity - before@.len();
    assert(call_ensures(capacity_of, (&before,), capacity));
}

/// A limited buffer never has more room than the buffer it wraps: its spare
/// capacity is the smaller of its limit and a spare capacity that the wrapped
/// buffer reports.
pub proof fn lemma_limited_spare<B: BufMut>(limited: Limited<B>, spare: usize)
    requires
        call_ensures(<Limited<B> as BufMut>::spare_capacity, (&limited,), spare),
    ensures
        spare <= limited.spec_limit(),
        exists|inner: usize| #[trigger]
            call_ensures(B::spare_capacity, (&limited.spec_buf(),), inner) && spare == min_of(
                limited.spec_limit() as int,
                inner as int,
            ) && spare <= inner,
{
}

} // verus!
