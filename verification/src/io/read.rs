//! Reading bytes from a source into buffers.

use std::io;

use vstd::prelude::*;
use vstd::slice::slice_subrange;

use super::buf::BufMut;
use super::buf_slice::{appended_in_order, BufMutSlice};
use crate::io_error::unexpected_eof;

verus! {

/// Reading bytes from a source.
///
/// The readers of the runtime that wait on the operating system do so outside
/// this library; the one here, bytes in memory, never waits.
pub trait Read: Sized {
    /// Read bytes, writing them into `buf`.
    fn read<B: BufMut>(&mut self, buf: B) -> io::Result<B>;

    /// Read at least `n` bytes, writing them into `buf`.
    fn read_n<B: BufMut>(&mut self, buf: B, n: usize) -> io::Result<B>;

    /// Determines if this reader has an efficient `read_vectored`
    /// implementation. The default implementation returns `false`.
    fn is_read_vectored(&self) -> (vectored: bool)
        default_ensures
            !vectored,
    {
        false
    }

    /// Read bytes, writing them into `bufs`.
    fn read_vectored<B: BufMutSlice<N>, const N: usize>(&mut self, bufs: B) -> io::Result<B>;

    /// Read at least `n` bytes, writing them into `bufs`.
    fn read_n_vectored<B: BufMutSlice<N>, const N: usize>(&mut self, bufs: B, n: usize) -> io::Result<B>;
}

/// `rest` is what is left of `bytes` once `read` bytes were taken off the
/// front.
pub open spec fn took_front(bytes: Seq<u8>, rest: Seq<u8>, read: int) -> bool {
    0 <= read <= bytes.len() && rest == bytes.skip(read)
}

/// Reading bytes in memory copies the bytes that fit into the buffer and
/// takes them off the front of the slice, which is empty at the end.
impl<'a> Read for &'a [u8] {
    fn read<B: BufMut>(&mut self, buf: B) -> (result: io::Result<B>)
        ensures
            match result {
                Ok(filled) => {
                    let read = old(self)@.len() - final(self)@.len();
                    &&& took_front(old(self)@, final(self)@, read)
                    &&& filled.spec_bytes() == buf.spec_bytes() + old(self)@.take(read)
                },
                Err(_) => false,
            },
    {
        let mut buf = buf;
        let bytes: &'a [u8] = *self;
        let read = buf.extend_from_slice(bytes);
        *self = slice_subrange(bytes, read, bytes.len());
        proof {
            lemma_rest(bytes@, read as int);
        }
        Ok(buf)
    }

    /// Fails with an unexpected end of file when fewer than `n` bytes are
    /// left, taking none of them.
    fn read_n<B: BufMut>(&mut self, buf: B, n: usize) -> (result: io::Result<B>)
        ensures
            result is Err <==> old(self)@.len() < n,
            result is Err ==> final(self)@ == old(self)@,
            match result {
                Ok(filled) => {
                    let read = old(self)@.len() - final(self)@.len();
                    &&& took_front(old(self)@, final(self)@, read)
                    &&& filled.spec_bytes() == buf.spec_bytes() + old(self)@.take(read)
                },
                Err(_) => true,
            },
    {
        if self.len() < n {
            Err(unexpected_eof())
        } else {
            self.read(buf)
        }
    }

    fn is_read_vectored(&self) -> (vectored: bool)
        ensures
            vectored,
    {
        true
    }

    fn read_vectored<B: BufMutSlice<N>, const N: usize>(&mut self, bufs: B) -> (result: io::Result<B>)
        ensures
            match result {
                Ok(filled) => {
                    let read = old(self)@.len() - final(self)@.len();
                    &&& took_front(old(self)@, final(self)@, read)
                    &&& appended_in_order(bufs.spec_buffers(), filled.spec_buffers(), old(self)@.take(read))
                },
                Err(_) => false,
            },
    {
        let mut bufs = bufs;
        let bytes: &'a [u8] = *self;
        let read = bufs.extend_from_slice(bytes);
        *self = slice_subrange(bytes, read, bytes.len());
        proof {
            lemma_rest(bytes@, read as int);
        }
        Ok(bufs)
    }

    /// Fails with an unexpected end of file when fewer than `n` bytes are
    /// left, taking none of them.
    fn read_n_vectored<B: BufMutSlice<N>, const N: usize>(&mut self, bufs: B, n: usize) -> (result: io::Result<B>)
        ensures
            result is Err <==> old(self)@.len() < n,
            result is Err ==> final(self)@ == old(self)@,
            match result {
                Ok(filled) => {
                    let read = old(self)@.len() - final(self)@.len();
                    &&& took_front(old(self)@, final(self)@, read)
                    &&& appended_in_order(bufs.spec_buffers(), filled.spec_buffers(), old(self)@.take(read))
                },
                Err(_) => true,
            },
    {
        if self.len() < n {
            Err(unexpected_eof())
        } else {
            self.read_vectored(bufs)
        }
    }
}

/// Taking `read` bytes off the front of `bytes` leaves `read` fewer.
proof fn lemma_rest(bytes: Seq<u8>, read: int)
    requires
        0 <= read <= bytes.len(),
    ensures
        bytes.subrange(read, bytes.len() as int) == bytes.skip(read),
        bytes.len() - bytes.skip(read).len() == read,
{
    assert(bytes.subrange(read, bytes.len() as int) =~= bytes.skip(read));
}

} // verus!
