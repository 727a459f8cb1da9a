//! Tests of the buffers and the lengths of vectored I/O.

use heph_rt::io::buf::{copy_bytes, fill_lengths, limit_lengths, split_length, Buf, BufMut};
use heph_rt::io::buf_slice::{sum_lengths, BufMutSlice, BufSlice};
use heph_rt::io::read::Read;

#[test]
fn vec_only_uses_spare_capacity() {
    let mut buf: Vec<u8> = Vec::with_capacity(100);
    buf.extend_from_slice(b"Hello world!");
    let spare = BufMut::spare_capacity(&buf);
    assert_eq!(spare, buf.capacity() - 12);
    let written = BufMut::extend_from_slice(&mut buf, b" Hello mars!");
    assert_eq!(written, 12);
    assert_eq!(&*buf, b"Hello world! Hello mars!");
}

#[test]
fn vec_without_spare_capacity_takes_nothing() {
    let mut buf: Vec<u8> = Vec::new();
    let capacity = buf.capacity();
    assert_eq!(capacity, 0);
    assert!(!BufMut::has_spare_capacity(&buf));
    assert_eq!(BufMut::extend_from_slice(&mut buf, b"abc"), 0);
    assert!(buf.is_empty());
}

#[test]
fn limited_buf_mut() {
    let buf: Vec<u8> = Vec::with_capacity(64);
    let mut limited = BufMut::limit(buf, 5);
    assert_eq!(limited.spare_capacity(), 5);
    assert!(limited.has_spare_capacity());
    assert_eq!(limited.extend_from_slice(b"abc"), 3);
    assert_eq!(limited.spare_capacity(), 2);
    assert_eq!(limited.extend_from_slice(b"defgh"), 2);
    assert!(!limited.has_spare_capacity());
    assert_eq!(limited.extend_from_slice(b"ijk"), 0);
    assert_eq!(limited.into_inner(), b"abcde".to_vec());
}

#[test]
fn limited_buf() {
    let buf = b"Hello world".to_vec();
    let limited = Buf::limit(buf, 5);
    assert_eq!(limited.as_slice(), b"Hello");
    assert_eq!(Buf::len(&limited), 5);
    let limited = Buf::limit("short".to_string(), 100);
    assert_eq!(limited.as_slice(), b"short");
    let text: &'static str = "static";
    assert_eq!(Buf::len(&text), 6);
    let bytes: &'static [u8] = b"bytes";
    assert_eq!(Buf::as_slice(&bytes), b"bytes");
}

#[test]
fn copy_lengths() {
    assert_eq!(copy_bytes(10, 3), 3);
    assert_eq!(copy_bytes(3, 10), 3);
    assert_eq!(copy_bytes(0, 10), 0);
}

#[test]
fn limiting_vectored_lengths() {
    let mut lens = vec![4, 4, 4];
    limit_lengths(&mut lens, 6);
    assert_eq!(lens, vec![4, 2, 0]);
    let mut lens = vec![4, 4, 4];
    limit_lengths(&mut lens, 100);
    assert_eq!(lens, vec![4, 4, 4]);
    let mut lens = vec![0, 5, 1];
    limit_lengths(&mut lens, 5);
    assert_eq!(lens, vec![0, 5, 0]);
}

#[test]
fn splitting_read_lengths() {
    // When called with `n = 10` with two buffers of size `8` the first buffer
    // gets `8` and the second `10 - 8 = 2`.
    assert_eq!(split_length(&[8, 8], 10), vec![8, 2]);
    assert_eq!(split_length(&[8, 8], 8), vec![8]);
    assert_eq!(split_length(&[8, 8], 16), vec![8, 8]);
    assert_eq!(split_length(&[0, 3, 5], 4), vec![0, 3, 1]);
    assert_eq!(split_length(&[3], 0), vec![0]);
}

#[test]
fn filling_vectored_buffers() {
    assert_eq!(fill_lengths(&[8, 8], 10), vec![8, 2]);
    assert_eq!(fill_lengths(&[8, 8], 100), vec![8, 8]);
    assert_eq!(fill_lengths(&[8, 0], 8), vec![8]);
    assert_eq!(fill_lengths(&[2, 0], 5), vec![2, 0]);
    assert_eq!(fill_lengths(&[], 5), Vec::<usize>::new());
    // Marking what was written marks what was filled.
    let filled = fill_lengths(&[2, 0, 4], 5);
    let written: usize = filled.iter().sum();
    assert_eq!(split_length(&[2, 0, 4], written), filled);
}

#[test]
fn vectored_buffers_fill_in_order() {
    let mut bufs: [Vec<u8>; 2] = [Vec::with_capacity(4), Vec::with_capacity(64)];
    let first = bufs[0].capacity();
    assert!(BufMutSlice::has_spare_capacity(&bufs));
    assert_eq!(
        BufMutSlice::total_spare_capacity(&bufs),
        bufs[0].capacity() + bufs[1].capacity()
    );
    let text: &[u8] = b"Hello world, this is a longer text!";
    let written = BufMutSlice::extend_from_slice(&mut bufs, text);
    assert_eq!(written, text.len());
    assert_eq!(&*bufs[0], &text[..first]);
    assert_eq!(&*bufs[1], &text[first..]);
}

#[test]
fn vectored_buffers_without_room_take_nothing() {
    let mut bufs: [Vec<u8>; 3] = [Vec::new(), Vec::new(), Vec::new()];
    assert!(!BufMutSlice::has_spare_capacity(&bufs));
    assert_eq!(BufMutSlice::total_spare_capacity(&bufs), 0);
    assert_eq!(BufMutSlice::extend_from_slice(&mut bufs, b"abc"), 0);
    assert!(bufs.iter().all(|buf| buf.is_empty()));
}

#[test]
fn limited_vectored_buffers_take_at_most_the_limit() {
    let bufs: [Vec<u8>; 2] = [Vec::with_capacity(64), Vec::with_capacity(64)];
    let mut limited = BufMutSlice::limit(bufs, 3);
    assert_eq!(BufMutSlice::total_spare_capacity(&limited), 3);
    assert_eq!(BufMutSlice::extend_from_slice(&mut limited, b"Hello"), 3);
    assert!(!BufMutSlice::has_spare_capacity(&limited));
    assert_eq!(BufMutSlice::extend_from_slice(&mut limited, b"world"), 0);
    let bufs = limited.into_inner();
    assert_eq!(&*bufs[0], b"Hel");
    assert!(bufs[1].is_empty());
}

#[test]
fn vectored_write_lengths() {
    let bufs: [&'static [u8]; 3] = [b"Hello", b" ", b"world"];
    assert_eq!(BufSlice::lengths(&bufs), vec![5, 1, 5]);
    assert_eq!(BufSlice::total_len(&bufs), 11);

    let limited = BufSlice::limit(bufs, 7);
    assert_eq!(BufSlice::lengths(&limited), vec![5, 1, 1]);
    assert_eq!(BufSlice::total_len(&limited), 7);

    let strings: [String; 2] = [String::from("abc"), String::from("de")];
    assert_eq!(BufSlice::total_len(&strings), 5);
    assert_eq!(sum_lengths(&vec![1, 2, 3]), 6);
}

#[test]
fn reading_bytes_in_memory() {
    let mut bytes: &[u8] = b"Hello world";
    let buf: Vec<u8> = Vec::with_capacity(5);
    let capacity = buf.capacity();
    let buf = Read::read(&mut bytes, buf).unwrap();
    assert_eq!(&*buf, &b"Hello world"[..capacity]);
    assert_eq!(bytes, &b"Hello world"[capacity..]);
    assert!(Read::is_read_vectored(&bytes));

    let buf = Read::read(&mut bytes, Vec::with_capacity(64)).unwrap();
    assert_eq!(&*buf, &b"Hello world"[capacity..]);
    assert!(bytes.is_empty());
}

#[test]
fn reading_n_bytes_in_memory() {
    let mut bytes: &[u8] = b"abc";
    let err = Read::read_n(&mut bytes, Vec::with_capacity(64), 4).unwrap_err();
    assert_eq!(err.kind(), std::io::ErrorKind::UnexpectedEof);
    assert_eq!(bytes, b"abc");

    let buf = Read::read_n(&mut bytes, Vec::with_capacity(64), 3).unwrap();
    assert_eq!(&*buf, b"abc");
    assert!(bytes.is_empty());
}

#[test]
fn reading_bytes_in_memory_into_vectored_buffers() {
    let mut bytes: &[u8] = b"Hello world";
    let bufs: [Vec<u8>; 2] = [Vec::with_capacity(5), Vec::with_capacity(64)];
    let first = bufs[0].capacity();
    let bufs = Read::read_vectored(&mut bytes, bufs).unwrap();
    assert_eq!(&*bufs[0], &b"Hello world"[..first]);
    assert_eq!(&*bufs[1], &b"Hello world"[first..]);
    assert!(bytes.is_empty());

    let mut bytes: &[u8] = b"Hi";
    let bufs: [Vec<u8>; 2] = [Vec::with_capacity(5), Vec::with_capacity(5)];
    assert!(Read::read_n_vectored(&mut bytes, bufs, 3).is_err());
    assert_eq!(bytes, b"Hi");
}
