//! Type definitions for I/O functionality: the buffers that reads write into
//! and writes read from, alone ([`buf`]) or together in vectored I/O
//! ([`buf_slice`]), and reading from bytes in memory ([`read`]).

pub mod buf;
pub mod buf_slice;
pub mod read;
