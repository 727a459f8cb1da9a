//! Errors of the operating system, as the standard library reports them.

use vstd::prelude::*;

verus! {

#[verifier::external_type_specification]
#[verifier::external_body]
pub struct ExIoError(std::io::Error);

/// The message of `err`, as its `Display` implementation writes it. The text
/// comes from the operating system, so nothing is stated of it.
#[verifier::external_body]
pub(crate) fn io_error_message(err: &std::io::Error) -> String {
    err.to_string()
}

/// `std::io::Error::from(ErrorKind::UnexpectedEof)`: the error of a read
/// that ends before the bytes it needs. Its kind has no specification here,
/// so nothing is stated of it.
#[verifier::external_body]
pub(crate) fn unexpected_eof() -> std::io::Error {
    std::io::Error::from(std::io::ErrorKind::UnexpectedEof)
}

} // verus!
