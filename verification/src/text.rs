//! Building text: appending to strings and writing numbers as digits.

use vstd::prelude::*;
use vstd::string::StringExecFns;

verus! {

/// Appends `text` to `string`.
pub(crate) fn push_str(string: &mut String, text: &str)
    ensures
        final(string)@ == old(string)@ + text@,
{
    string.append(text);
}

/// `String::push`: appends `c` to `string`.
#[verifier::external_body]
pub(crate) fn push_char(string: &mut String, c: char)
    ensures
        final(string)@ == old(string)@.push(c),
{
    string.push(c);
}

/// The character of the digit `d`, below 16, in lower case.
pub open spec fn digit_char(d: nat) -> char {
    if d < 10 {
        ((d + 48) as u8) as char
    } else {
        ((d - 10 + 97) as u8) as char
    }
}

/// `n` written in decimal, without leading zeros.
pub open spec fn decimal(n: nat) -> Seq<char>
    decreases n,
{
    if n < 10 {
        seq![digit_char(n)]
    } else {
        decimal(n / 10).push(digit_char(n % 10))
    }
}

/// The character of the digit `d`, below 16, in lower case.
pub fn digit(d: u8) -> (c: char)
    requires
        d < 16,
    ensures
        c == digit_char(d as nat),
{
    if d < 10 {
        (d + 48) as char
    } else {
        (d - 10 + 97) as char
    }
}

/// Appends `n`, in decimal, to `string`.
pub fn push_decimal(string: &mut String, n: usize)
    ensures
        final(string)@ == old(string)@ + decimal(n as nat),
    decreases n,
{
    if n >= 10 {
        push_decimal(string, n / 10);
    }
    push_char(string, digit((n % 10) as u8));
    proof {
        if n >= 10 {
            assert(decimal(n as nat) == decimal((n / 10) as nat).push(digit_char((n % 10) as nat)));
        } else {
            assert(decimal(n as nat) == seq![digit_char(n as nat)]);
        }
    }
}

} // verus!
