//! Single bits of a machine word, and the lemmas the bitmaps and tries use.

use vstd::prelude::*;

verus! {

/// The number of bits in a `usize`.
pub open spec fn word_bits() -> nat {
    usize::BITS as nat
}

/// Bit `n` of `value`, counting from the least significant bit.
pub open spec fn bit_of(value: usize, n: nat) -> bool {
    n < word_bits() && (value >> n) & 1usize == 1usize
}

/// Returns true if bit `n` is set in `value`. `n` is zero indexed, i.e. must be
/// in the range `0..usize::BITS`.
pub fn is_set(value: usize, n: usize) -> (set: bool)
    requires
        n < usize::BITS,
    ensures
        set == bit_of(value, n as nat),
{
    ((value >> n) & 1) == 1
}

/// `usize::trailing_zeros`: the number of zero bits below the lowest set bit of
/// `value`, `usize::BITS` for zero. The contract states exactly that: every
/// bit below the result is clear and, unless the result is `usize::BITS`, the
/// bit at the result is set.
#[verifier::external_body]
pub(crate) fn trailing_zeros(value: usize) -> (tz: u32)
    ensures
        tz <= usize::BITS,
        tz == usize::BITS <==> value == 0,
        tz < usize::BITS ==> bit_of(value, tz as nat),
        forall|j: nat| j < tz ==> !#[trigger] bit_of(value, j),
{
    value.trailing_zeros()
}

/// No bit of zero is set.
pub proof fn lemma_zero_has_no_bits(n: nat)
    ensures
        !bit_of(0usize, n),
{
    if n < word_bits() {
        let m = n as usize;
        assert((0usize >> m) & 1usize == 0usize) by (bit_vector);
    }
}

/// Setting bit `n` sets it and leaves every other bit as it was.
pub proof fn lemma_set_bit(value: usize, n: nat, m: nat)
    requires
        n < word_bits(),
    ensures
        bit_of(value | (1usize << n), m) == (m == n || bit_of(value, m)),
{
    if m < word_bits() {
        let a = n as usize;
        let b = m as usize;
        assert(a < usize::BITS && b < usize::BITS ==> (((value | (1usize << a)) >> b) & 1usize == 1usize)
            == (b == a || (value >> b) & 1usize == 1usize)) by (bit_vector);
    }
}

/// Clearing bit `n` clears it and leaves every other bit as it was.
pub proof fn lemma_clear_bit(value: usize, n: nat, m: nat)
    requires
        n < word_bits(),
    ensures
        bit_of(value & !(1usize << n), m) == (m != n && bit_of(value, m)),
{
    if m < word_bits() {
        let a = n as usize;
        let b = m as usize;
        assert(a < usize::BITS && b < usize::BITS ==> (((value & !(1usize << a)) >> b) & 1usize == 1usize)
            == (b != a && (value >> b) & 1usize == 1usize)) by (bit_vector);
    }
}

} // verus!
