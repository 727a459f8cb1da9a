//! Waker data of the coordinator.
//!
//! A waker of the coordinator sets a bit in a bitmap. Its data word holds both
//! the address of the bitmap and the index of the bit: the address in the low
//! bits, which a pointer uses, and the index in the high bits, which it leaves
//! unused.

use vstd::prelude::*;
use vstd::arithmetic::div_mod::lemma_fundamental_div_mod;
use vstd::arithmetic::mul::lemma_mul_is_distributive_add_other_way;

use crate::bits::word_bits;

verus! {

/// Number of bits we expect a 64 bit pointer to not use, leaving them for us
/// to fill with our index.
pub const PTR_BITS_UNUSED: u64 = 16;
/// Amount of bits to shift to not overwrite the pointer address.
pub const PTR_DATA_SHIFT: u64 = 48;
/// Maximum number of wakers this module supports.
pub const MAX_WAKERS: u64 = 0x1_0000;
/// Mask to get the data from a pointer.
pub const DATA_MASK: u64 = 0xffff_0000_0000_0000;
/// Mask to get the pointer to the bitmap.
pub const PTR_MASK: u64 = 0x0000_ffff_ffff_ffff;

/// The data word for the bitmap at `address` and the waker index `id`.
pub open spec fn packed(address: u64, id: u64) -> int {
    address + id * 0x1_0000_0000_0000
}

/// Squashes the address of a bitmap and the index `id` of a waker together
/// into one data word.
///
/// The address must leave the top [`PTR_BITS_UNUSED`] bits unused and `id`
/// must be smaller than [`MAX_WAKERS`].
pub fn into_data(address: u64, id: u64) -> (data: u64)
    requires
        address & DATA_MASK == 0,
        id < MAX_WAKERS,
    ensures
        data == packed(address, id),
{
    assert(address & 0xffff_0000_0000_0000u64 == 0 && id < 0x1_0000u64 ==>
        address | (id << 48u64) == address + id * 0x1_0000_0000_0000u64) by (bit_vector);
    address | (id << PTR_DATA_SHIFT)
}

/// Splits a data word made by [`into_data`] into the address of the bitmap
/// and the index of the waker.
pub fn from_data(data: u64) -> (parts: (u64, u64))
    ensures
        parts.0 & DATA_MASK == 0,
        parts.1 < MAX_WAKERS,
        data == packed(parts.0, parts.1),
{
    let address = data & PTR_MASK;
    let id = (data & DATA_MASK) >> PTR_DATA_SHIFT;
    assert((data & 0x0000_ffff_ffff_ffffu64) & 0xffff_0000_0000_0000u64 == 0) by (bit_vector);
    assert((data & 0xffff_0000_0000_0000u64) >> 48u64 < 0x1_0000u64) by (bit_vector);
    assert(data == (data & 0x0000_ffff_ffff_ffffu64)
        + ((data & 0xffff_0000_0000_0000u64) >> 48u64) * 0x1_0000_0000_0000u64) by (bit_vector);
    (address, id)
}

/// An address that leaves the data bits unused is below the first data bit.
proof fn lemma_address_below_data(address: u64)
    ensures
        address & DATA_MASK == 0 ==> address < 0x1_0000_0000_0000,
{
    assert(address & 0xffff_0000_0000_0000u64 == 0 ==> address < 0x1_0000_0000_0000u64) by (bit_vector);
}

/// Splitting the data word of a waker gives back the address and the index it
/// was made of.
pub proof fn lemma_data_round_trip(address: u64, id: u64, data: u64, parts: (u64, u64))
    requires
        address & DATA_MASK == 0,
        id < MAX_WAKERS,
        data == packed(address, id),
        parts.0 & DATA_MASK == 0,
        parts.1 < MAX_WAKERS,
        data == packed(parts.0, parts.1),
    ensures
        parts == (address, id),
{
    lemma_address_below_data(address);
    lemma_address_below_data(parts.0);
    assert(parts.1 == id) by (nonlinear_arith)
        requires
            address < 0x1_0000_0000_0000,
            parts.0 < 0x1_0000_0000_0000,
            0 <= address,
            0 <= parts.0,
            0 <= id,
            0 <= parts.1,
            address + id * 0x1_0000_0000_0000 == parts.0 + parts.1 * 0x1_0000_0000_0000,
    ;
}

/// Returns the minimum bitmap size, in words, such that bit `id` can be set.
pub fn min_bitmap_size(id: usize) -> (size: usize)
    ensures
        size * word_bits() > id,
        (size - 1) * word_bits() <= id,
{
    let bits = usize::BITS as usize;
    proof {
        lemma_fundamental_div_mod(id as int, bits as int);
        lemma_mul_is_distributive_add_other_way(bits as int, (id / bits) as int, 1);
    }
    id / bits + 1
}

} // verus!
