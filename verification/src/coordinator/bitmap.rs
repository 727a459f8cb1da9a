//! Bitmap of ready system futures.
//!
//! See [`AtomicBitMap`].

use vstd::prelude::*;
use vstd::arithmetic::div_mod::lemma_fundamental_div_mod;
use vstd::arithmetic::mul::{lemma_mul_inequality, lemma_mul_is_distributive_add_other_way};

use crate::bitmap::{
    binary_text, binary_words, bitmap_bits, claims, lemma_bit_in_word, lemma_bit_position, lemma_replace_word, lemma_zeroed_words,
    word_count, words_for, zeroed_words,
};
use crate::bits::{is_set, lemma_clear_bit, lemma_set_bit, lemma_zero_has_no_bits, trailing_zeros, word_bits};

verus! {

/// Variable sized bitmap.
///
/// Each index is a slot that is either set or unset; [`AtomicBitMap::set`]
/// sets one, [`AtomicBitMap::next_set`] claims (unsets) the lowest set one.
/// Used to track which system futures of the coordinator are ready to run.
pub struct AtomicBitMap {
    data: Vec<usize>,
}

impl View for AtomicBitMap {
    type V = Seq<bool>;

    closed spec fn view(&self) -> Seq<bool> {
        bitmap_bits(self.data@)
    }
}

impl AtomicBitMap {
    /// The bitmap's indices fit in a `usize`.
    #[verifier::type_invariant]
    spec fn indices_fit(self) -> bool {
        self.data@.len() * word_bits() <= usize::MAX
    }

    /// Create a new `AtomicBitMap`.
    ///
    /// `entries` is a minimum number of slots, use [`AtomicBitMap::capacity`]
    /// to determine the actual number of bits available: `entries` rounded up
    /// to a multiple of `usize::BITS`.
    pub fn new(entries: usize) -> (map: AtomicBitMap)
        requires
            entries + word_bits() <= usize::MAX,
        ensures
            map@.len() == words_for(entries as nat) * word_bits(),
            map@.len() >= entries,
            map@.len() < entries + word_bits(),
            forall|i: int| 0 <= i < map@.len() ==> !#[trigger] map@[i],
    {
        let size = word_count(entries);
        let data = zeroed_words(size);
        proof {
            lemma_zeroed_words(data@);
        }
        AtomicBitMap { data }
    }

    /// The bitmap written in binary, a word at a time, each word's most
    /// significant bit first: how the bitmap prints itself for debugging.
    pub fn to_binary(&self) -> (text: String)
        ensures
            text@ == binary_text(self@),
    {
        proof {
            use_type_invariant(self);
        }
        binary_words(&self.data)
    }

    /// Whether `index` is set.
    pub fn is_set(&self, index: usize) -> (set: bool)
        requires
            index < self@.len(),
        ensures
            set == self@[index as int],
    {
        proof {
            use_type_invariant(self);
        }
        let bits = usize::BITS as usize;
        let idx = index / bits;
        let n = index % bits;
        proof {
            lemma_bit_in_word(self.data@.len(), index as int);
        }
        is_set(self.data[idx], n)
    }

    /// Returns the number of indices the bitmap can manage.
    pub fn capacity(&self) -> (capacity: usize)
        ensures
            capacity == self@.len(),
    {
        proof {
            use_type_invariant(self);
        }
        self.data.len() * usize::BITS as usize
    }

    /// Replaces word `idx` with `value`.
    fn set_word(&mut self, idx: usize, value: usize)
        requires
            idx < old(self).data@.len(),
        ensures
            final(self).data@ == old(self).data@.update(idx as int, value),
    {
        proof {
            use_type_invariant(&*self);
        }
        let mut data: Vec<usize> = Vec::new();
        std::mem::swap(&mut data, &mut self.data);
        data.set(idx, value);
        self.data = data;
    }

    /// Claims the lowest set index, unsetting it, or returns `None` if no
    /// index is set.
    pub fn next_set(&mut self) -> (index: Option<usize>)
        ensures
            claims(old(self)@, index, final(self)@),
    {
        proof {
            use_type_invariant(&*self);
        }
        let bits = usize::BITS as usize;
        let mut idx: usize = 0;
        while idx < self.data.len()
            invariant
                self.data@ == old(self).data@,
                old(self).data@.len() * word_bits() <= usize::MAX,
                bits == word_bits(),
                idx <= self.data@.len(),
                forall|j: int| 0 <= j < idx * word_bits() ==> !#[trigger] old(self)@[j],
            decreases self.data@.len() - idx,
        {
            let value = self.data[idx];
            let i = trailing_zeros(value);
            if i < usize::BITS {
                let n = i as usize;
                let new_value = value & !(1usize << n);
                self.set_word(idx, new_value);
                let claimed = is_set(value, n);
                proof {
                    assert(claimed);
                    lemma_mul_inequality(idx as int + 1, old(self).data@.len() as int, (word_bits() as int));
                    lemma_mul_is_distributive_add_other_way((word_bits() as int), idx as int, 1);
                    lemma_bit_position(idx as int, n as int);
                    let k = idx * word_bits() + n;
                    lemma_replace_word(old(self).data@, idx as int, new_value);
                    assert forall|j: int| 0 <= j < old(self)@.len() implies
                        #[trigger] self@[j] == old(self)@.update(k, false)[j] by {
                        lemma_bit_in_word(old(self).data@.len(), j);
                        if j / (word_bits() as int) == idx as int {
                            lemma_clear_bit(value, n as nat, (j % (word_bits() as int)) as nat);
                            lemma_bit_position(idx as int, j % (word_bits() as int));
                        }
                    }
                    assert(self@ =~= old(self)@.update(k, false));
                    assert forall|j: int| 0 <= j < k implies !#[trigger] old(self)@[j] by {
                        if j >= idx * word_bits() {
                            lemma_bit_position(idx as int, j - idx * word_bits());
                        }
                    }
                }
                if claimed {
                    return Some(idx * bits + n);
                }
            }
            proof {
                lemma_mul_inequality(idx as int + 1, old(self).data@.len() as int, (word_bits() as int));
                lemma_mul_is_distributive_add_other_way((word_bits() as int), idx as int, 1);
                assert forall|j: int| 0 <= j < (idx + 1) * word_bits() implies !#[trigger] old(self)@[j] by {
                    if j >= idx * word_bits() {
                        lemma_bit_position(idx as int, j - idx * word_bits());
                        lemma_zero_has_no_bits((j - idx * word_bits()) as nat);
                    }
                }
            }
            idx += 1;
        }
        None
    }

    /// Set the bit at `index`, which must be within the capacity and not set
    /// yet.
    pub fn set(&mut self, index: usize)
        requires
            index < old(self)@.len(),
            !old(self)@[index as int],
        ensures
            final(self)@ == old(self)@.update(index as int, true),
    {
        proof {
            use_type_invariant(&*self);
        }
        let bits = usize::BITS as usize;
        let idx = index / bits;
        let n = index % bits;
        if idx < self.data.len() {
            let value = self.data[idx];
            let new_value = value | (1usize << n);
            self.set_word(idx, new_value);
            proof {
                lemma_fundamental_div_mod(index as int, bits as int);
                lemma_replace_word(old(self).data@, idx as int, new_value);
                assert forall|j: int| 0 <= j < old(self)@.len() implies
                    #[trigger] self@[j] == old(self)@.update(index as int, true)[j] by {
                    lemma_bit_in_word(old(self).data@.len(), j);
                    if j / (word_bits() as int) == idx as int {
                        lemma_set_bit(value, n as nat, (j % (word_bits() as int)) as nat);
                    }
                }
                assert(index < old(self)@.len()) by {
                    lemma_bit_position(idx as int, n as int);
                    lemma_mul_inequality(idx as int + 1, old(self).data@.len() as int, (word_bits() as int));
                }
                assert(self@ =~= old(self)@.update(index as int, true));
            }
        } else {
            proof {
                lemma_fundamental_div_mod(index as int, bits as int);
                lemma_bit_in_word(old(self).data@.len(), index as int);
            }
        }
    }
}

} // verus!
