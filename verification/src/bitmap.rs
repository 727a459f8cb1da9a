//! Bitmap of wake-ups.
//!
//! See [`AtomicBitMap`].

use vstd::prelude::*;
use vstd::arithmetic::div_mod::{lemma_fundamental_div_mod, lemma_fundamental_div_mod_converse};
use vstd::arithmetic::mul::{lemma_mul_inequality, lemma_mul_is_distributive_add_other_way};

use crate::text::push_char;
use crate::bits::{bit_of, is_set, lemma_clear_bit, lemma_set_bit, lemma_zero_has_no_bits, trailing_zeros, word_bits};

verus! {

/// Bit `index` of a bitmap stored as the words `data`, word `index / usize::BITS`
/// holding bit `index % usize::BITS`.
pub open spec fn bitmap_bit(data: Seq<usize>, index: int) -> bool {
    bit_of(data[index / (word_bits() as int)], (index % (word_bits() as int)) as nat)
}

/// The bits of the words `data`, in order.
pub open spec fn bitmap_bits(data: Seq<usize>) -> Seq<bool> {
    Seq::new(data.len() * word_bits(), |index: int| bitmap_bit(data, index))
}

/// The number of words needed to hold `entries` bits.
pub open spec fn words_for(entries: nat) -> nat {
    if entries % word_bits() == 0 {
        entries / word_bits()
    } else {
        entries / word_bits() + 1
    }
}

/// Bit `bit` of word `word` is bit `word * usize::BITS + bit` of the bitmap.
pub proof fn lemma_bit_position(word: int, bit: int)
    requires
        0 <= word,
        0 <= bit < word_bits(),
    ensures
        (word * word_bits() + bit) / (word_bits() as int) == word,
        (word * word_bits() + bit) % (word_bits() as int) == bit,
{
    lemma_fundamental_div_mod_converse(word * word_bits() + bit, (word_bits() as int), word, bit);
}

/// Every bit of a bitmap lies in one of its words.
pub proof fn lemma_bit_in_word(len: nat, index: int)
    requires
        0 <= index < len * word_bits(),
    ensures
        0 <= index / (word_bits() as int) < len,
        0 <= index % (word_bits() as int) < word_bits(),
        index == (index / (word_bits() as int)) * word_bits() + index % (word_bits() as int),
{
    let b = (word_bits() as int);
    lemma_fundamental_div_mod(index, b);
    if index / b >= len {
        lemma_mul_inequality(len as int, index / b, b);
    }
}

/// Replacing word `word` by `value` changes only the bits of that word.
pub proof fn lemma_replace_word(data: Seq<usize>, word: int, value: usize)
    requires
        0 <= word < data.len(),
    ensures
        forall|index: int| 0 <= index < data.len() * word_bits() ==>
            #[trigger] bitmap_bits(data.update(word, value))[index] == if index / (word_bits() as int) == word {
                bit_of(value, (index % (word_bits() as int)) as nat)
            } else {
                bitmap_bits(data)[index]
            },
{
    assert forall|index: int| 0 <= index < data.len() * word_bits() implies
        #[trigger] bitmap_bits(data.update(word, value))[index] == if index / (word_bits() as int) == word {
            bit_of(value, (index % (word_bits() as int)) as nat)
        } else {
            bitmap_bits(data)[index]
        } by {
        lemma_bit_in_word(data.len(), index);
    }
}

/// A bitmap of zeroed words has no bit set.
pub proof fn lemma_zeroed_words(data: Seq<usize>)
    requires
        forall|w: int| 0 <= w < data.len() ==> data[w] == 0usize,
    ensures
        forall|index: int| 0 <= index < data.len() * word_bits() ==> !#[trigger] bitmap_bits(data)[index],
{
    assert forall|index: int| 0 <= index < data.len() * word_bits() implies !#[trigger] bitmap_bits(data)[index] by {
        lemma_bit_in_word(data.len(), index);
        lemma_zero_has_no_bits((index % (word_bits() as int)) as nat);
    }
}

/// Builds `size` zeroed words.
pub fn zeroed_words(size: usize) -> (data: Vec<usize>)
    ensures
        data@.len() == size,
        forall|w: int| 0 <= w < size ==> data@[w] == 0usize,
{
    let mut data: Vec<usize> = Vec::new();
    while data.len() < size
        invariant
            data@.len() <= size,
            forall|w: int| 0 <= w < data@.len() ==> data@[w] == 0usize,
        decreases size - data@.len(),
    {
        data.push(0);
    }
    data
}

/// Returns the number of words needed to hold `entries` bits: `entries`
/// divided by `usize::BITS`, rounded up.
pub fn word_count(entries: usize) -> (size: usize)
    ensures
        size == words_for(entries as nat),
        size * word_bits() >= entries,
        size * word_bits() < entries + word_bits(),
{
    let bits = usize::BITS as usize;
    let mut size = entries / bits;
    proof {
        lemma_fundamental_div_mod(entries as int, bits as int);
    }
    if entries % bits != 0 {
        size += 1;
        proof {
            lemma_mul_is_distributive_add_other_way(bits as int, (entries / bits) as int, 1);
        }
    }
    size
}

/// `bits` written in binary a word at a time, the most significant bit of each
/// word first, as a bitmap prints itself.
pub open spec fn binary_text(bits: Seq<bool>) -> Seq<char> {
    Seq::new(
        bits.len(),
        |i: int|
            if bits[(i / (word_bits() as int)) * word_bits() + (word_bits() - 1 - i % (word_bits() as int))] {
                '1'
            } else {
                '0'
            },
    )
}

/// The words `data` written in binary, a word at a time, each word's most
/// significant bit first.
pub fn binary_words(data: &Vec<usize>) -> (text: String)
    requires
        data@.len() * word_bits() <= usize::MAX,
    ensures
        text@ == binary_text(bitmap_bits(data@)),
{
    let bits = usize::BITS as usize;
    let ghost all = bitmap_bits(data@);
    let mut text = String::new();
    let mut w: usize = 0;
    while w < data.len()
        invariant
            bits == word_bits(),
            all == bitmap_bits(data@),
            data@.len() * word_bits() <= usize::MAX,
            w <= data@.len(),
            text@.len() == w * bits,
            forall|q: int| 0 <= q < text@.len() ==> #[trigger] text@[q] == binary_text(all)[q],
        decreases data@.len() - w,
    {
        let value = data[w];
        let mut i: usize = 0;
        proof {
            lemma_mul_inequality(w as int + 1, data@.len() as int, bits as int);
            lemma_mul_is_distributive_add_other_way(bits as int, w as int, 1);
        }
        while i < bits
            invariant
                bits == word_bits(),
                all == bitmap_bits(data@),
                w < data@.len(),
                (w + 1) * bits <= data@.len() * bits,
                (w + 1) * bits == w * bits + bits,
                value == data@[w as int],
                i <= bits,
                text@.len() == w * bits + i,
                forall|q: int| 0 <= q < text@.len() ==> #[trigger] text@[q] == binary_text(all)[q],
            decreases bits - i,
        {
            let bit = bits - 1 - i;
            let c = if is_set(value, bit) {
                '1'
            } else {
                '0'
            };
            proof {
                let q = (w * bits + i) as int;
                lemma_bit_position(w as int, i as int);
                lemma_bit_position(w as int, bit as int);
                assert(q / (word_bits() as int) == w && q % (word_bits() as int) == i);
                let k = (w as int) * word_bits() + bit;
                assert(all[k] == bit_of(value, bit as nat));
                assert(binary_text(all)[q] == c);
            }
            let ghost before = text@;
            push_char(&mut text, c);
            proof {
                assert forall|q: int| 0 <= q < text@.len() implies #[trigger] text@[q] == binary_text(all)[q] by {
                    if q < before.len() {
                        assert(text@[q] == before[q]);
                    }
                }
            }
            i = i + 1;
        }
        w = w + 1;
    }
    proof {
        assert(text@ =~= binary_text(all));
    }
    text
}

/// Claiming the lowest set index of `before` gives `index` and leaves `after`:
/// the lowest set index, now unset, or `None` and nothing changed where no
/// index is set.
pub open spec fn claims(before: Seq<bool>, index: Option<usize>, after: Seq<bool>) -> bool {
    &&& after.len() == before.len()
    &&& match index {
        Some(i) => {
            &&& i < before.len()
            &&& before[i as int]
            &&& forall|j: int| 0 <= j < i ==> !#[trigger] before[j]
            &&& after == before.update(i as int, false)
        },
        None => {
            &&& forall|j: int| 0 <= j < before.len() ==> !#[trigger] before[j]
            &&& after == before
        },
    }
}

/// Setting an index and then claiming one: where no lower index is set, the
/// claim takes the index that was set, and leaves it unset.
pub proof fn lemma_claim_after_set(bits: Seq<bool>, set: int, index: Option<usize>, after: Seq<bool>)
    requires
        0 <= set < bits.len(),
        forall|j: int| 0 <= j < set ==> !#[trigger] bits[j],
        claims(bits.update(set, true), index, after),
    ensures
        index == Some(set as usize),
        after == bits.update(set, false),
{
    let marked = bits.update(set, true);
    match index {
        Some(i) => {
            if i < set {
                assert(bits[i as int] == marked[i as int]);
            } else if i > set {
                assert(!marked[set]);
            }
            assert(after =~= bits.update(set, false));
        },
        None => {
            assert(marked[set]);
        },
    }
}

/// Each set index is claimed once: after an index is claimed, the next claim
/// does not take it again unless it was set anew.
pub proof fn lemma_claimed_once(
    bits: Seq<bool>,
    first: usize,
    between: Seq<bool>,
    second: Option<usize>,
    after: Seq<bool>,
)
    requires
        claims(bits, Some(first), between),
        claims(between, second, after),
    ensures
        second != Some(first),
{
}

/// Variable sized bitmap.
///
/// Each index is a slot that is either set or unset; [`AtomicBitMap::set`]
/// sets one, [`AtomicBitMap::next_set`] claims (unsets) the lowest set one.
pub struct AtomicBitMap {
    data: Vec<usize>,
}

impl View for AtomicBitMap {
    type V = Seq<bool>;

    closed spec fn view(&self) -> Seq<bool> {
        bitmap_bits(self.data@)
    }
}

impl AtomicBitMap {
    /// The bitmap's indices fit in a `usize`.
    #[verifier::type_invariant]
    spec fn indices_fit(self) -> bool {
        self.data@.len() * word_bits() <= usize::MAX
    }

    /// Create a new `AtomicBitMap`.
    ///
    /// `entries` is a minimum number of slots, use [`AtomicBitMap::capacity`]
    /// to determine the actual number of bits available: `entries` rounded up
    /// to a multiple of `usize::BITS`.
    pub fn new(entries: usize) -> (map: AtomicBitMap)
        requires
            entries + word_bits() <= usize::MAX,
        ensures
            map@.len() == words_for(entries as nat) * word_bits(),
            map@.len() >= entries,
            map@.len() < entries + word_bits(),
            forall|i: int| 0 <= i < map@.len() ==> !#[trigger] map@[i],
    {
        let size = word_count(entries);
        let data = zeroed_words(size);
        proof {
            lemma_zeroed_words(data@);
        }
        AtomicBitMap { data }
    }

    /// The bitmap written in binary, a word at a time, each word's most
    /// significant bit first: how the bitmap prints itself for debugging.
    pub fn to_binary(&self) -> (text: String)
        ensures
            text@ == binary_text(self@),
    {
        proof {
            use_type_invariant(self);
        }
        binary_words(&self.data)
    }

    /// Returns the number of indices the bitmap can manage.
    pub fn capacity(&self) -> (capacity: usize)
        ensures
            capacity == self@.len(),
    {
        proof {
            use_type_invariant(self);
        }
        self.data.len() * usize::BITS as usize
    }

    /// Replaces word `idx` with `value`.
    fn set_word(&mut self, idx: usize, value: usize)
        requires
            idx < old(self).data@.len(),
        ensures
            final(self).data@ == old(self).data@.update(idx as int, value),
    {
        proof {
            use_type_invariant(&*self);
        }
        let mut data: Vec<usize> = Vec::new();
        std::mem::swap(&mut data, &mut self.data);
        data.set(idx, value);
        self.data = data;
    }

    /// Claims the lowest set index, unsetting it, or returns `None` if no
    /// index is set.
    pub fn next_set(&mut self) -> (index: Option<usize>)
        ensures
            claims(old(self)@, index, final(self)@),
    {
        proof {
            use_type_invariant(&*self);
        }
        let bits = usize::BITS as usize;
        let mut idx: usize = 0;
        while idx < self.data.len()
            invariant
                self.data@ == old(self).data@,
                old(self).data@.len() * word_bits() <= usize::MAX,
                bits == word_bits(),
                idx <= self.data@.len(),
                forall|j: int| 0 <= j < idx * word_bits() ==> !#[trigger] old(self)@[j],
            decreases self.data@.len() - idx,
        {
            let value = self.data[idx];
            let i = trailing_zeros(value);
            if i < usize::BITS {
                let n = i as usize;
                let new_value = value & !(1usize << n);
                self.set_word(idx, new_value);
                let claimed = is_set(value, n);
                proof {
                    assert(claimed);
                    lemma_mul_inequality(idx as int + 1, old(self).data@.len() as int, (word_bits() as int));
                    lemma_mul_is_distributive_add_other_way((word_bits() as int), idx as int, 1);
                    lemma_bit_position(idx as int, n as int);
                    let k = idx * word_bits() + n;
                    lemma_replace_word(old(self).data@, idx as int, new_value);
                    assert forall|j: int| 0 <= j < old(self)@.len() implies
                        #[trigger] self@[j] == old(self)@.update(k, false)[j] by {
                        lemma_bit_in_word(old(self).data@.len(), j);
                        if j / (word_bits() as int) == idx as int {
                            lemma_clear_bit(value, n as nat, (j % (word_bits() as int)) as nat);
                            lemma_bit_position(idx as int, j % (word_bits() as int));
                        }
                    }
                    assert(self@ =~= old(self)@.update(k, false));
                    assert forall|j: int| 0 <= j < k implies !#[trigger] old(self)@[j] by {
                        if j >= idx * word_bits() {
                            lemma_bit_position(idx as int, j - idx * word_bits());
                        }
                    }
                }
                if claimed {
                    return Some(idx * bits + n);
                }
            }
            proof {
                lemma_mul_inequality(idx as int + 1, old(self).data@.len() as int, (word_bits() as int));
                lemma_mul_is_distributive_add_other_way((word_bits() as int), idx as int, 1);
                assert forall|j: int| 0 <= j < (idx + 1) * word_bits() implies !#[trigger] old(self)@[j] by {
                    if j >= idx * word_bits() {
                        lemma_bit_position(idx as int, j - idx * word_bits());
                        lemma_zero_has_no_bits((j - idx * word_bits()) as nat);
                    }
                }
            }
            idx += 1;
        }
        None
    }

    /// Sets the bit at `index`. An `index` beyond the capacity is ignored.
    pub fn set(&mut self, index: usize)
        ensures
            final(self)@ == if index < old(self)@.len() {
                old(self)@.update(index as int, true)
            } else {
                old(self)@
            },
    {
        proof {
            use_type_invariant(&*self);
        }
        let bits = usize::BITS as usize;
        let idx = index / bits;
        let n = index % bits;
        if idx < self.data.len() {
            let value = self.data[idx];
            let new_value = value | (1usize << n);
            self.set_word(idx, new_value);
            proof {
                lemma_fundamental_div_mod(index as int, bits as int);
                lemma_replace_word(old(self).data@, idx as int, new_value);
                assert forall|j: int| 0 <= j < old(self)@.len() implies
                    #[trigger] self@[j] == old(self)@.update(index as int, true)[j] by {
                    lemma_bit_in_word(old(self).data@.len(), j);
                    if j / (word_bits() as int) == idx as int {
                        lemma_set_bit(value, n as nat, (j % (word_bits() as int)) as nat);
                    }
                }
                assert(index < old(self)@.len()) by {
                    lemma_bit_position(idx as int, n as int);
                    lemma_mul_inequality(idx as int + 1, old(self).data@.len() as int, (word_bits() as int));
                }
                assert(self@ =~= old(self)@.update(index as int, true));
            }
        } else {
            proof {
                lemma_fundamental_div_mod(index as int, bits as int);
                if index < old(self)@.len() {
                    lemma_bit_in_word(old(self).data@.len(), index as int);
                }
            }
        }
    }
}

} // verus!
