//! A bitmap over 64-bit words.

use vstd::prelude::*;

verus! {

/// Bits held by one word of a bitmap.
pub const BITS_PER_ITEM: usize = 64;

/// A word whose bits are all set.
pub const FULL_ITEM: u64 = 0xffff_ffff_ffff_ffff;

/// Whether bit `bit` of `word` is set.
pub open spec fn bit_of(word: u64, bit: u64) -> bool {
    word & (1u64 << bit) != 0
}

/// The bits of `words`, those of the first word first, the lowest bit of a
/// word first.
pub open spec fn bits_of(words: Seq<u64>) -> Seq<bool> {
    Seq::new(words.len() * 64, |i: int| bit_of(words[i / 64], (i % 64) as u64))
}

/// Setting and clearing one bit of a word changes that bit and no other, and
/// a full word has every bit set.
pub proof fn lemma_bit_update(word: u64, bit: u64, other: u64)
    by (bit_vector)
    requires
        bit < 64,
        other < 64,
    ensures
        ((word | (1u64 << bit)) & (1u64 << other) != 0) == (other == bit || (word & (1u64
            << other)) != 0),
        ((word & !(1u64 << bit)) & (1u64 << other) != 0) == (other != bit && (word & (1u64
            << other)) != 0),
        0xffff_ffff_ffff_ffffu64 & (1u64 << other) != 0,
{
}

/// A sequence of bits, each set or unset.
pub struct Bitmap {
    data: Vec<u64>,
}

impl View for Bitmap {
    type V = Seq<bool>;

    closed spec fn view(&self) -> Seq<bool> {
        bits_of(self.data@)
    }
}

impl Bitmap {
    #[verifier::type_invariant]
    spec fn addressable(self) -> bool {
        self.data@.len() * 64 <= usize::MAX
    }

    /// The bitmap over the words `data`.  Each of its bits has an index that
    /// a machine word can hold.
    pub fn new(data: Vec<u64>) -> (bitmap: Bitmap)
        requires
            data@.len() * 64 <= usize::MAX,
        ensures
            bitmap@ == bits_of(data@),
    {
        Bitmap { data }
    }

    /// The words of the bitmap.
    pub fn slice(&self) -> (words: &[u64])
        ensures
            bits_of(words@) == self@,
    {
        self.data.as_slice()
    }

    /// Sets bit `index` where `value` holds, and clears it otherwise.
    #[verifier::rlimit(30)]
    pub fn set(&mut self, index: usize, value: bool)
        requires
            index < old(self)@.len(),
        ensures
            final(self)@ == old(self)@.update(index as int, value),
        no_unwind
    {
        proof {
            use_type_invariant(&*self);
        }
        let item = index / BITS_PER_ITEM;
        let bit = (index % BITS_PER_ITEM) as u64;
        let word = self.data[item];
        let changed = if value {
            word | (1u64 << bit)
        } else {
            word & !(1u64 << bit)
        };
        self.data[item] = changed;
        assert forall|i: int| 0 <= i < self@.len() implies self@[i] == old(self)@.update(
            index as int,
            value,
        )[i] by {
            if i / 64 == item as int {
                lemma_bit_update(word, bit, (i % 64) as u64);
            }
        }
        assert(self@ =~= old(self)@.update(index as int, value));
    }

    /// Whether bit `index` is set.
    pub fn get(&self, index: usize) -> (value: bool)
        requires
            index < self@.len(),
        ensures
            value == self@[index as int],
    {
        (self.data[index / BITS_PER_ITEM] & (1u64 << ((index % BITS_PER_ITEM) as u64))) != 0
    }

    /// The first unset bit at or after the start of the word that holds bit
    /// `start_index`; `None` where every bit from there on is set.
    #[verifier::rlimit(30)]
    pub fn first_unset(&self, start_index: usize) -> (found: Option<usize>)
        ensures
            match found {
                Some(index) => {
                    &&& start_index / 64 * 64 <= index < self@.len()
                    &&& !self@[index as int]
                    &&& forall|j: int| start_index / 64 * 64 <= j < index ==> self@[j]
                },
                None => forall|j: int| start_index / 64 * 64 <= j < self@.len() ==> self@[j],
            },
    {
        proof {
            use_type_invariant(self);
        }
        let start = start_index / BITS_PER_ITEM;
        let end = self.data.len();
        let mut index = start;
        while index < end
            invariant
                start <= index,
                end == self.data@.len(),
                end * 64 <= usize::MAX,
                start == start_index / 64,
                forall|j: int| start * 64 <= j < index * 64 && j < self@.len() ==> self@[j],
            decreases end - index,
        {
            if self.data[index] == FULL_ITEM {
                assert forall|j: int| index * 64 <= j < (index + 1) * 64 implies self@[j] by {
                    lemma_bit_update(self.data@[index as int], 0, (j % 64) as u64);
                }
            } else {
                let start_bit = index * BITS_PER_ITEM;
                let end_bit = (index + 1) * BITS_PER_ITEM;
                let mut bit_index = start_bit;
                while bit_index < end_bit
                    invariant
                        start_bit <= bit_index <= end_bit,
                        start_bit == index * 64,
                        end_bit == start_bit + 64,
                        index < end,
                        end == self.data@.len(),
                        start <= index,
                        start == start_index / 64,
                        forall|j: int| start * 64 <= j < bit_index ==> self@[j],
                    decreases end_bit - bit_index,
                {
                    if !self.get(bit_index) {
                        return Some(bit_index);
                    }
                    bit_index += 1;
                }
            }
            index += 1;
        }
        None
    }
}

} // verus!
