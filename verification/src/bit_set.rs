//! Bit sets of light update packets.
use vstd::prelude::*;

verus! {

/// A bit set in 64-bit words, least significant bit first.
#[derive(Debug, PartialEq, Eq)]
pub struct BitSet(pub Vec<u64>);

/// Whether a bit of a word is set.
pub open spec fn word_bit(word: u64, bit: int) -> bool {
    (word >> (bit as u64)) & 1 == 1
}

proof fn lemma_word_bits(word: u64, bit: u64, other: u64)
    by (bit_vector)
    requires
        bit < 64,
        other < 64,
    ensures
        ((word | (1u64 << bit)) >> bit) & 1 == 1,
        ((word & !(1u64 << bit)) >> bit) & 1 == 0,
        other != bit ==> ((word | (1u64 << bit)) >> other) & 1 == (word >> other) & 1,
        other != bit ==> ((word & !(1u64 << bit)) >> other) & 1 == (word >> other) & 1,
        (0u64 >> other) & 1 == 0,
        word & (1u64 << bit) != 0 <==> (word >> bit) & 1 == 1,
{
}

impl BitSet {
    /// The bit at an index is set. Bits beyond the words are clear.
    pub open spec fn has(&self, index: int) -> bool {
        0 <= index < self.0@.len() * 64 && word_bit(self.0@[index / 64], index % 64)
    }

    /// Creates a bit set of `words` words without set bits.
    #[must_use]
    pub fn cleared(words: usize) -> (bits: Self)
        ensures
            bits.0@.len() == words,
            forall|index: int| !#[trigger] bits.has(index),
    {
        let bits: BitSet = BitSet(vec![0; words]);
        proof {
            assert forall|index: int| !#[trigger] bits.has(index) by {
                if 0 <= index < bits.0@.len() * 64 {
                    lemma_word_bits(0, 0, (index % 64) as u64);
                    assert(bits.0@[index / 64] == 0);
                }
            }
        }
        bits
    }

    /// Returns whether the bit at an index is set.
    #[must_use]
    pub fn get(&self, index: usize) -> (result: bool)
        ensures
            result == self.has(index as int),
    {
        if index / 64 >= self.0.len() {
            return false;
        }
        let word: u64 = self.0[index / 64];
        let bit: u64 = (index % 64) as u64;
        proof {
            lemma_word_bits(word, bit, bit);
        }
        word & (1u64 << bit) != 0
    }

    /// Sets or clears the bit at an index.
    pub fn set(&mut self, index: usize, value: bool)
        requires
            index < old(self).0@.len() * 64,
        ensures
            final(self).0@.len() == old(self).0@.len(),
            final(self).has(index as int) == value,
            forall|other: int|
                other != index ==> #[trigger] final(self).has(other) == old(self).has(other),
    {
        let position: usize = index / 64;
        let word: u64 = self.0[position];
        let bit: u64 = (index % 64) as u64;
        let ghost before = self.0@;
        if value {
            self.0[position] = word | (1u64 << bit);
        } else {
            self.0[position] = word & !(1u64 << bit);
        }
        proof {
            lemma_word_bits(word, bit, bit);
            assert forall|other: int| other != index implies #[trigger] self.has(other) == old(
                self,
            ).has(other) by {
                if 0 <= other < self.0@.len() * 64 {
                    lemma_word_bits(word, bit, (other % 64) as u64);
                    assert(other == (other / 64) * 64 + other % 64);
                    assert(index == (index / 64) * 64 + index % 64);
                }
            }
        }
    }
}

} // verus!
