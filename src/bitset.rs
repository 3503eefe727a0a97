use vstd::prelude::*;

use crate::error::BloomError;

verus! {

/// Number of 64-bit blocks needed to hold `bits` bits.
pub open spec fn blocks_for(bits: nat) -> nat {
    (bits + 63) / 64
}

/// Bit `b` (0 = least significant) of the block `w`.
pub open spec fn block_bit(w: u64, b: u64) -> bool {
    (w >> b) & 1u64 == 1u64
}

/// Bit `i` of a block sequence, little-endian within each block.
pub open spec fn bit_at(words: Seq<u64>, i: int) -> bool {
    block_bit(words[i / 64], (i % 64) as u64)
}

/// Compact fixed-size bit set storing bits in 64-bit blocks.
///
/// Indexing is zero-based; bit `i` lives in block `i / 64` at position `i % 64`.
#[derive(Clone, Debug)]
pub struct BitSet {
    words: Vec<u64>,
    bits: usize,
}

impl BitSet {
    /// The stored blocks.
    pub closed spec fn spec_words(&self) -> Seq<u64> {
        self.words@
    }

    /// The number of addressable bits.
    pub closed spec fn spec_bits(&self) -> nat {
        self.bits as nat
    }

    /// At least one bit, and exactly as many blocks as the bits need.
    pub open spec fn wf(&self) -> bool {
        &&& self.spec_bits() > 0
        &&& self.spec_words().len() == blocks_for(self.spec_bits())
    }

    /// The addressable bits, in index order.
    pub open spec fn view(&self) -> Seq<bool> {
        Seq::new(self.spec_bits(), |i: int| bit_at(self.spec_words(), i))
    }

    /// A set of `bits` bits, all cleared.
    pub fn new(bits: usize) -> (r: Result<BitSet, BloomError>)
        ensures
            bits == 0 <==> r == Err::<BitSet, BloomError>(BloomError::InvalidSize),
            bits > 0 <==> r is Ok,
            r matches Ok(s) ==> {
                &&& s.wf()
                &&& s.spec_bits() == bits
                &&& s.spec_words() == Seq::new(blocks_for(bits as nat), |j: int| 0u64)
                &&& s@ == Seq::new(bits as nat, |i: int| false)
            },
    {
        if bits == 0 {
            return Err(BloomError::InvalidSize);
        }
        let n = bits / 64 + if bits % 64 == 0 { 0 } else { 1 };
        let words = vec![0u64; n];
        let s = BitSet { words, bits };
        assert(s.spec_words() =~= Seq::new(blocks_for(bits as nat), |j: int| 0u64));
        assert forall|i: int| 0 <= i < bits implies !bit_at(s.spec_words(), i) by {
            let b = (i % 64) as u64;
            assert((0u64 >> b) & 1u64 == 0u64) by (bit_vector);
        }
        assert(s@ =~= Seq::new(bits as nat, |i: int| false));
        Ok(s)
    }

    /// Builds a set from a persisted block sequence; the block count must fit `bits`.
    pub fn from_words(bits: usize, words: Vec<u64>) -> (r: Result<BitSet, BloomError>)
        ensures
            bits == 0 ==> r == Err::<BitSet, BloomError>(BloomError::InvalidSize),
            bits > 0 && words@.len() != blocks_for(bits as nat) ==> r == Err::<BitSet, BloomError>(
                BloomError::SizeMismatch,
            ),
            r matches Ok(s) ==> {
                &&& s.wf()
                &&& s.spec_bits() == bits
                &&& s.spec_words() == words@
            },
            bits > 0 && words@.len() == blocks_for(bits as nat) ==> r is Ok,
    {
        if bits == 0 {
            return Err(BloomError::InvalidSize);
        }
        let n = bits / 64 + if bits % 64 == 0 { 0 } else { 1 };
        if words.len() != n {
            return Err(BloomError::SizeMismatch);
        }
        Ok(BitSet { words, bits })
    }

    /// Turns on the bit at `idx`.
    pub fn set(&mut self, idx: usize) -> (r: Result<(), BloomError>)
        requires
            old(self).wf(),
        ensures
            final(self).wf(),
            final(self).spec_bits() == old(self).spec_bits(),
            idx >= old(self).spec_bits() ==> r == Err::<(), BloomError>(BloomError::IndexOutOfRange)
                && *final(self) == *old(self),
            idx < old(self).spec_bits() ==> r is Ok && final(self)@ == old(self)@.update(
                idx as int,
                true,
            ),
    {
        if idx >= self.bits {
            return Err(BloomError::IndexOutOfRange);
        }
        let word = idx / 64;
        let bit = (idx % 64) as u64;
        let old_w = self.words[word];
        let new_w = old_w | (1u64 << bit);
        self.words.set(word, new_w);
        proof {
            assert forall|j: u64| j < 64 implies block_bit(new_w, j) == (j == bit || block_bit(
                old_w,
                j,
            )) by {
                assert(bit < 64 && j < 64 ==> (((old_w | (1u64 << bit)) >> j) & 1u64 == 1u64) == (j
                    == bit || (old_w >> j) & 1u64 == 1u64)) by (bit_vector);
            }
            let ghost pre = old(self)@;
            assert forall|i: int| 0 <= i < self.spec_bits() implies bit_at(self.spec_words(), i)
                == pre.update(idx as int, true)[i] by {
                if i / 64 == word as int {
                    assert(block_bit(new_w, (i % 64) as u64) == ((i % 64) as u64 == bit
                        || block_bit(old_w, (i % 64) as u64)));
                }
            }
            assert(self@ =~= pre.update(idx as int, true));
        }
        Ok(())
    }

    /// Reads the bit at `idx`.
    pub fn get(&self, idx: usize) -> (r: Result<bool, BloomError>)
        requires
            self.wf(),
        ensures
            idx >= self.spec_bits() ==> r == Err::<bool, BloomError>(BloomError::IndexOutOfRange),
            idx < self.spec_bits() ==> r == Ok::<bool, BloomError>(self@[idx as int]),
    {
        if idx >= self.bits {
            return Err(BloomError::IndexOutOfRange);
        }
        let word = idx / 64;
        let bit = (idx % 64) as u64;
        Ok((self.words[word] >> bit) & 1u64 == 1u64)
    }

    /// In-place bitwise OR with `other`; the block counts must match.
    pub fn or_with(&mut self, other: &BitSet) -> (r: Result<(), BloomError>)
        requires
            old(self).wf(),
            other.wf(),
        ensures
            old(self).spec_words().len() != other.spec_words().len() ==> r == Err::<(), BloomError>(
                BloomError::SizeMismatch,
            ) && *final(self) == *old(self),
            old(self).spec_words().len() == other.spec_words().len() ==> {
                &&& r is Ok
                &&& final(self).wf()
                &&& final(self).spec_bits() == old(self).spec_bits()
                &&& final(self).spec_words() == Seq::new(
                    old(self).spec_words().len(),
                    |j: int| old(self).spec_words()[j] | other.spec_words()[j],
                )
                &&& final(self)@ == Seq::new(
                    old(self)@.len(),
                    |i: int| old(self)@[i] || bit_at(other.spec_words(), i),
                )
            },
    {
        if self.words.len() != other.words.len() {
            return Err(BloomError::SizeMismatch);
        }
        let ghost pre = self.words@;
        let n = self.words.len();
        let mut j: usize = 0;
        while j < n
            invariant
                self.bits == old(self).bits,
                pre == old(self).words@,
                n == pre.len(),
                n == other.words@.len(),
                self.words@.len() == n,
                j <= n,
                forall|t: int| 0 <= t < j ==> self.words@[t] == pre[t] | other.words@[t],
                forall|t: int| j <= t < n ==> self.words@[t] == pre[t],
            decreases n - j,
        {
            let v = self.words[j] | other.words[j];
            self.words.set(j, v);
            j += 1;
        }
        proof {
            assert(self.spec_words() =~= Seq::new(n as nat, |t: int| pre[t] | other.words@[t]));
            assert forall|i: int| 0 <= i < self.spec_bits() implies bit_at(self.spec_words(), i)
                == (bit_at(pre, i) || bit_at(other.spec_words(), i)) by {
                let a = pre[i / 64];
                let b = other.words@[i / 64];
                let s = (i % 64) as u64;
                assert(s < 64 ==> ((((a | b) >> s) & 1u64 == 1u64) == ((a >> s) & 1u64 == 1u64 || (b
                    >> s) & 1u64 == 1u64))) by (bit_vector);
            }
            assert(self@ =~= Seq::new(
                old(self)@.len(),
                |i: int| old(self)@[i] || bit_at(other.spec_words(), i),
            ));
        }
        Ok(())
    }

    /// In-place bitwise AND with `other`; the block counts must match.
    pub fn and_with(&mut self, other: &BitSet) -> (r: Result<(), BloomError>)
        requires
            old(self).wf(),
            other.wf(),
        ensures
            old(self).spec_words().len() != other.spec_words().len() ==> r == Err::<(), BloomError>(
                BloomError::SizeMismatch,
            ) && *final(self) == *old(self),
            old(self).spec_words().len() == other.spec_words().len() ==> {
                &&& r is Ok
                &&& final(self).wf()
                &&& final(self).spec_bits() == old(self).spec_bits()
                &&& final(self).spec_words() == Seq::new(
                    old(self).spec_words().len(),
                    |j: int| old(self).spec_words()[j] & other.spec_words()[j],
                )
                &&& final(self)@ == Seq::new(
                    old(self)@.len(),
                    |i: int| old(self)@[i] && bit_at(other.spec_words(), i),
                )
            },
    {
        if self.words.len() != other.words.len() {
            return Err(BloomError::SizeMismatch);
        }
        let ghost pre = self.words@;
        let n = self.words.len();
        let mut j: usize = 0;
        while j < n
            invariant
                self.bits == old(self).bits,
                pre == old(self).words@,
                n == pre.len(),
                n == other.words@.len(),
                self.words@.len() == n,
                j <= n,
                forall|t: int| 0 <= t < j ==> self.words@[t] == pre[t] & other.words@[t],
                forall|t: int| j <= t < n ==> self.words@[t] == pre[t],
            decreases n - j,
        {
            let v = self.words[j] & other.words[j];
            self.words.set(j, v);
            j += 1;
        }
        proof {
            assert(self.spec_words() =~= Seq::new(n as nat, |t: int| pre[t] & other.words@[t]));
            assert forall|i: int| 0 <= i < self.spec_bits() implies bit_at(self.spec_words(), i)
                == (bit_at(pre, i) && bit_at(other.spec_words(), i)) by {
                let a = pre[i / 64];
                let b = other.words@[i / 64];
                let s = (i % 64) as u64;
                assert(s < 64 ==> ((((a & b) >> s) & 1u64 == 1u64) == ((a >> s) & 1u64 == 1u64 && (b
                    >> s) & 1u64 == 1u64))) by (bit_vector);
            }
            assert(self@ =~= Seq::new(
                old(self)@.len(),
                |i: int| old(self)@[i] && bit_at(other.spec_words(), i),
            ));
        }
        Ok(())
    }

    /// Clears every bit.
    pub fn clear(&mut self)
        requires
            old(self).wf(),
        ensures
            final(self).wf(),
            final(self).spec_bits() == old(self).spec_bits(),
            final(self).spec_words() == Seq::new(old(self).spec_words().len(), |j: int| 0u64),
            final(self)@ == Seq::new(old(self)@.len(), |i: int| false),
    {
        let n = self.words.len();
        let mut j: usize = 0;
        while j < n
            invariant
                self.bits == old(self).bits,
                self.words@.len() == n,
                n == old(self).words@.len(),
                j <= n,
                forall|t: int| 0 <= t < j ==> self.words@[t] == 0u64,
            decreases n - j,
        {
            self.words.set(j, 0u64);
            j += 1;
        }
        proof {
            assert(self.spec_words() =~= Seq::new(n as nat, |t: int| 0u64));
            assert forall|i: int| 0 <= i < self.spec_bits() implies !bit_at(self.spec_words(), i) by {
                let s = (i % 64) as u64;
                assert((0u64 >> s) & 1u64 == 0u64) by (bit_vector);
            }
            assert(self@ =~= Seq::new(old(self)@.len(), |i: int| false));
        }
    }

    /// Total number of addressable bits.
    pub fn len_bits(&self) -> (r: usize)
        ensures
            r == self.spec_bits(),
    {
        self.bits
    }

    /// The underlying blocks, bit `i % 64` of block `i / 64` holding bit `i`.
    pub fn words_slice(&self) -> (r: &[u64])
        ensures
            r@ == self.spec_words(),
    {
        self.words.as_slice()
    }

    /// Mutable access to the underlying blocks; their count cannot change.
    pub fn words_mut(&mut self) -> (r: &mut [u64])
        ensures
            r@ == old(self).spec_words(),
            final(self).spec_bits() == old(self).spec_bits(),
            final(self).spec_words() == final(r)@,
    {
        self.words.as_mut_slice()
    }
}

} // verus!
