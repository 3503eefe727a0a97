use vstd::prelude::*;

use core::hash::{BuildHasher, Hash};
use std::collections::hash_map::RandomState;

use crate::bitset::{blocks_for, BitSet};
use crate::codec::{
    push_u32_le, push_u64_le, read_u32_le, read_u64_le, u32_le, u32_of_le, u64_le, u64_of_le,
    words_le,
};
use crate::error::BloomError;
use crate::hashing::{hash2, is_odd};
use crate::laws::{lemma_insert_keeps_present, lemma_inserted_present};

verus! {

/// Probe `i` of the seeds `(h1, h2)` in a filter of `m` bits:
/// `(h1 + i * h2) mod 2^64`, then `mod m`.
pub open spec fn probe(h1: u64, h2: u64, i: int, m: nat) -> int {
    ((h1 + i * h2) % 0x1_0000_0000_0000_0000int) % (m as int)
}

/// Some probe among the first `n` of `(h1, h2)` lands on bit `j`.
pub open spec fn probed(h1: u64, h2: u64, n: int, m: nat, j: int) -> bool {
    exists|t: int| 0 <= t < n && #[trigger] probe(h1, h2, t, m) == j
}

/// `bits` with the first `k` probes of `(h1, h2)` turned on.
pub open spec fn with_probes(bits: Seq<bool>, h1: u64, h2: u64, k: nat) -> Seq<bool> {
    Seq::new(bits.len(), |j: int| bits[j] || probed(h1, h2, k as int, bits.len(), j))
}

/// `bits` with the probes of each seed pair of `seeds` turned on, in order.
pub open spec fn with_all_probes(bits: Seq<bool>, seeds: Seq<(u64, u64)>, k: nat) -> Seq<bool>
    decreases seeds.len(),
{
    if seeds.len() == 0 {
        bits
    } else {
        with_probes(with_all_probes(bits, seeds.drop_last(), k), seeds.last().0, seeds.last().1, k)
    }
}

/// Every one of the first `k` probes of `(h1, h2)` is on in `bits`.
pub open spec fn all_probed(bits: Seq<bool>, h1: u64, h2: u64, k: nat) -> bool {
    forall|i: int| 0 <= i < k ==> #[trigger] bits[probe(h1, h2, i, bits.len())]
}

/// `n + 1`, held at the top of `usize`.
pub open spec fn saturating_inc(n: nat) -> nat {
    if n < usize::MAX {
        n + 1
    } else {
        n
    }
}

/// The `m` field of a serialized filter: the eight bytes before the last four.
pub open spec fn meta_m(d: Seq<u8>) -> u64 {
    u64_of_le(d.subrange(d.len() - 12, d.len() - 4))
}

/// The `k` field of a serialized filter: the last four bytes.
pub open spec fn meta_k(d: Seq<u8>) -> u32 {
    u32_of_le(d.subrange(d.len() - 4, d.len() as int))
}

/// `d` is a serialized filter: at least the 12 trailing bytes, nonzero `m` and `k`,
/// an `m` that fits `usize`, and exactly `ceil(m / 64)` blocks of eight bytes before them.
pub open spec fn valid_layout(d: Seq<u8>) -> bool {
    &&& d.len() >= 12
    &&& meta_m(d) > 0
    &&& meta_k(d) > 0
    &&& meta_m(d) <= usize::MAX
    &&& d.len() - 12 == blocks_for(meta_m(d) as nat) * 8
}

/// The blocks of a serialized filter.
pub open spec fn decoded_blocks(d: Seq<u8>) -> Seq<u64> {
    Seq::new(
        blocks_for(meta_m(d) as nat),
        |j: int| u64_of_le(d.subrange(8 * j, 8 * j + 8)),
    )
}

/// Bloom filter over `m` bits with `k` probes per value, hashing through the
/// hash configuration `S`.
#[derive(Clone, Debug)]
pub struct BloomFilter<S = RandomState> {
    bits: BitSet,
    m: usize,
    k: u32,
    items: usize,
    hasher_builder: S,
}

/// Relies on `RandomState::new`: a fresh hash configuration. Nothing is stated of its keys.
#[verifier::external_body]
fn fresh_random_state() -> RandomState {
    RandomState::new()
}

/// Index of probe `i` of `(h1, h2)` among `m` bits.
fn probe_index(h1: u64, h2: u64, i: u32, m: usize) -> (r: usize)
    requires
        m > 0,
    ensures
        r as int == probe(h1, h2, i as int, m as nat),
        r < m,
{
    let a = h1 as u128;
    let b = h2 as u128;
    let c = i as u128;
    proof {
        assert(c * b <= 0x1_0000_0000u128 * 0x1_0000_0000_0000_0000u128) by (nonlinear_arith)
            requires
                c < 0x1_0000_0000u128,
                b < 0x1_0000_0000_0000_0000u128,
        ;
    }
    let combined = (a + c * b) % 0x1_0000_0000_0000_0000u128;
    let idx = combined % (m as u128);
    idx as usize
}

impl BloomFilter<RandomState> {
    /// A filter of `m` bits and `k` probes with a fresh default hash configuration.
    pub fn new(m: usize, k: u32) -> (r: Result<Self, BloomError>)
        ensures
            m == 0 || k == 0 <==> r is Err,
            r is Err ==> r == Err::<Self, BloomError>(BloomError::InvalidParameter),
            r matches Ok(f) ==> {
                &&& f.wf()
                &&& f.spec_m() == m
                &&& f.spec_k() == k
                &&& f.spec_items() == 0
                &&& f@ == Seq::new(m as nat, |i: int| false)
            },
    {
        Self::with_hasher(m, k, fresh_random_state())
    }

    /// Deserializes bytes laid out as `to_bytes` writes them, with a fresh default
    /// hash configuration. Bytes that describe no filter give `None`.
    ///
    /// The fresh configuration carries new keys, so values test against other bit
    /// positions than they were inserted at; `from_bytes_hasher` with the serializing filter's
    /// configuration keeps membership answers.
    pub fn from_bytes(data: &[u8]) -> (r: Option<Self>)
        ensures
            r is Some <==> valid_layout(data@),
            r matches Some(f) ==> f.decodes_from(data@, f.spec_hasher()),
    {
        Self::from_bytes_hasher(data, fresh_random_state())
    }
}

impl<S: BuildHasher + Clone> BloomFilter<S> {
    /// The bit set.
    pub closed spec fn spec_bitset(&self) -> BitSet {
        self.bits
    }

    /// The number of bits `m`.
    pub closed spec fn spec_m(&self) -> nat {
        self.m as nat
    }

    /// The probe count `k`.
    pub closed spec fn spec_k(&self) -> nat {
        self.k as nat
    }

    /// The insertion counter.
    pub closed spec fn spec_items(&self) -> nat {
        self.items as nat
    }

    /// The hash configuration.
    pub closed spec fn spec_hasher(&self) -> S {
        self.hasher_builder
    }

    /// The bits of the filter, in index order.
    pub open spec fn view(&self) -> Seq<bool> {
        self.spec_bitset()@
    }

    /// The stored blocks of the bit set.
    pub open spec fn spec_words(&self) -> Seq<u64> {
        self.spec_bitset().spec_words()
    }

    /// `m > 0` within `usize`, `k > 0` within `u32`, and a well-formed bit set of exactly `m` bits.
    pub open spec fn wf(&self) -> bool {
        &&& 0 < self.spec_m() <= usize::MAX
        &&& 0 < self.spec_k() <= u32::MAX
        &&& self.spec_bitset().wf()
        &&& self.spec_bitset().spec_bits() == self.spec_m()
    }

    /// Whether every probe of the seeds `(h1, h2)` is on.
    pub open spec fn holds(&self, h1: u64, h2: u64) -> bool {
        all_probed(self@, h1, h2, self.spec_k())
    }

    /// A filter of `m` bits and `k` probes hashing through `hasher_builder`.
    /// Zero `m` or `k` is rejected.
    pub fn with_hasher(m: usize, k: u32, hasher_builder: S) -> (r: Result<Self, BloomError>)
        ensures
            m == 0 || k == 0 <==> r is Err,
            r is Err ==> r == Err::<Self, BloomError>(BloomError::InvalidParameter),
            r matches Ok(f) ==> {
                &&& f.wf()
                &&& f.spec_m() == m
                &&& f.spec_k() == k
                &&& f.spec_items() == 0
                &&& f.spec_hasher() == hasher_builder
                &&& f@ == Seq::new(m as nat, |i: int| false)
            },
    {
        if m == 0 || k == 0 {
            return Err(BloomError::InvalidParameter);
        }
        let bits = match BitSet::new(m) {
            Ok(b) => b,
            Err(e) => {
                return Err(e);
            },
        };
        Ok(BloomFilter { bits, m, k, items: 0, hasher_builder })
    }

    /// The double-hashing seeds of `item` under this filter's hash configuration.
    pub fn seeds<T: Hash>(&self, item: &T) -> (r: (u64, u64))
        ensures
            is_odd(r.1),
    {
        hash2(&self.hasher_builder, item)
    }

    /// Turns on the `k` probes of the seeds `(h1, h2)` and counts one insertion.
    pub fn insert_seeds(&mut self, h1: u64, h2: u64)
        requires
            old(self).wf(),
        ensures
            final(self).wf(),
            final(self).spec_m() == old(self).spec_m(),
            final(self).spec_k() == old(self).spec_k(),
            final(self).spec_hasher() == old(self).spec_hasher(),
            final(self).spec_items() == saturating_inc(old(self).spec_items()),
            final(self)@ == with_probes(old(self)@, h1, h2, old(self).spec_k()),
    {
        let ghost pre = self.bits@;
        let m = self.m;
        let k = self.k;
        let mut i: u32 = 0;
        while i < k
            invariant
                self.wf(),
                self.m == m,
                self.k == k,
                self.items == old(self).items,
                self.hasher_builder == old(self).hasher_builder,
                m == old(self).m,
                k == old(self).k,
                pre == old(self)@,
                i <= k,
                self.bits@ == Seq::new(m as nat, |j: int| pre[j] || probed(h1, h2, i as int, m as nat, j)),
            decreases k - i,
        {
            let idx = probe_index(h1, h2, i, m);
            let ghost prev = self.bits@;
            let _ = self.bits.set(idx);
            proof {
                let next = Seq::new(m as nat, |j: int| pre[j] || probed(h1, h2, i + 1, m as nat, j));
                assert forall|j: int| 0 <= j < m implies #[trigger] self.bits@[j] == next[j] by {
                    if j == idx as int {
                        assert(probe(h1, h2, i as int, m as nat) == j);
                    } else if probed(h1, h2, i + 1, m as nat, j) {
                        let t = choose|t: int| 0 <= t < i + 1 && #[trigger] probe(h1, h2, t, m as nat) == j;
                        assert(t < i);
                        assert(probed(h1, h2, i as int, m as nat, j));
                    }
                }
                assert(self.bits@ =~= next);
            }
            i += 1;
        }
        self.items = if self.items < usize::MAX { self.items + 1 } else { self.items };
        assert(self@ =~= with_probes(pre, h1, h2, k as nat));
    }

    /// Whether every one of the `k` probes of the seeds `(h1, h2)` is on.
    pub fn contains_seeds(&self, h1: u64, h2: u64) -> (r: bool)
        requires
            self.wf(),
        ensures
            r == self.holds(h1, h2),
    {
        let m = self.m;
        let k = self.k;
        let mut i: u32 = 0;
        while i < k
            invariant
                self.wf(),
                m == self.m,
                k == self.k,
                i <= k,
                forall|t: int| 0 <= t < i ==> #[trigger] self@[probe(h1, h2, t, m as nat)],
            decreases k - i,
        {
            let idx = probe_index(h1, h2, i, m);
            match self.bits.get(idx) {
                Ok(b) => {
                    if !b {
                        assert(self@.len() == m);
                        assert(!self@[probe(h1, h2, i as int, m as nat)]);
                        return false;
                    }
                },
                Err(_) => {
                    return false;
                },
            }
            i += 1;
        }
        true
    }

    /// The serialized form: the blocks, eight little-endian bytes each, then `m` as
    /// eight little-endian bytes, then `k` as four.
    pub open spec fn bytes_spec(&self) -> Seq<u8> {
        words_le(self.spec_words()) + u64_le(self.spec_m() as u64) + u32_le(self.spec_k() as u32)
    }

    /// `self` is what deserializing `d` with the hash configuration `h` gives.
    pub open spec fn decodes_from(&self, d: Seq<u8>, h: S) -> bool {
        &&& self.wf()
        &&& self.spec_m() == meta_m(d)
        &&& self.spec_k() == meta_k(d)
        &&& self.spec_words() == decoded_blocks(d)
        &&& self.spec_items() == 0
        &&& self.spec_hasher() == h
    }

    /// In-place union (bitwise OR) with `other`; `m` and `k` must match.
    pub fn union_inplace(&mut self, other: &Self) -> (r: Result<(), BloomError>)
        requires
            old(self).wf(),
            other.wf(),
        ensures
            old(self).spec_m() != other.spec_m() || old(self).spec_k() != other.spec_k() <==> r is Err,
            r is Err ==> r == Err::<(), BloomError>(BloomError::ParameterMismatch) && *final(self)
                == *old(self),
            r is Ok ==> {
                &&& final(self).wf()
                &&& final(self).spec_m() == old(self).spec_m()
                &&& final(self).spec_k() == old(self).spec_k()
                &&& final(self).spec_items() == old(self).spec_items()
                &&& final(self).spec_hasher() == old(self).spec_hasher()
                &&& final(self)@ == Seq::new(old(self)@.len(), |i: int| old(self)@[i] || other@[i])
            },
    {
        if self.m != other.m || self.k != other.k {
            return Err(BloomError::ParameterMismatch);
        }
        let _ = self.bits.or_with(&other.bits);
        assert(self@ =~= Seq::new(old(self)@.len(), |i: int| old(self)@[i] || other@[i]));
        Ok(())
    }

    /// In-place intersection (bitwise AND) with `other`; `m` and `k` must match.
    ///
    /// Values inserted into both filters stay present. The result is no sound
    /// intersection: a value inserted into only one of them may still test present.
    pub fn intersect_inplace(&mut self, other: &Self) -> (r: Result<(), BloomError>)
        requires
            old(self).wf(),
            other.wf(),
        ensures
            old(self).spec_m() != other.spec_m() || old(self).spec_k() != other.spec_k() <==> r is Err,
            r is Err ==> r == Err::<(), BloomError>(BloomError::ParameterMismatch) && *final(self)
                == *old(self),
            r is Ok ==> {
                &&& final(self).wf()
                &&& final(self).spec_m() == old(self).spec_m()
                &&& final(self).spec_k() == old(self).spec_k()
                &&& final(self).spec_items() == old(self).spec_items()
                &&& final(self).spec_hasher() == old(self).spec_hasher()
                &&& final(self)@ == Seq::new(old(self)@.len(), |i: int| old(self)@[i] && other@[i])
            },
    {
        if self.m != other.m || self.k != other.k {
            return Err(BloomError::ParameterMismatch);
        }
        let _ = self.bits.and_with(&other.bits);
        assert(self@ =~= Seq::new(old(self)@.len(), |i: int| old(self)@[i] && other@[i]));
        Ok(())
    }

    /// Clears every bit and resets the insertion counter.
    pub fn clear(&mut self)
        requires
            old(self).wf(),
        ensures
            final(self).wf(),
            final(self).spec_m() == old(self).spec_m(),
            final(self).spec_k() == old(self).spec_k(),
            final(self).spec_hasher() == old(self).spec_hasher(),
            final(self).spec_items() == 0,
            final(self)@ == Seq::new(old(self)@.len(), |i: int| false),
    {
        self.bits.clear();
        self.items = 0;
    }

    /// The number of insertions since creation or the last clear, duplicates
    /// included, held at the top of `usize`.
    pub fn approximate_items(&self) -> (r: usize)
        ensures
            r == self.spec_items(),
    {
        self.items
    }

    /// Serializes to the blocks (eight little-endian bytes each), then `m` (eight
    /// little-endian bytes), then `k` (four little-endian bytes).
    pub fn to_bytes(&self) -> (r: Vec<u8>)
        requires
            self.wf(),
        ensures
            r@ == self.bytes_spec(),
    {
        let words = self.bits.words_slice();
        let n = words.len();
        let mut out: Vec<u8> = Vec::new();
        let mut j: usize = 0;
        while j < n
            invariant
                words@ == self.spec_words(),
                n == words@.len(),
                j <= n,
                out@ == words_le(words@.subrange(0, j as int)),
            decreases n - j,
        {
            push_u64_le(&mut out, words[j]);
            assert(out@ =~= words_le(words@.subrange(0, j + 1)));
            j += 1;
        }
        assert(words@.subrange(0, n as int) =~= words@);
        push_u64_le(&mut out, self.m as u64);
        push_u32_le(&mut out, self.k);
        out
    }

    /// Deserializes bytes laid out as `to_bytes` writes them, with the hash
    /// configuration `hasher_builder`. Bytes that describe no filter give `None`.
    pub fn from_bytes_hasher(data: &[u8], hasher_builder: S) -> (r: Option<Self>)
        ensures
            r is Some <==> valid_layout(data@),
            r matches Some(f) ==> f.decodes_from(data@, hasher_builder),
    {
        if data.len() < 12 {
            return None;
        }
        let meta_offset = data.len() - 12;
        let m64 = read_u64_le(data, meta_offset);
        let k = read_u32_le(data, meta_offset + 8);
        assert(data@.subrange(meta_offset as int, meta_offset + 8) =~= data@.subrange(
            data@.len() - 12,
            data@.len() - 4,
        ));
        assert(data@.subrange(meta_offset + 8, meta_offset + 12) =~= data@.subrange(
            data@.len() - 4,
            data@.len() as int,
        ));
        if m64 == 0 || k == 0 || m64 > usize::MAX as u64 {
            return None;
        }
        let m = m64 as usize;
        let words_expected = m / 64 + if m % 64 == 0 { 0 } else { 1 };
        if meta_offset / 8 != words_expected || meta_offset % 8 != 0 {
            return None;
        }
        let mut words: Vec<u64> = Vec::new();
        let mut i: usize = 0;
        while i < words_expected
            invariant
                words_expected * 8 == meta_offset,
                meta_offset + 12 == data@.len(),
                words_expected == blocks_for(m as nat),
                m == meta_m(data@),
                i <= words_expected,
                words@ == decoded_blocks(data@).subrange(0, i as int),
            decreases words_expected - i,
        {
            let w = read_u64_le(data, i * 8);
            words.push(w);
            assert(words@ =~= decoded_blocks(data@).subrange(0, i + 1));
            i += 1;
        }
        assert(words@ =~= decoded_blocks(data@));
        let bits = match BitSet::from_words(m, words) {
            Ok(b) => b,
            Err(_) => {
                return None;
            },
        };
        Some(BloomFilter { bits, m, k, items: 0, hasher_builder })
    }

    /// Inserts every value of `values`, as `insert` does one by one: the bits are
    /// those of inserting the values' seeds in order, each value then tests present,
    /// and the counter rises by the number of values, held at the top of `usize`.
    pub fn insert_batch<T: Hash>(&mut self, values: &[T])
        requires
            old(self).wf(),
        ensures
            final(self).wf(),
            final(self).spec_m() == old(self).spec_m(),
            final(self).spec_k() == old(self).spec_k(),
            final(self).spec_hasher() == old(self).spec_hasher(),
            final(self)@.len() == old(self)@.len(),
            forall|i: int| 0 <= i < old(self)@.len() && old(self)@[i] ==> #[trigger] final(self)@[i],
            old(self).spec_items() + values@.len() <= usize::MAX ==> final(self).spec_items()
                == old(self).spec_items() + values@.len(),
            exists|seeds: Seq<(u64, u64)>|
                seeds.len() == values@.len() && final(self)@ == #[trigger] with_all_probes(
                    old(self)@,
                    seeds,
                    old(self).spec_k(),
                ) && forall|j: int|
                    0 <= j < seeds.len() ==> is_odd(#[trigger] seeds[j].1) && final(self).holds(
                        seeds[j].0,
                        seeds[j].1,
                    ),
    {
        let ghost seeds: Seq<(u64, u64)> = Seq::empty();
        let n = values.len();
        let mut j: usize = 0;
        while j < n
            invariant
                self.wf(),
                self.spec_m() == old(self).spec_m(),
                self.spec_k() == old(self).spec_k(),
                self.spec_hasher() == old(self).spec_hasher(),
                self@.len() == old(self)@.len(),
                forall|i: int| 0 <= i < old(self)@.len() && old(self)@[i] ==> #[trigger] self@[i],
                old(self).spec_items() + j <= usize::MAX ==> self.spec_items() == old(self).spec_items()
                    + j,
                n == values@.len(),
                j <= n,
                seeds.len() == j,
                self@ == with_all_probes(old(self)@, seeds, old(self).spec_k()),
                forall|t: int|
                    0 <= t < j ==> is_odd(#[trigger] seeds[t].1) && self.holds(seeds[t].0, seeds[t].1),
            decreases n - j,
        {
            let ghost before = *self;
            let (h1, h2) = self.seeds(&values[j]);
            self.insert_seeds(h1, h2);
            proof {
                assert forall|t: int| 0 <= t < j implies self.holds(seeds[t].0, seeds[t].1) by {
                    lemma_insert_keeps_present(before, *self, h1, h2, seeds[t].0, seeds[t].1);
                }
                lemma_inserted_present(before, *self, h1, h2);
                let next = seeds.push((h1, h2));
                assert(next.drop_last() =~= seeds);
                seeds = next;
            }
            j += 1;
        }
        assert(self@ == with_all_probes(old(self)@, seeds, old(self).spec_k()));
    }

    /// Whether each value of `values` may have been inserted, in input order.
    pub fn contains_batch<T: Hash>(&self, values: &[T]) -> (r: Vec<bool>)
        requires
            self.wf(),
        ensures
            r@.len() == values@.len(),
            exists|seeds: Seq<(u64, u64)>|
                seeds.len() == values@.len() && forall|j: int|
                    0 <= j < seeds.len() ==> is_odd(#[trigger] seeds[j].1) && r@[j] == self.holds(
                        seeds[j].0,
                        seeds[j].1,
                    ),
    {
        let ghost seeds: Seq<(u64, u64)> = Seq::empty();
        let n = values.len();
        let mut out: Vec<bool> = Vec::new();
        let mut j: usize = 0;
        while j < n
            invariant
                self.wf(),
                n == values@.len(),
                j <= n,
                seeds.len() == j,
                out@.len() == j,
                forall|t: int|
                    0 <= t < j ==> is_odd(#[trigger] seeds[t].1) && out@[t] == self.holds(
                        seeds[t].0,
                        seeds[t].1,
                    ),
            decreases n - j,
        {
            let (h1, h2) = self.seeds(&values[j]);
            let b = self.contains_seeds(h1, h2);
            out.push(b);
            proof {
                seeds = seeds.push((h1, h2));
            }
            j += 1;
        }
        out
    }

    /// Whether every value of `values` may have been inserted; stops at the first
    /// value that is absent.
    pub fn contains_all<T: Hash>(&self, values: &[T]) -> (r: bool)
        requires
            self.wf(),
        ensures
            exists|seeds: Seq<(u64, u64)>|
                seeds.len() == values@.len() && (forall|j: int|
                    0 <= j < seeds.len() ==> is_odd(#[trigger] seeds[j].1)) && (r <==> forall|j: int|
                    0 <= j < seeds.len() ==> self.holds(#[trigger] seeds[j].0, seeds[j].1)),
    {
        let ghost seeds: Seq<(u64, u64)> = Seq::empty();
        let n = values.len();
        let mut j: usize = 0;
        while j < n
            invariant
                self.wf(),
                n == values@.len(),
                j <= n,
                seeds.len() == j,
                forall|t: int|
                    0 <= t < j ==> is_odd(#[trigger] seeds[t].1) && self.holds(seeds[t].0, seeds[t].1),
            decreases n - j,
        {
            let (h1, h2) = self.seeds(&values[j]);
            if !self.contains_seeds(h1, h2) {
                proof {
                    let rest = Seq::new((n - j - 1) as nat, |t: int| (0u64, 1u64));
                    let all = seeds.push((h1, h2)) + rest;
                    assert(all[j as int] == (h1, h2));
                    assert forall|t: int| 0 <= t < all.len() implies is_odd(#[trigger] all[t].1) by {
                        if t > j {
                            assert(all[t] == rest[t - j - 1]);
                            assert(1u64 % 2 == 1);
                        }
                    }
                    assert(!self.holds(all[j as int].0, all[j as int].1));
                    assert(all.len() == values@.len());
                    assert(!(forall|t: int|
                        0 <= t < all.len() ==> self.holds(#[trigger] all[t].0, all[t].1)));
                }
                return false;
            }
            proof {
                seeds = seeds.push((h1, h2));
            }
            j += 1;
        }
        true
    }

    /// Inserts `item`: turns on the `k` probes of its seeds and counts one insertion.
    pub fn insert<T: Hash>(&mut self, item: &T)
        requires
            old(self).wf(),
        ensures
            final(self).wf(),
            final(self).spec_m() == old(self).spec_m(),
            final(self).spec_k() == old(self).spec_k(),
            final(self).spec_hasher() == old(self).spec_hasher(),
            final(self).spec_items() == saturating_inc(old(self).spec_items()),
            exists|h1: u64, h2: u64|
                is_odd(h2) && final(self)@ == #[trigger] with_probes(
                    old(self)@,
                    h1,
                    h2,
                    old(self).spec_k(),
                ),
    {
        let (h1, h2) = self.seeds(item);
        self.insert_seeds(h1, h2);
    }

    /// Whether `item` may have been inserted: all `k` probes of its seeds are on.
    pub fn contains<T: Hash>(&self, item: &T) -> (r: bool)
        requires
            self.wf(),
        ensures
            exists|h1: u64, h2: u64| is_odd(h2) && r == #[trigger] self.holds(h1, h2),
    {
        let (h1, h2) = self.seeds(item);
        self.contains_seeds(h1, h2)
    }
}

} // verus!
