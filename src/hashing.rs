use vstd::prelude::*;

use core::hash::{BuildHasher, Hash};

verus! {

/// Relies on `BuildHasher::hash_one`: one 64-bit digest of `item` under the keys
/// that `state` carries. Nothing is stated of the value.
#[verifier::external_body]
fn digest<S: BuildHasher, T: Hash>(state: &S, item: &T) -> u64 {
    state.hash_one(item)
}

/// The low bit of `v`.
pub open spec fn is_odd(v: u64) -> bool {
    v % 2 == 1
}

/// The two double-hashing seeds from the two digests: the first digest as it is,
/// the second with its low bit forced on, so that the step is odd.
pub fn seeds_from(v1: u64, v2: u64) -> (r: (u64, u64))
    ensures
        r == (v1, v2 | 1u64),
        is_odd(r.1),
        is_odd(v2) ==> r.1 == v2,
{
    let s = v2 | 1u64;
    assert((v2 | 1u64) % 2 == 1) by (bit_vector);
    assert(v2 % 2 == 1 ==> v2 | 1u64 == v2) by (bit_vector);
    (v1, s)
}

/// Double-hashing seeds `(h1, h2)` of `item`: `h1` is the digest of `item`,
/// `h2` the digest of the pair `(h1, item)` with its low bit forced on.
pub fn hash2<T: Hash, S: BuildHasher>(state: &S, item: &T) -> (r: (u64, u64))
    ensures
        is_odd(r.1),
{
    let v1 = digest(state, item);
    let v2 = digest(state, &(v1, item));
    seeds_from(v1, v2)
}

} // verus!
