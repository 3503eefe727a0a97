use vstd::prelude::*;

verus! {

/// Failure outcomes of the bit set and the filter.
#[derive(Debug, Clone, Copy, PartialEq, Eq, Structural)]
pub enum BloomError {
    /// A bit set was asked for with zero bits.
    InvalidSize,
    /// A zero or out-of-range sizing parameter (`m`, `k`, `n`).
    InvalidParameter,
    /// A bit index at or beyond the number of addressable bits.
    IndexOutOfRange,
    /// Two bit sets, or a bit set and a block sequence, differ in block count.
    SizeMismatch,
    /// Two filters differ in bit count or probe count.
    ParameterMismatch,
    /// Serialized bytes that do not describe a filter.
    CorruptData,
}

} // verus!
