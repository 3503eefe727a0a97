//! bloomz: a Bloom filter over a packed bit set, with double hashing,
//! in-place merging and a fixed binary layout.

pub mod error;
pub mod bitset;
pub mod hashing;
pub mod math;
pub mod codec;
pub mod bloom;
pub mod laws;

pub use bloom::BloomFilter;
pub use error::BloomError;
