use bloomz::bitset::BitSet;
use bloomz::hashing::{hash2, seeds_from};
use bloomz::math::optimal_k;
use bloomz::{BloomError, BloomFilter};
use std::collections::hash_map::RandomState;

#[test]
fn bitset_new_rejects_zero_bits() {
    assert!(matches!(BitSet::new(0), Err(BloomError::InvalidSize)));
}

#[test]
fn bitset_new_is_cleared_and_sized() {
    let s = BitSet::new(130).unwrap();
    assert_eq!(s.len_bits(), 130);
    assert_eq!(s.words_slice().len(), 3);
    for i in 0..130 {
        assert_eq!(s.get(i), Ok(false));
    }
}

#[test]
fn bitset_set_and_get() {
    let mut s = BitSet::new(100).unwrap();
    assert_eq!(s.set(0), Ok(()));
    assert_eq!(s.set(63), Ok(()));
    assert_eq!(s.set(64), Ok(()));
    assert_eq!(s.set(99), Ok(()));
    assert_eq!(s.words_slice(), &[0x8000_0000_0000_0001u64, (1u64 << 35) | 1][..]);
    assert_eq!(s.get(63), Ok(true));
    assert_eq!(s.get(62), Ok(false));
    assert_eq!(s.get(99), Ok(true));
}

#[test]
fn bitset_index_out_of_range() {
    let mut s = BitSet::new(100).unwrap();
    assert_eq!(s.set(100), Err(BloomError::IndexOutOfRange));
    assert_eq!(s.get(100), Err(BloomError::IndexOutOfRange));
    assert_eq!(s.words_slice(), &[0u64, 0][..]);
}

#[test]
fn bitset_or_and_clear() {
    let mut a = BitSet::from_words(128, vec![0b1100, 0xff]).unwrap();
    let b = BitSet::from_words(128, vec![0b1010, 0x0f]).unwrap();
    let mut c = a.clone();
    a.or_with(&b).unwrap();
    assert_eq!(a.words_slice(), &[0b1110u64, 0xff][..]);
    c.and_with(&b).unwrap();
    assert_eq!(c.words_slice(), &[0b1000u64, 0x0f][..]);
    a.clear();
    assert_eq!(a.words_slice(), &[0u64, 0][..]);
    assert_eq!(a.len_bits(), 128);
}

#[test]
fn bitset_size_mismatch() {
    let mut a = BitSet::new(64).unwrap();
    let b = BitSet::new(65).unwrap();
    assert_eq!(a.or_with(&b), Err(BloomError::SizeMismatch));
    assert_eq!(a.and_with(&b), Err(BloomError::SizeMismatch));
    assert!(matches!(BitSet::from_words(65, vec![1]), Err(BloomError::SizeMismatch)));
    assert!(matches!(BitSet::from_words(0, vec![]), Err(BloomError::InvalidSize)));
}

#[test]
fn bitset_words_mut_writes_through() {
    let mut s = BitSet::new(70).unwrap();
    s.words_mut()[1] = 0b100;
    assert_eq!(s.get(66), Ok(true));
    assert_eq!(s.get(65), Ok(false));
}

#[test]
fn seeds_force_odd_step() {
    assert_eq!(seeds_from(10, 4), (10, 5));
    assert_eq!(seeds_from(7, 9), (7, 9));
    assert_eq!(seeds_from(0, 0), (0, 1));
    let rs = RandomState::new();
    for i in 0..100u32 {
        let (_, h2) = hash2(&rs, &i);
        assert_eq!(h2 % 2, 1);
    }
}

#[test]
fn seeds_depend_on_configuration_clone() {
    let rs = RandomState::new();
    assert_eq!(hash2(&rs, &"abc"), hash2(&rs.clone(), &"abc"));
}

#[test]
fn optimal_k_values() {
    assert_eq!(optimal_k(47926, 5000), Ok(7));
    assert_eq!(optimal_k(1000, 100), Ok(7));
    assert_eq!(optimal_k(10, 100), Ok(1));
    assert_eq!(optimal_k(100, 100), Ok(1));
    assert_eq!(optimal_k(300, 100), Ok(2));
    assert_eq!(optimal_k(0, 100), Err(BloomError::InvalidParameter));
    assert_eq!(optimal_k(100, 0), Err(BloomError::InvalidParameter));
}

#[test]
fn filter_rejects_zero_parameters() {
    assert!(matches!(BloomFilter::new(0, 3), Err(BloomError::InvalidParameter)));
    assert!(matches!(BloomFilter::new(10, 0), Err(BloomError::InvalidParameter)));
    assert!(matches!(
        BloomFilter::with_hasher(0, 0, RandomState::new()),
        Err(BloomError::InvalidParameter)
    ));
}

#[test]
fn seeds_insert_then_query() {
    let mut f = BloomFilter::new(1000, 5).unwrap();
    assert!(!f.contains_seeds(12345, 77));
    f.insert_seeds(12345, 77);
    assert!(f.contains_seeds(12345, 77));
    assert_eq!(f.approximate_items(), 1);
}

#[test]
fn seeds_wrap_around_u64() {
    // u64::MAX + i * 2 wraps for i >= 1: probes are 63, 1, 3 among 64 bits.
    let mut f = BloomFilter::new(64, 3).unwrap();
    f.insert_seeds(u64::MAX, 2);
    let bytes = f.to_bytes();
    assert_eq!(&bytes[..8], &((1u64 << 63) | 0b1010).to_le_bytes()[..]);
}

#[test]
fn merge_mismatch_leaves_both_alone() {
    let rs = RandomState::new();
    let mut a = BloomFilter::with_hasher(128, 3, rs.clone()).unwrap();
    let b = BloomFilter::with_hasher(256, 3, rs.clone()).unwrap();
    let c = BloomFilter::with_hasher(128, 4, rs.clone()).unwrap();
    a.insert(&1u32);
    let before = a.to_bytes();
    assert_eq!(a.union_inplace(&b), Err(BloomError::ParameterMismatch));
    assert_eq!(a.intersect_inplace(&c), Err(BloomError::ParameterMismatch));
    assert_eq!(a.to_bytes(), before);
    assert_eq!(b.to_bytes(), BloomFilter::with_hasher(256, 3, rs).unwrap().to_bytes());
}

#[test]
fn clear_resets_bits_and_counter() {
    let mut f = BloomFilter::new(200, 3).unwrap();
    f.insert(&"x");
    f.insert(&"y");
    f.clear();
    assert_eq!(f.approximate_items(), 0);
    assert!(f.to_bytes()[..32].iter().all(|&b| b == 0));
    assert!(!f.contains(&"x"));
}

#[test]
fn byte_layout_exact() {
    let mut f = BloomFilter::new(100, 3).unwrap();
    f.insert_seeds(0, 1); // probes 0, 1, 2
    f.insert_seeds(64, 2); // probes 64, 66, 68
    let bytes = f.to_bytes();
    assert_eq!(bytes.len(), 2 * 8 + 12);
    assert_eq!(bytes[..8], [7, 0, 0, 0, 0, 0, 0, 0]);
    assert_eq!(bytes[8..16], [0b1_0101, 0, 0, 0, 0, 0, 0, 0]);
    assert_eq!(bytes[16..24], [100, 0, 0, 0, 0, 0, 0, 0]);
    assert_eq!(bytes[24..28], [3, 0, 0, 0]);
}

#[test]
fn deserialize_rejects_corrupt_data() {
    let f = BloomFilter::new(100, 3).unwrap();
    let bytes = f.to_bytes();
    assert!(BloomFilter::from_bytes(&bytes[..11]).is_none());
    assert!(BloomFilter::from_bytes(&bytes[1..]).is_none());
    let mut longer = vec![0u8; 8];
    longer.extend_from_slice(&bytes);
    assert!(BloomFilter::from_bytes(&longer).is_none());
    let mut zero_k = bytes.clone();
    let n = zero_k.len();
    zero_k[n - 4] = 0;
    assert!(BloomFilter::from_bytes(&zero_k).is_none());
    let mut zero_m = vec![0u8; 12];
    zero_m[8] = 1;
    assert!(BloomFilter::from_bytes(&zero_m).is_none());
    assert!(BloomFilter::from_bytes(&bytes).is_some());
}

#[test]
fn deserialize_keeps_seed_answers() {
    let mut f = BloomFilter::new(500, 4).unwrap();
    f.insert_seeds(999, 31);
    f.insert_seeds(5, 7);
    let g = BloomFilter::from_bytes(&f.to_bytes()).unwrap();
    assert!(g.contains_seeds(999, 31));
    assert!(g.contains_seeds(5, 7));
    assert_eq!(g.to_bytes(), f.to_bytes());
    assert_eq!(g.approximate_items(), 0);
}

#[test]
fn union_keeps_either_and_intersection_keeps_both() {
    let rs = RandomState::new();
    let mut a = BloomFilter::with_hasher(4096, 5, rs.clone()).unwrap();
    let mut b = BloomFilter::with_hasher(4096, 5, rs.clone()).unwrap();
    a.insert(&"left");
    a.insert(&"both");
    b.insert(&"right");
    b.insert(&"both");
    let mut x = a.clone();
    x.intersect_inplace(&b).unwrap();
    assert!(x.contains(&"both"));
    a.union_inplace(&b).unwrap();
    assert!(a.contains(&"left"));
    assert!(a.contains(&"right"));
    assert!(a.contains(&"both"));
}

#[test]
fn batch_matches_sequential() {
    let rs = RandomState::new();
    let values: Vec<u64> = (0..300).collect();
    let mut batch = BloomFilter::with_hasher(3000, 5, rs.clone()).unwrap();
    let mut seq = BloomFilter::with_hasher(3000, 5, rs.clone()).unwrap();
    batch.insert_batch(&values);
    for v in values.iter().rev() {
        seq.insert(v);
    }
    assert_eq!(batch.to_bytes(), seq.to_bytes());
    assert_eq!(batch.approximate_items(), 300);
    assert!(batch.contains_all(&values));
    assert!(batch.contains_all::<u64>(&[]));
    let answers = batch.contains_batch(&values);
    assert_eq!(answers.len(), 300);
    assert!(answers.iter().all(|&a| a));
}
