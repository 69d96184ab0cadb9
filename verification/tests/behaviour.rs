use bit_long_vec::{BitLongVec, BitLongVecError};

/// Largest value of `bits` bits, computed in a wider type.
fn max_for(bits: u8) -> u64 {
    ((1u128 << bits) - 1) as u64
}

/// A value of at most `bits` bits that depends on `index`.
fn pattern(index: usize, bits: u8) -> u64 {
    (index as u64 + 1).wrapping_mul(0x9E37_79B9_7F4A_7C15) & max_for(bits)
}

/// Packs `values` bit by bit, each `bits` wide, into `words` words.
fn pack_bit_by_bit(values: &[u64], bits: u8, words: usize) -> Vec<u64> {
    let mut out: Vec<u64> = vec![0u64; words];
    for (index, value) in values.iter().enumerate() {
        for bit in 0..bits as usize {
            if (value >> bit) & 1 == 1 {
                let position: usize = index * bits as usize + bit;
                out[position / 64] |= 1u64 << (position % 64);
            }
        }
    }
    out
}

#[test]
fn word_count_is_exact_ceiling() {
    let cases: Vec<(usize, u8, usize)> = vec![
        (0, 10, 0),
        (1, 1, 1),
        (64, 1, 1),
        (65, 1, 2),
        (100, 10, 16),
        (3, 63, 3),
        (64, 63, 63),
        (65, 63, 64),
        (1_000_003, 63, 984_378),
        (7, 0, 0),
    ];
    for (capacity, bits, expected) in cases {
        let vec = BitLongVec::with_fixed_capacity(capacity, bits).unwrap();
        assert_eq!(vec.data().len(), expected);
        let product: u128 = capacity as u128 * bits as u128;
        assert!(64 * expected as u128 >= product);
        assert!(64 * (expected as u128) < product + 64);
    }
}

#[test]
fn max_possible_value_for_every_width() {
    for bits in 0..64u8 {
        let vec = BitLongVec::with_fixed_capacity(1, bits).unwrap();
        assert_eq!(vec.max_possible_value(), max_for(bits));
        assert_eq!(vec.bits_per_value(), bits);
    }
    let widest = BitLongVec::with_fixed_capacity(1, 63).unwrap();
    assert_eq!(widest.max_possible_value(), 9_223_372_036_854_775_807);
    let narrowest = BitLongVec::with_fixed_capacity(1, 0).unwrap();
    assert_eq!(narrowest.max_possible_value(), 0);
}

#[test]
fn new_vector_holds_zeros() {
    let vec = BitLongVec::with_fixed_capacity(37, 11).unwrap();
    assert_eq!(vec.capacity(), 37);
    assert_eq!(vec.bits_per_value(), 11);
    assert_eq!(*vec.data(), vec![0u64; 7]);
    for index in 0..37usize {
        assert_eq!(vec.get(index), Ok(0));
    }
}

#[test]
fn set_then_get_returns_value_for_every_width() {
    for bits in 1..64u8 {
        let capacity: usize = 70;
        let mut vec = BitLongVec::with_fixed_capacity(capacity, bits).unwrap();
        for index in 0..capacity {
            let value: u64 = pattern(index, bits);
            assert_eq!(vec.set(index, value), Ok(()));
            assert_eq!(vec.get(index), Ok(value));
        }
        for index in 0..capacity {
            assert_eq!(vec.get(index), Ok(pattern(index, bits)));
        }
    }
}

#[test]
fn set_takes_the_maximum_and_zero() {
    for bits in 1..64u8 {
        let mut vec = BitLongVec::with_fixed_capacity(5, bits).unwrap();
        let max: u64 = max_for(bits);
        for index in 0..5usize {
            assert_eq!(vec.set(index, max), Ok(()));
        }
        assert_eq!(vec.set(2, 0), Ok(()));
        assert_eq!(vec.get(0), Ok(max));
        assert_eq!(vec.get(1), Ok(max));
        assert_eq!(vec.get(2), Ok(0));
        assert_eq!(vec.get(3), Ok(max));
        assert_eq!(vec.get(4), Ok(max));
    }
}

#[test]
fn set_leaves_every_other_index_alone() {
    for bits in 1..64u8 {
        let capacity: usize = 40;
        let mut vec = BitLongVec::with_fixed_capacity(capacity, bits).unwrap();
        for index in 0..capacity {
            vec.set(index, pattern(index, bits)).unwrap();
        }
        for target in 0..capacity {
            let fresh: u64 = pattern(target + 1000, bits);
            vec.set(target, fresh).unwrap();
            for index in 0..capacity {
                let expected: u64 = if index <= target {
                    pattern(index + 1000, bits)
                } else {
                    pattern(index, bits)
                };
                assert_eq!(vec.get(index), Ok(expected));
            }
        }
    }
}

#[test]
fn buffer_is_the_bit_stream_of_the_values() {
    for bits in 0..64u8 {
        let capacity: usize = 33;
        let mut vec = BitLongVec::with_fixed_capacity(capacity, bits).unwrap();
        let mut values: Vec<u64> = Vec::new();
        for index in 0..capacity {
            let value: u64 = pattern(index, bits);
            values.push(value);
            vec.set(index, value).unwrap();
        }
        let words: usize = vec.data().len();
        assert_eq!(*vec.data(), pack_bit_by_bit(&values, bits, words));
    }
}

#[test]
fn set_across_a_word_boundary_writes_both_words() {
    let mut vec = BitLongVec::with_fixed_capacity(2, 40).unwrap();
    vec.set(0, 0xAB_CDEF_0123).unwrap();
    vec.set(1, 0x12_3456_789A).unwrap();
    assert_eq!(*vec.data(), vec![0x5678_9AAB_CDEF_0123, 0x1234]);
    assert_eq!(vec.get(0), Ok(0xAB_CDEF_0123));
    assert_eq!(vec.get(1), Ok(0x12_3456_789A));
}

#[test]
fn set_keeps_bits_beyond_the_last_value() {
    let mut vec = BitLongVec::from_data(vec![0xFFFF_FFFF_FFFF_F000], 3, 4).unwrap();
    vec.set(0, 1).unwrap();
    vec.set(1, 2).unwrap();
    vec.set(2, 3).unwrap();
    assert_eq!(*vec.data(), vec![0xFFFF_FFFF_FFFF_F321]);
}

#[test]
fn failed_set_changes_nothing() {
    let data: Vec<u64> = vec![11306972589037353624, 4224634284506261370];
    let mut vec = BitLongVec::from_data(data.clone(), 9, 14).unwrap();
    assert_eq!(vec.set(9, 1), Err(BitLongVecError::IndexOutOfBounds));
    assert_eq!(vec.set(4, 16_384), Err(BitLongVecError::ValueOutOfRange));
    assert_eq!(*vec.data(), data);
    assert_eq!(vec.capacity(), 9);
    assert_eq!(vec.bits_per_value(), 14);
}

#[test]
fn index_is_tested_before_value() {
    let mut vec = BitLongVec::with_fixed_capacity(1, 4).unwrap();
    assert_eq!(vec.set(1, 16), Err(BitLongVecError::IndexOutOfBounds));
    assert_eq!(vec.set(usize::MAX, u64::MAX), Err(BitLongVecError::IndexOutOfBounds));
}

#[test]
fn bounds_are_exact() {
    let mut vec = BitLongVec::with_fixed_capacity(10, 7).unwrap();
    assert_eq!(vec.set(9, 127), Ok(()));
    assert_eq!(vec.set(10, 0), Err(BitLongVecError::IndexOutOfBounds));
    assert_eq!(vec.set(9, 128), Err(BitLongVecError::ValueOutOfRange));
    assert_eq!(vec.get(9), Ok(127));
    assert_eq!(vec.get(10), Err(BitLongVecError::IndexOutOfBounds));
    assert_eq!(vec.get(usize::MAX), Err(BitLongVecError::IndexOutOfBounds));
}

#[test]
fn width_of_64_or_more_is_refused() {
    assert_eq!(BitLongVec::with_fixed_capacity(10, 63).map(|v| v.bits_per_value()), Ok(63));
    assert_eq!(BitLongVec::with_fixed_capacity(10, 64), Err(BitLongVecError::InvalidWidth));
    assert_eq!(BitLongVec::with_fixed_capacity(0, 255), Err(BitLongVecError::InvalidWidth));
    assert_eq!(BitLongVec::from_data(vec![0u64; 10], 10, 64), Err(BitLongVecError::InvalidWidth));
    assert_eq!(BitLongVec::from_data(vec![0u64; 1], 3, 200), Err(BitLongVecError::InvalidWidth));
}

#[test]
fn from_data_wants_the_exact_length() {
    assert_eq!(
        BitLongVec::from_data(vec![0u64; 1], 9, 14),
        Err(BitLongVecError::CapacityMismatch)
    );
    assert_eq!(
        BitLongVec::from_data(vec![0u64; 3], 9, 14),
        Err(BitLongVecError::CapacityMismatch)
    );
    assert_eq!(
        BitLongVec::from_data(Vec::new(), 1, 1),
        Err(BitLongVecError::CapacityMismatch)
    );
    let vec = BitLongVec::from_data(vec![0u64; 2], 9, 14).unwrap();
    assert_eq!(vec.capacity(), 9);
    assert_eq!(vec.bits_per_value(), 14);
    assert_eq!(vec.max_possible_value(), 16_383);
}

#[test]
fn word_count_of_the_largest_capacity_does_not_overflow() {
    assert_eq!(
        BitLongVec::from_data(Vec::new(), usize::MAX, 63),
        Err(BitLongVecError::CapacityMismatch)
    );
    assert_eq!(
        BitLongVec::from_data(vec![0u64; 4], usize::MAX, 1),
        Err(BitLongVecError::CapacityMismatch)
    );
    let empty = BitLongVec::from_data(Vec::new(), usize::MAX, 0).unwrap();
    assert_eq!(empty.capacity(), usize::MAX);
    assert_eq!(empty.get(usize::MAX - 1), Ok(0));
    assert_eq!(empty.get(usize::MAX), Err(BitLongVecError::IndexOutOfBounds));
}

#[test]
fn from_data_keeps_the_words() {
    let data: Vec<u64> = vec![u64::MAX, 0x0123_4567_89AB_CDEF, 7];
    let vec = BitLongVec::from_data(data.clone(), 3, 63).unwrap();
    assert_eq!(*vec.data(), data);
    assert_eq!(vec.get(0), Ok(0x7FFF_FFFF_FFFF_FFFF));
    assert_eq!(vec.get(1), Ok(0x0246_8ACF_1357_9BDF));
    assert_eq!(vec.get(2), Ok(0x1C));
}

#[test]
fn zero_width_holds_only_zeros() {
    let mut vec = BitLongVec::with_fixed_capacity(5, 0).unwrap();
    assert_eq!(vec.data().len(), 0);
    assert_eq!(vec.max_possible_value(), 0);
    for index in 0..5usize {
        assert_eq!(vec.get(index), Ok(0));
        assert_eq!(vec.set(index, 0), Ok(()));
        assert_eq!(vec.set(index, 1), Err(BitLongVecError::ValueOutOfRange));
    }
    assert_eq!(vec.get(5), Err(BitLongVecError::IndexOutOfBounds));
    assert_eq!(vec.set(5, 0), Err(BitLongVecError::IndexOutOfBounds));
    let adopted = BitLongVec::from_data(Vec::new(), 5, 0).unwrap();
    assert_eq!(adopted.get(4), Ok(0));
}

#[test]
fn zero_capacity_has_no_index() {
    let mut vec = BitLongVec::with_fixed_capacity(0, 10).unwrap();
    assert_eq!(vec.data().len(), 0);
    assert_eq!(vec.get(0), Err(BitLongVecError::IndexOutOfBounds));
    assert_eq!(vec.set(0, 0), Err(BitLongVecError::IndexOutOfBounds));
    let resized = vec.resize(3).unwrap();
    assert_eq!(resized.capacity(), 0);
    assert_eq!(resized.bits_per_value(), 3);
}

#[test]
fn resize_to_a_wider_width_keeps_values() {
    let mut vec = BitLongVec::with_fixed_capacity(9, 4).unwrap();
    for index in 0..9usize {
        vec.set(index, index as u64 + 3).unwrap();
    }
    let wide = vec.resize(14).unwrap();
    assert_eq!(wide.capacity(), 9);
    assert_eq!(wide.bits_per_value(), 14);
    assert_eq!(wide.max_possible_value(), 16_383);
    assert_eq!(wide.data().len(), 2);
    for index in 0..9usize {
        assert_eq!(wide.get(index), Ok(index as u64 + 3));
        assert_eq!(vec.get(index), Ok(index as u64 + 3));
    }
    assert_eq!(vec.bits_per_value(), 4);
    assert_eq!(vec.data().len(), 1);
}

#[test]
fn resize_packs_the_values_anew() {
    let mut vec = BitLongVec::with_fixed_capacity(9, 16).unwrap();
    for index in 0..9usize {
        vec.set(index, 15_000 + index as u64).unwrap();
    }
    let packed = vec.resize(14).unwrap();
    assert_eq!(*packed.data(), vec![11306972589037353624, 4224634284506261370]);
}

#[test]
fn resize_clears_bits_beyond_the_last_value() {
    let vec = BitLongVec::from_data(vec![u64::MAX], 3, 4).unwrap();
    let same_width = vec.resize(4).unwrap();
    assert_eq!(*same_width.data(), vec![0xFFF]);
    assert_eq!(*vec.data(), vec![u64::MAX]);
}

#[test]
fn resize_fails_on_the_first_value_that_does_not_fit() {
    let mut vec = BitLongVec::with_fixed_capacity(15, 8).unwrap();
    for index in 0..15usize {
        vec.set(index, index as u64 + 1).unwrap();
    }
    assert_eq!(vec.resize(3), Err(BitLongVecError::ValueOutOfRange));
    assert_eq!(vec.resize(0), Err(BitLongVecError::ValueOutOfRange));
    vec.set(14, 16).unwrap();
    assert_eq!(vec.resize(4), Err(BitLongVecError::ValueOutOfRange));
    assert_eq!(vec.resize(5).map(|v| v.get(14)), Ok(Ok(16)));
}

#[test]
fn resize_refuses_a_width_of_64_or_more() {
    let vec = BitLongVec::with_fixed_capacity(4, 8).unwrap();
    assert_eq!(vec.resize(64), Err(BitLongVecError::InvalidWidth));
    assert_eq!(vec.resize(128), Err(BitLongVecError::InvalidWidth));
    let mut full = BitLongVec::with_fixed_capacity(4, 8).unwrap();
    full.set(0, 255).unwrap();
    assert_eq!(full.resize(64), Err(BitLongVecError::InvalidWidth));
}

#[test]
fn resize_of_zeros_to_zero_width() {
    let vec = BitLongVec::with_fixed_capacity(6, 9).unwrap();
    let empty = vec.resize(0).unwrap();
    assert_eq!(empty.capacity(), 6);
    assert_eq!(empty.data().len(), 0);
    assert_eq!(empty.get(5), Ok(0));
}

#[test]
fn equal_vectors_compare_equal() {
    let mut left = BitLongVec::with_fixed_capacity(3, 4).unwrap();
    left.set(0, 10).unwrap();
    left.set(1, 12).unwrap();
    left.set(2, 10).unwrap();
    let right = BitLongVec::from_data(vec![2762], 3, 4).unwrap();
    assert_eq!(left, right);
    left.set(1, 0).unwrap();
    assert_ne!(left, right);
}

#[test]
fn ten_bit_values_take_sixteen_words_per_hundred() {
    let mut vec = BitLongVec::with_fixed_capacity(100, 10).unwrap();
    assert_eq!(vec.data().len(), 16);
    for index in 0..100usize {
        vec.set(index, 1023).unwrap();
        assert_eq!(vec.get(index), Ok(1023));
    }
}
