use moonglass_core::crypto::kzg::cells::{bit_reversal_permutation, reverse_bits};

#[test]
fn reverses_the_index_bits_of_a_power_of_two() {
    assert_eq!(reverse_bits(1, 8), 4);
    assert_eq!(reverse_bits(3, 8), 6);
    assert_eq!(reverse_bits(6, 8), 3);
    assert_eq!(reverse_bits(5, 16), 10);
    assert_eq!(reverse_bits(0, 128), 0);
    assert_eq!(reverse_bits(127, 128), 127);
}

#[test]
fn only_the_trailing_zero_bits_of_the_order_count() {
    // 6 has one trailing zero bit, so one bit is reversed.
    assert_eq!(reverse_bits(1, 6), 1);
    assert_eq!(reverse_bits(2, 6), 0);
    // An odd order reverses no bits.
    assert_eq!(reverse_bits(5, 3), 0);
}

#[test]
fn order_zero_reverses_every_bit() {
    assert_eq!(reverse_bits(1, 0), 1usize << (usize::BITS - 1));
}

#[test]
fn permutes_a_power_of_two_sequence() {
    let values: Vec<u32> = (0..8).collect();
    assert_eq!(bit_reversal_permutation(&values), vec![0, 4, 2, 6, 1, 5, 3, 7]);
    let values: Vec<u32> = (0..4).collect();
    assert_eq!(bit_reversal_permutation(&values), vec![0, 2, 1, 3]);
}

#[test]
fn permutation_is_its_own_inverse() {
    let values: Vec<u32> = (0..64).map(|x| x * 3 + 1).collect();
    let once = bit_reversal_permutation(&values);
    assert_ne!(once, values);
    assert_eq!(bit_reversal_permutation(&once), values);
}

#[test]
fn other_lengths_sort_stably_by_key() {
    let values: Vec<u32> = (0..6).collect();
    assert_eq!(bit_reversal_permutation(&values), vec![0, 2, 4, 1, 3, 5]);
    let values: Vec<u32> = (0..3).collect();
    assert_eq!(bit_reversal_permutation(&values), vec![0, 1, 2]);
    let empty: Vec<u32> = Vec::new();
    assert!(bit_reversal_permutation(&empty).is_empty());
}
