//! The bit codec: numbers to MSB-first words and back.

use rnn_core::bits::{bits_to_number, number_to_bits, number_to_bytes, parse_bit_text, pow2_usize};

#[test]
fn convert() {
    assert_eq!(bits_to_number(&[false, false, false, false, false]), 0);
    assert_eq!(bits_to_number(&[false, false, false, true, false]), 2);
    assert_eq!(bits_to_number(&[false, true, false, false, true]), 9);
    assert_eq!(bits_to_number(&[true, true, true, true, false]), 30);
    assert_eq!(bits_to_number(&[true, true, true, true, true]), 31);
}

#[test]
fn fits() {
    assert_eq!(
        number_to_bits(0, 5, 31),
        vec![false, false, false, false, false]
    );
    assert_eq!(
        number_to_bits(2, 5, 31),
        vec![false, false, false, true, false]
    );
    assert_eq!(
        number_to_bits(9, 5, 31),
        vec![false, true, false, false, true]
    );
    assert_eq!(
        number_to_bits(30, 5, 31),
        vec![true, true, true, true, false]
    );
    assert_eq!(
        number_to_bits(31, 5, 31),
        vec![true, true, true, true, true]
    );
}

#[test]
fn overflows() {
    assert_eq!(
        number_to_bits(32, 5, 31),
        vec![true, true, true, true, true]
    );
    assert_eq!(
        number_to_bits(100, 5, 31),
        vec![true, true, true, true, true]
    );
}

#[test]
fn low_bits_without_saturation() {
    assert_eq!(
        number_to_bytes(9, 5),
        vec![false, true, false, false, true]
    );
    assert_eq!(number_to_bytes(3, 2), vec![true, true]);
    // only the low bits are kept when the number is too wide
    assert_eq!(number_to_bytes(9, 3), vec![false, false, true]);
}

#[test]
fn powers_of_two() {
    assert_eq!(pow2_usize(0), 1);
    assert_eq!(pow2_usize(5), 32);
    assert_eq!(pow2_usize(24), 16777216);
}

#[test]
fn bit_text() {
    assert_eq!(
        parse_bit_text("+-0.x"),
        vec![true, false, false, false, true]
    );
    assert_eq!(parse_bit_text(""), Vec::<bool>::new());
}
