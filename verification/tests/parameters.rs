//! Tests of the parameter types.

use bit::BitIndex;
use sevenate::dx7::lfo::LfoWaveform;
use sevenate::dx7::operator::ScalingCurve;
use sevenate::dx7::Transpose;
use sevenate::Ranged;

#[test]
fn mod_test_bit_range() {
    let b: u8 = 0b00110000;

    // If this succeeds, the range upper bound is not included,
    // i.e. 4..6 means bits 4 and 5.
    assert_eq!(b.bit_range(4..6), 0b11);
}

#[test]
fn mod_test_scaling_curve_exp_pos_to_bytes() {
    assert_eq!(ScalingCurve::exp_pos().as_byte(), 2);
}

#[test]
fn mod_test_scaling_curve_exp_neg_to_bytes() {
    assert_eq!(ScalingCurve::exp_neg().as_byte(), 1);
}

#[test]
fn mod_test_scaling_curve_lin_pos_to_bytes() {
    assert_eq!(ScalingCurve::lin_pos().as_byte(), 3);
}

#[test]
fn mod_test_scaling_curve_lin_neg_to_bytes() {
    assert_eq!(ScalingCurve::lin_neg().as_byte(), 0);
}

#[test]
fn mod_test_bulk_b111() {
    let sync = true;
    let feedback = 7u8;
    let expected = 0x0fu8;
    let actual = feedback | ((if sync { 1 } else { 0 }) << 3);
    assert_eq!(actual, expected);
}

#[test]
fn mod_test_bulk_b116() {
    let sync = false;
    let wave = LfoWaveform::Sine;
    let pms = 3u8;
    let mut actual: u8 = if sync { 1 } else { 0 };
    actual.set_bit_range(1..4, wave.as_byte());
    actual.set_bit_range(4..7, pms);
    assert_eq!(actual, 0x38);
}

#[test]
fn mod_test_transpose_from_byte() {
    let zero = Transpose::from_byte(48).unwrap(); // from SysEx byte
    assert_eq!(zero.value(), 24);
}

#[test]
fn test_transpose_from_byte_minus_two() {
    let minus_two_octaves = Transpose::from_byte(0).unwrap(); // from SysEx byte
    assert_eq!(minus_two_octaves.value(), -24);
}

#[test]
fn test_transpose_from_byte_minus_one() {
    let minus_one_octave = Transpose::from_byte(12).unwrap(); // from SysEx byte
    assert_eq!(minus_one_octave.value(), -12);
}

#[test]
fn mod_test_transpose_as_byte() {
    let none = Transpose::new(0).unwrap(); // no transpose
    assert_eq!(none.as_byte(), 24);

    let plus_two = Transpose::new(24).unwrap();
    assert_eq!(plus_two.as_byte(), 48)
}
