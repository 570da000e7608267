//! Tests that go through a whole voice or a whole cartridge.

use bit::BitIndex;
use sevenate::dx7::cartridge::Cartridge;
use sevenate::dx7::make_brass1;
use sevenate::dx7::compare_slices;
use sevenate::dx7::envelope::Envelope;
use sevenate::dx7::envelope::Rate;
use sevenate::dx7::lfo::Lfo;
use sevenate::dx7::lfo::LfoWaveform;
use sevenate::dx7::operator::Key;
use sevenate::dx7::operator::KeyboardLevelScaling;
use sevenate::dx7::operator::Operator;
use sevenate::dx7::operator::OperatorMode;
use sevenate::dx7::operator::Scaling;
use sevenate::dx7::operator::ScalingCurve;
use sevenate::dx7::sysex::SystemExclusiveData;
use sevenate::dx7::voice::Voice;
use sevenate::dx7::voice::VoiceName;
use sevenate::dx7::Algorithm;
use sevenate::dx7::Coarse;
use sevenate::dx7::Depth;
use sevenate::dx7::Detune;
use sevenate::dx7::Level;
use sevenate::dx7::Sensitivity;
use sevenate::dx7::Transpose;
use sevenate::ParseError;
use sevenate::Ranged;

fn rates(a: i32, b: i32, c: i32, d: i32) -> [Rate; 4] {
    [Rate::new(a).unwrap(), Rate::new(b).unwrap(), Rate::new(c).unwrap(), Rate::new(d).unwrap()]
}

fn levels(a: i32, b: i32, c: i32, d: i32) -> [Level; 4] {
    [Level::new(a).unwrap(), Level::new(b).unwrap(), Level::new(c).unwrap(), Level::new(d).unwrap()]
}

/// The first voice of the factory cartridge ROM1A, "BRASS 1", in packed
/// form.
fn rom1a_first_voice() -> [u8; 128] {
    [
        0x31, 0x63, 0x1c, 0x44, 0x62, 0x62, 0x5b, 0x00,
        0x27, 0x36, 0x32, 0x05, 0x3c, 0x08, 0x52, 0x02,
        0x00, 0x4d, 0x24, 0x29, 0x47, 0x63, 0x62, 0x62,
        0x00, 0x27, 0x00, 0x00, 0x0f, 0x40, 0x08, 0x62,
        0x02, 0x00, 0x4d, 0x24, 0x29, 0x47, 0x63, 0x62,
        0x62, 0x00, 0x27, 0x00, 0x00, 0x0f, 0x38, 0x08,
        0x63, 0x02, 0x00, 0x4d, 0x4c, 0x52, 0x47, 0x63,
        0x62, 0x62, 0x00, 0x27, 0x00, 0x00, 0x0f, 0x28,
        0x08, 0x63, 0x02, 0x00, 0x3e, 0x33, 0x1d, 0x47,
        0x52, 0x5f, 0x60, 0x00, 0x1b, 0x00, 0x07, 0x07,
        0x70, 0x00, 0x56, 0x00, 0x00, 0x48, 0x4c, 0x63,
        0x47, 0x63, 0x58, 0x60, 0x00, 0x27, 0x00, 0x0e,
        0x0f, 0x70, 0x00, 0x62, 0x00, 0x00, 0x54, 0x5f,
        0x5f, 0x3c, 0x32, 0x32, 0x32, 0x32, 0x15, 0x0f,
        0x25, 0x00, 0x05, 0x00, 0x38, 0x18, 0x42, 0x52,
        0x41, 0x53, 0x53, 0x20, 0x20, 0x20, 0x31, 0x20,
    ]
}

#[test]
fn dx7_test_bit_range() {
    let b: u8 = 0b00110000;

    // If this succeeds, the range upper bound is not included,
    // i.e. 4..6 means bits 4 and 5.
    assert_eq!(b.bit_range(4..6), 0b11);
}

#[test]
fn test_valid_new_succeeds() {
    let alg = Algorithm::new(32).unwrap();
    assert_eq!(alg.value(), 32);
}

#[test]
fn dx7_test_eg_to_bytes() {
    let eg = Envelope { rates: rates(64, 64, 64, 64), levels: levels(32, 32, 32, 32) };
    assert_eq!(eg.to_bytes(), vec![64u8, 64, 64, 64, 32, 32, 32, 32]);
}

#[test]
fn dx7_test_scaling_curve_exp_pos_to_bytes() {
    assert_eq!(ScalingCurve::exp_pos().as_byte(), 2);
}

#[test]
fn dx7_test_scaling_curve_exp_neg_to_bytes() {
    assert_eq!(ScalingCurve::exp_neg().as_byte(), 1);
}

#[test]
fn dx7_test_scaling_curve_lin_pos_to_bytes() {
    assert_eq!(ScalingCurve::lin_pos().as_byte(), 3);
}

#[test]
fn dx7_test_scaling_curve_lin_neg_to_bytes() {
    assert_eq!(ScalingCurve::lin_neg().as_byte(), 0);
}

#[test]
fn test_op_to_packed_bytes() {
    let op = Operator {
        eg: Envelope { rates: rates(49, 99, 28, 68), levels: levels(98, 98, 91, 0) },
        kbd_level_scaling: KeyboardLevelScaling {
            breakpoint: Key::new(39).unwrap(),
            left: Scaling { depth: Level::new(54).unwrap(), curve: ScalingCurve::exp_neg() },
            right: Scaling { depth: Level::new(50).unwrap(), curve: ScalingCurve::exp_neg() },
        },
        kbd_rate_scaling: Depth::new(4).unwrap(),
        amp_mod_sens: Sensitivity::new(0).unwrap(),
        key_vel_sens: Depth::new(2).unwrap(),
        output_level: Level::new(82).unwrap(),
        mode: OperatorMode::Ratio,
        coarse: Coarse::new(1).unwrap(),
        fine: Level::new(0).unwrap(),
        detune: Detune::new(0).unwrap(),
    };

    let data = op.to_packed_bytes();

    let expected_data = vec![
        0x31u8, 0x63, 0x1c, 0x44, 0x62, 0x62, 0x5b, 0x00, 0x27, 0x36, 0x32, 0x05, 0x3c, 0x08, 0x52,
        0x02, 0x00,
    ];

    let diff_offset = compare_slices(&expected_data, &data);
    match diff_offset {
        Some(offset) => {
            println!("Vectors differ at offset {:?}", offset);
            println!("Expected = {}, actual = {}", expected_data[offset], data[offset]);
        }
        None => println!("Vectors are the same"),
    }

    assert_eq!(data, expected_data);
}

#[test]
fn dx7_test_voice_packed_length() {
    let brass1 = make_brass1();
    assert_eq!(brass1.to_packed_bytes().len(), 128);
}

#[test]
fn dx7_test_cartridge_length() {
    let cartridge = Cartridge::default();
    assert_eq!(cartridge.to_bytes().len(), 4096);
}

#[test]
fn dx7_test_voice_to_packed_bytes() {
    let rom1a_data = rom1a_first_voice();

    // The first voice in ROM1A ("BRASS 1") is the first 128 bytes
    let voice_data = &rom1a_data[..128];
    let brass1 = make_brass1();
    let brass1_data = brass1.to_packed_bytes();

    let diff_offset = compare_slices(voice_data, &brass1_data);
    match diff_offset {
        Some(offset) => {
            println!("Vectors differ at offset {:?}", offset);
            println!("Expected = {}, actual = {}", voice_data[offset], brass1_data[offset]);
        }
        None => println!("Vectors are the same"),
    }

    assert_eq!(voice_data, brass1_data);
}

#[test]
fn test_operator_from_bytes() {
    let data = vec![
        0x03u8, 0x47, 0x00, 0x03, 0x00, 0x07, 0x63, 0x23, // rate and level
        0x63, 0x57, 0x63, 0x63, 0x63, // kbd level scaling
        0x00, 0x00, 0x00, 0x11, // output level
        0x00, // osc mode
        0x00, 0x00, 0x00, // coarse, fine, detune
    ];
    assert_eq!(data.len(), 21);
    // Both curve bytes are 0x63, and a curve is 0, 1, 2 or 3: the data is
    // refused at the first of them.
    let operator = Operator::parse(&data);
    assert_eq!(operator.unwrap_err(), ParseError::InvalidData(11));
}

#[test]
fn test_voice_from_bytes() {
    let data: [u8; 155] = [
        0x63, 0x63, 0x63, 0x63, 0x63, 0x63, 0x63, 0x00, 0x00, 0x00, 0x00, 0x00, 0x00, 0x00, 0x00,
        0x00, 0x57, 0x00, 0x0b, 0x00, 0x07, 0x63, 0x27, 0x63, 0x63, 0x63, 0x00, 0x00, 0x00, 0x00,
        0x00, 0x00, 0x00, 0x00, 0x00, 0x00, 0x07, 0x41, 0x00, 0x00, 0x00, 0x07, 0x63, 0x27, 0x63,
        0x63, 0x63, 0x00, 0x00, 0x00, 0x00, 0x00, 0x0a, 0x00, 0x00, 0x00, 0x00, 0x05, 0x58, 0x00,
        0x08, 0x00, 0x07, 0x63, 0x20, 0x63, 0x57, 0x63, 0x00, 0x00, 0x00, 0x00, 0x00, 0x11, 0x00,
        0x00, 0x00, 0x00, 0x03, 0x47, 0x00, 0x03, 0x00, 0x07, 0x63, 0x23, 0x63, 0x57, 0x63, 0x63,
        0x63, 0x00, 0x00, 0x00, 0x11, 0x00, 0x00, 0x00, 0x00, 0x00, 0x5c, 0x00, 0x00, 0x00, 0x07,
        0x63, 0x43, 0x1e, 0x57, 0x63, 0x5f, 0x00, 0x00, 0x00, 0x00, 0x00, 0x00, 0x00, 0x00, 0x00,
        0x04, 0x63, 0x00, 0x00, 0x00, 0x07, 0x63, 0x63, 0x63, 0x63, 0x32, 0x32, 0x32, 0x32, 0x0f,
        0x05, 0x01, 0x23, 0x00, 0x00, 0x00, 0x01, 0x00, 0x00, 0x18, 0x47, 0x45, 0x54, 0x20, 0x46,
        0x55, 0x4e, 0x4b, 0x59, 0x20,
    ];

    let voice = Voice::parse(&data).unwrap();
    assert_eq!(voice.name.value(), "GET FUNKY ");
}

#[test]
fn dx7_test_bulk_b111() {
    let sync = true;
    let feedback = 7u8;
    let expected = 0x0fu8;
    let actual = feedback | ((if sync { 1 } else { 0 }) << 3);
    assert_eq!(actual, expected);
}

#[test]
fn dx7_test_bulk_b116() {
    let sync = false;
    let wave = LfoWaveform::Sine;
    let pms = 3u8;
    let mut actual: u8 = if sync { 1 } else { 0 };
    actual.set_bit_range(1..4, wave.as_byte());
    actual.set_bit_range(4..7, pms);
    assert_eq!(actual, 0x38);
}
