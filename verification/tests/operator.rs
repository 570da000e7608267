//! Tests of the operator.

use sevenate::dx7::compare_slices;
use sevenate::dx7::envelope::Envelope;
use sevenate::dx7::envelope::Rate;
use sevenate::dx7::operator::Key;
use sevenate::dx7::operator::KeyboardLevelScaling;
use sevenate::dx7::operator::Operator;
use sevenate::dx7::operator::OperatorMode;
use sevenate::dx7::operator::Scaling;
use sevenate::dx7::operator::ScalingCurve;
use sevenate::dx7::sysex::SystemExclusiveData;
use sevenate::dx7::Coarse;
use sevenate::dx7::Depth;
use sevenate::dx7::Detune;
use sevenate::dx7::Level;
use sevenate::dx7::Sensitivity;
use sevenate::Ranged;

fn rates(a: i32, b: i32, c: i32, d: i32) -> [Rate; 4] {
    [Rate::new(a).unwrap(), Rate::new(b).unwrap(), Rate::new(c).unwrap(), Rate::new(d).unwrap()]
}

fn levels(a: i32, b: i32, c: i32, d: i32) -> [Level; 4] {
    [Level::new(a).unwrap(), Level::new(b).unwrap(), Level::new(c).unwrap(), Level::new(d).unwrap()]
}

/// The first voice of the factory cartridge ROM1A, "BRASS 1", in packed
/// form.
fn rom1a_first_voice() -> [u8; 128] {
    [
        0x31, 0x63, 0x1c, 0x44, 0x62, 0x62, 0x5b, 0x00,
        0x27, 0x36, 0x32, 0x05, 0x3c, 0x08, 0x52, 0x02,
        0x00, 0x4d, 0x24, 0x29, 0x47, 0x63, 0x62, 0x62,
        0x00, 0x27, 0x00, 0x00, 0x0f, 0x40, 0x08, 0x62,
        0x02, 0x00, 0x4d, 0x24, 0x29, 0x47, 0x63, 0x62,
        0x62, 0x00, 0x27, 0x00, 0x00, 0x0f, 0x38, 0x08,
        0x63, 0x02, 0x00, 0x4d, 0x4c, 0x52, 0x47, 0x63,
        0x62, 0x62, 0x00, 0x27, 0x00, 0x00, 0x0f, 0x28,
        0x08, 0x63, 0x02, 0x00, 0x3e, 0x33, 0x1d, 0x47,
        0x52, 0x5f, 0x60, 0x00, 0x1b, 0x00, 0x07, 0x07,
        0x70, 0x00, 0x56, 0x00, 0x00, 0x48, 0x4c, 0x63,
        0x47, 0x63, 0x58, 0x60, 0x00, 0x27, 0x00, 0x0e,
        0x0f, 0x70, 0x00, 0x62, 0x00, 0x00, 0x54, 0x5f,
        0x5f, 0x3c, 0x32, 0x32, 0x32, 0x32, 0x15, 0x0f,
        0x25, 0x00, 0x05, 0x00, 0x38, 0x18, 0x42, 0x52,
        0x41, 0x53, 0x53, 0x20, 0x20, 0x20, 0x31, 0x20,
    ]
}

#[test]
fn test_from_packed_bytes() {
    let all_data = rom1a_first_voice();

    // The first voice in ROM1A ("BRASS 1") is where the data starts.
    let voice_data = &all_data[..];

    // The data for its OP6 is first. It is 17 bytes when packed.
    let packed_op_data = &voice_data[..17];

    let op_data = Operator::unpack(packed_op_data);

    // OP6 rates: 31 63 1c 44
    // OP6 levels: 62 62 5b 00

    // KLS: 27 36 32 05
    // - breakpoint = 27H = 39 = C3
    // - left depth = 36H = 54
    // - right depth = 32H = 50
    // - left curve and right curve packed = 05H

    // Byte #12: osc detune and rate scaling 3CH = 0111_100B
    // Detune = 0111B = 7
    // rate scaling = 100B = 4

    _ = Operator::parse(&op_data).expect("valid operator");
}

#[test]
fn test_pack() {
    let op = Operator {
        eg: Envelope { rates: rates(49, 99, 28, 68), levels: levels(98, 98, 91, 0) },
        kbd_level_scaling: KeyboardLevelScaling {
            breakpoint: Key::new(39).unwrap(),
            left: Scaling { depth: Level::new(54).unwrap(), curve: ScalingCurve::exp_neg() },
            right: Scaling { depth: Level::new(50).unwrap(), curve: ScalingCurve::exp_neg() },
        },
        kbd_rate_scaling: Depth::new(4).unwrap(),
        amp_mod_sens: Sensitivity::new(0).unwrap(),
        key_vel_sens: Depth::new(2).unwrap(),
        output_level: Level::new(82).unwrap(),
        mode: OperatorMode::Ratio,
        coarse: Coarse::new(1).unwrap(),
        fine: Level::new(0).unwrap(),
        detune: Detune::new(0).unwrap(),
    };

    let data = Operator::pack(&op.to_bytes());

    let expected_data = vec![
        0x31u8, 0x63, 0x1c, 0x44, 0x62, 0x62, 0x5b, 0x00, 0x27, 0x36, 0x32, 0x05, 0x3c, 0x08, 0x52,
        0x02, 0x00,
    ];

    let diff_offset = compare_slices(&expected_data, &data);
    match diff_offset {
        Some(offset) => {
            println!("Vectors differ at offset {:?}", offset);
            println!("Expected = {}, actual = {}", expected_data[offset], data[offset]);
        }
        None => println!("Vectors are the same"),
    }

    assert_eq!(data, expected_data);
}
