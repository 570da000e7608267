//! Tests of the voice.

use sevenate::dx7::compare_slices;
use sevenate::dx7::envelope::Envelope;
use sevenate::dx7::envelope::Rate;
use sevenate::dx7::lfo::Lfo;
use sevenate::dx7::lfo::LfoWaveform;
use sevenate::dx7::operator::Key;
use sevenate::dx7::operator::KeyboardLevelScaling;
use sevenate::dx7::operator::Operator;
use sevenate::dx7::operator::OperatorMode;
use sevenate::dx7::operator::Scaling;
use sevenate::dx7::operator::ScalingCurve;
use sevenate::dx7::sysex::SystemExclusiveData;
use sevenate::dx7::voice::Voice;
use sevenate::dx7::voice::VoiceName;
use sevenate::dx7::Algorithm;
use sevenate::dx7::Coarse;
use sevenate::dx7::Depth;
use sevenate::dx7::Detune;
use sevenate::dx7::Level;
use sevenate::dx7::Sensitivity;
use sevenate::dx7::Transpose;
use sevenate::Ranged;

fn rates(a: i32, b: i32, c: i32, d: i32) -> [Rate; 4] {
    [Rate::new(a).unwrap(), Rate::new(b).unwrap(), Rate::new(c).unwrap(), Rate::new(d).unwrap()]
}

fn levels(a: i32, b: i32, c: i32, d: i32) -> [Level; 4] {
    [Level::new(a).unwrap(), Level::new(b).unwrap(), Level::new(c).unwrap(), Level::new(d).unwrap()]
}

/// The first voice of the factory cartridge ROM1A, "BRASS 1", in packed
/// form.
fn rom1a_first_voice() -> [u8; 128] {
    [
        0x31, 0x63, 0x1c, 0x44, 0x62, 0x62, 0x5b, 0x00,
        0x27, 0x36, 0x32, 0x05, 0x3c, 0x08, 0x52, 0x02,
        0x00, 0x4d, 0x24, 0x29, 0x47, 0x63, 0x62, 0x62,
        0x00, 0x27, 0x00, 0x00, 0x0f, 0x40, 0x08, 0x62,
        0x02, 0x00, 0x4d, 0x24, 0x29, 0x47, 0x63, 0x62,
        0x62, 0x00, 0x27, 0x00, 0x00, 0x0f, 0x38, 0x08,
        0x63, 0x02, 0x00, 0x4d, 0x4c, 0x52, 0x47, 0x63,
        0x62, 0x62, 0x00, 0x27, 0x00, 0x00, 0x0f, 0x28,
        0x08, 0x63, 0x02, 0x00, 0x3e, 0x33, 0x1d, 0x47,
        0x52, 0x5f, 0x60, 0x00, 0x1b, 0x00, 0x07, 0x07,
        0x70, 0x00, 0x56, 0x00, 0x00, 0x48, 0x4c, 0x63,
        0x47, 0x63, 0x58, 0x60, 0x00, 0x27, 0x00, 0x0e,
        0x0f, 0x70, 0x00, 0x62, 0x00, 0x00, 0x54, 0x5f,
        0x5f, 0x3c, 0x32, 0x32, 0x32, 0x32, 0x15, 0x0f,
        0x25, 0x00, 0x05, 0x00, 0x38, 0x18, 0x42, 0x52,
        0x41, 0x53, 0x53, 0x20, 0x20, 0x20, 0x31, 0x20,
    ]
}

/// Makes a new voice based on the "BRASS1" settings in the DX7 manual.
fn brass1() -> Voice {
    let kbd_level_scaling = KeyboardLevelScaling {
        breakpoint: Key::new(60 - 21).unwrap(),
        left: Scaling { depth: Level::new(0).unwrap(), curve: ScalingCurve::lin_pos() },
        right: Scaling { depth: Level::new(0).unwrap(), curve: ScalingCurve::lin_pos() },
    };

    // Make one operator and then specify the differences to the others.
    let op = Operator { key_vel_sens: Depth::new(2).unwrap(), ..Operator::new() };

    let op6 = Operator {
        eg: Envelope::new_rate_level(rates(49, 99, 28, 68), levels(98, 98, 91, 0)),
        kbd_level_scaling: KeyboardLevelScaling {
            left: Scaling { depth: Level::new(54).unwrap(), curve: ScalingCurve::exp_neg() },
            right: Scaling { depth: Level::new(50).unwrap(), curve: ScalingCurve::exp_neg() },
            ..kbd_level_scaling
        },
        kbd_rate_scaling: Depth::new(4).unwrap(),
        output_level: Level::new(82).unwrap(),
        ..op
    };

    let op5 = Operator {
        eg: Envelope::new_rate_level(rates(77, 36, 41, 71), levels(99, 98, 98, 0)),
        kbd_level_scaling,
        output_level: Level::new(98).unwrap(),
        detune: Detune::new(1).unwrap(),
        ..op
    };

    let op4 = Operator {
        eg: op5.eg.clone(),
        kbd_level_scaling,
        output_level: Level::new(99).unwrap(),
        ..op
    };

    let op3 = Operator {
        eg: Envelope::new_rate_level(rates(77, 76, 82, 71), levels(99, 98, 98, 0)),
        kbd_level_scaling,
        output_level: Level::new(99).unwrap(),
        detune: Detune::new(-2).unwrap(),
        ..op
    };

    let op2 = Operator {
        eg: Envelope::new_rate_level(rates(62, 51, 29, 71), levels(82, 95, 96, 0)),
        kbd_level_scaling: KeyboardLevelScaling {
            breakpoint: Key::new(48 - 21).unwrap(),
            left: Scaling { depth: Level::new(0).unwrap(), curve: ScalingCurve::lin_pos() },
            right: Scaling { depth: Level::new(7).unwrap(), curve: ScalingCurve::exp_neg() },
        },
        key_vel_sens: Depth::new(0).unwrap(),
        output_level: Level::new(86).unwrap(),
        coarse: Coarse::default(),
        detune: Detune::new(7).unwrap(),
        ..op
    };

    let op1 = Operator {
        eg: Envelope::new_rate_level(rates(72, 76, 99, 71), levels(99, 88, 96, 0)),
        kbd_level_scaling: KeyboardLevelScaling {
            right: Scaling { depth: Level::new(14).unwrap(), curve: ScalingCurve::lin_pos() },
            ..kbd_level_scaling
        },
        key_vel_sens: Depth::new(0).unwrap(),
        output_level: Level::new(98).unwrap(),
        coarse: Coarse::default(),
        detune: Detune::new(7).unwrap(),
        ..op
    };

    Voice {
        operators: [op1, op2, op3, op4, op5, op6],
        peg: Envelope::new_rate_level(rates(84, 95, 95, 60), levels(50, 50, 50, 50)),
        alg: Algorithm::new(22).unwrap(),
        feedback: Depth::new(7).unwrap(),
        osc_sync: true,
        lfo: Lfo {
            speed: Level::new(37).unwrap(),
            delay: Level::new(0).unwrap(),
            pmd: Level::new(5).unwrap(),
            amd: Level::new(0).unwrap(),
            sync: false,
            waveform: LfoWaveform::Sine,
        },
        pitch_mod_sens: Depth::new(3).unwrap(),
        transpose: Transpose::new(0).unwrap(),
        name: VoiceName::new("BRASS   1 ").unwrap(),
    }
}

#[test]
fn voice_test_voice_packed_length() {
    let brass1 = brass1();
    let voice_data = brass1.to_bytes();
    let packed_voice_data = Voice::pack(&voice_data);
    assert_eq!(packed_voice_data.len(), 128);
}

#[test]
fn voice_test_voice_to_packed_bytes() {
    let data = rom1a_first_voice();

    // The first voice in ROM1A ("BRASS 1") is 128 bytes when packed.
    let voice_data = &data[0..128];
    let brass1 = brass1();
    let brass1_data = Voice::pack(&brass1.to_bytes());

    let diff_offset = compare_slices(voice_data, &brass1_data);
    match diff_offset {
        Some(offset) => {
            println!("Vectors differ at offset {:?}", offset);
            println!("Expected = {}, actual = {}", voice_data[offset], brass1_data[offset]);
        }
        None => println!("Vectors are the same"),
    }

    assert_eq!(voice_data, brass1_data);
}
