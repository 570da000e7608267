//! The laws of the encodings, each on chosen values.

use sevenate::dx7::cartridge::Cartridge;
use sevenate::dx7::lfo::Lfo;
use sevenate::dx7::lfo::LfoWaveform;
use sevenate::dx7::make_brass1;
use sevenate::dx7::make_init_voice;
use sevenate::dx7::operator::CurveSign;
use sevenate::dx7::operator::CurveStyle;
use sevenate::dx7::operator::Key;
use sevenate::dx7::operator::Operator;
use sevenate::dx7::operator::ScalingCurve;
use sevenate::dx7::sysex::MIDIChannel;
use sevenate::dx7::sysex::SystemExclusiveData;
use sevenate::dx7::voice::Voice;
use sevenate::dx7::voice::VoiceName;
use sevenate::dx7::Algorithm;
use sevenate::dx7::Coarse;
use sevenate::dx7::Depth;
use sevenate::dx7::Detune;
use sevenate::dx7::Level;
use sevenate::dx7::Sensitivity;
use sevenate::dx7::Transpose;
use sevenate::dx7::envelope::Rate;
use sevenate::RangeError;
use sevenate::Ranged;

fn check_bounds<T: Ranged + std::fmt::Debug>(first: i32, last: i32) {
    assert_eq!(T::FIRST, first);
    assert_eq!(T::LAST, last);
    assert_eq!(T::new(first).unwrap().value(), first);
    assert_eq!(T::new(last).unwrap().value(), last);
    assert_eq!(T::new(first - 1).unwrap_err(), RangeError { value: first - 1, first, last });
    assert_eq!(T::new(last + 1).unwrap_err(), RangeError { value: last + 1, first, last });
    for value in (first - 3)..=(last + 3) {
        assert_eq!(T::new(value).is_ok(), first <= value && value <= last);
        assert_eq!(T::contains(value), first <= value && value <= last);
    }
}

#[test]
fn new_succeeds_exactly_inside_the_range() {
    check_bounds::<Algorithm>(1, 32);
    check_bounds::<Detune>(-7, 7);
    check_bounds::<Coarse>(0, 31);
    check_bounds::<Depth>(0, 7);
    check_bounds::<Transpose>(-24, 24);
    check_bounds::<Sensitivity>(0, 3);
    check_bounds::<Level>(0, 99);
    check_bounds::<Rate>(0, 99);
    check_bounds::<Key>(0, 99);
    check_bounds::<MIDIChannel>(1, 16);
}

#[test]
fn defaults_are_the_declared_ones() {
    assert_eq!(Algorithm::default().value(), 32);
    assert_eq!(Detune::default().value(), 0);
    assert_eq!(Coarse::default().value(), 0);
    assert_eq!(Depth::default().value(), 0);
    assert_eq!(Transpose::default().value(), 0);
    assert_eq!(Sensitivity::default().value(), 0);
    assert_eq!(Level::default().value(), 0);
    assert_eq!(Rate::default().value(), 0);
    assert_eq!(Key::default().value(), 39);
    assert_eq!(MIDIChannel::default().value(), 1);
}

#[test]
fn algorithm_byte_is_value_minus_one() {
    for byte in 0u8..32 {
        let algorithm = Algorithm::from_byte(byte).unwrap();
        assert_eq!(algorithm.value(), byte as i32 + 1);
        assert_eq!(algorithm.as_byte(), byte);
    }
    assert_eq!(
        Algorithm::from_byte(32).unwrap_err(),
        RangeError { value: 33, first: 1, last: 32 }
    );
    assert_eq!(Algorithm::new(1).unwrap().as_byte(), 0);
    assert_eq!(Algorithm::new(32).unwrap().as_byte(), 31);
    assert!(Algorithm::new(0).is_err());
    assert!(Algorithm::new(33).is_err());
}

#[test]
fn parameter_bytes_follow_their_formulas() {
    assert_eq!(Detune::new(-7).unwrap().as_byte(), 0);
    assert_eq!(Detune::new(0).unwrap().as_byte(), 7);
    assert_eq!(Detune::new(7).unwrap().as_byte(), 14);
    assert_eq!(Detune::from_byte(8).unwrap().value(), 1);
    assert_eq!(
        Detune::from_byte(15).unwrap_err(),
        RangeError { value: 8, first: -7, last: 7 }
    );
    assert_eq!(Transpose::new(-24).unwrap().as_byte(), 0);
    assert_eq!(Transpose::new(-12).unwrap().as_byte(), 12);
    assert_eq!(Transpose::from_byte(36).unwrap().value(), 12);
    assert!(Transpose::from_byte(49).is_err());
    assert_eq!(Coarse::new(31).unwrap().as_byte(), 31);
    assert!(Coarse::from_byte(32).is_err());
    assert_eq!(Depth::new(7).unwrap().as_byte(), 7);
    assert!(Depth::from_byte(8).is_err());
    assert_eq!(Sensitivity::new(3).unwrap().as_byte(), 3);
    assert!(Sensitivity::from_byte(4).is_err());
    assert_eq!(Level::new(99).unwrap().as_byte(), 99);
    assert!(Level::from_byte(100).is_err());
    assert_eq!(Rate::new(50).unwrap().as_byte(), 50);
    assert!(Rate::from_byte(100).is_err());
    assert_eq!(Key::new(27).unwrap().as_byte(), 27);
    assert!(Key::from_byte(100).is_err());
    assert_eq!(MIDIChannel::new(1).unwrap().as_byte(), 0);
    assert_eq!(MIDIChannel::new(16).unwrap().as_byte(), 15);
    assert_eq!(MIDIChannel::from_byte(9).unwrap().value(), 10);
    assert!(MIDIChannel::from_byte(16).is_err());
}

#[test]
fn scaling_curve_bytes_are_the_fixed_four() {
    let curves = [
        (CurveStyle::Linear, CurveSign::Negative, 0u8),
        (CurveStyle::Exponential, CurveSign::Negative, 1),
        (CurveStyle::Exponential, CurveSign::Positive, 2),
        (CurveStyle::Linear, CurveSign::Positive, 3),
    ];
    for (style, sign, byte) in curves {
        let curve = ScalingCurve { style, sign };
        assert_eq!(curve.as_byte(), byte);
        assert_eq!(ScalingCurve::from_byte(byte).unwrap(), curve);
    }
    for byte in 4u8..=255 {
        assert_eq!(
            ScalingCurve::from_byte(byte).unwrap_err(),
            RangeError { value: byte as i32, first: 0, last: 3 }
        );
    }
}

#[test]
fn operator_data_survives_packing() {
    let data = make_brass1().operators[1].to_bytes();
    assert_eq!(data.len(), Operator::DATA_SIZE);
    let packed = Operator::pack(&data);
    assert_eq!(packed.len(), Operator::PACKED_SIZE);
    assert_eq!(Operator::unpack(&packed), data);
    assert_eq!(Operator::pack(&Operator::unpack(&packed)), packed);
}

#[test]
fn packing_keeps_only_the_bits_that_fit() {
    let mut data = make_brass1().operators[5].to_bytes();
    data[20] = 0xff;
    data[13] = 0xff;
    let packed = Operator::pack(&data);
    // Rate scaling keeps three bits, detune four, and bit 7 stays clear.
    assert_eq!(packed[12], 0x7f);
    let back = Operator::unpack(&packed);
    assert_eq!(back[13], 7);
    assert_eq!(back[20], 15);
    assert_eq!(Operator::pack(&back), packed);
}

#[test]
fn voice_data_survives_packing() {
    for voice in [make_brass1(), make_init_voice(), Voice::new()] {
        let data = voice.to_bytes();
        assert_eq!(data.len(), 155);
        let packed = Voice::pack(&data);
        assert_eq!(packed.len(), 128);
        assert_eq!(Voice::unpack(&packed), data);
        assert_eq!(Voice::pack(&Voice::unpack(&packed)), packed);
        assert_eq!(Voice::parse(&data).unwrap().to_bytes(), data);
        assert_eq!(Voice::from_packed_bytes(&packed).unwrap().to_packed_bytes(), packed);
    }
}

#[test]
fn cartridge_data_comes_back_byte_for_byte() {
    let mut cartridge = Cartridge::default();
    cartridge.voices[0] = make_brass1();
    cartridge.voices[1] = make_init_voice();
    for slot in 2..32 {
        let mut voice = Voice::new();
        voice.name = VoiceName::random();
        voice.lfo = Lfo::new_random();
        voice.operators[slot % 6] = Operator::random();
        voice.alg = Algorithm::random();
        cartridge.voices[slot] = voice;
    }
    let data = cartridge.to_bytes();
    assert_eq!(data.len(), 4096);
    let read = Cartridge::parse(&data).unwrap();
    assert_eq!(read.to_bytes(), data);
    assert_eq!(read.voices[0].to_bytes(), make_brass1().to_bytes());
    assert_eq!(Cartridge::from_packed_bytes(&data).unwrap().to_packed_bytes(), data);
}

#[test]
fn unknown_lfo_waveform_reads_as_triangle() {
    for byte in [6u8, 7, 100, 255] {
        let lfo = Lfo::parse(&[35, 0, 0, 0, 1, byte]).unwrap();
        assert_eq!(lfo.waveform, LfoWaveform::Triangle);
        assert!(!LfoWaveform::is_known(byte));
        assert_eq!(lfo.to_bytes(), vec![35, 0, 0, 0, 1, 0]);
    }
    let lfo = Lfo::parse(&[35, 0, 0, 0, 1, 4]).unwrap();
    assert_eq!(lfo.waveform, LfoWaveform::Sine);
    assert!(LfoWaveform::is_known(5));
}

#[test]
fn unknown_lfo_waveform_in_a_cartridge_does_not_come_back() {
    let mut data = Cartridge::default().to_bytes();
    // Waveform 7 in bits 1 to 3 of the first voice's byte 116.
    data[116] |= 7 << 1;
    let read = Cartridge::parse(&data).unwrap();
    assert_eq!(read.voices[0].lfo.waveform, LfoWaveform::Triangle);
    assert_ne!(read.to_bytes(), data);
}
