//! Tests of the small parts: bit fields, checksum, text, random values.

use sevenate::bits::extract_bits;
use sevenate::bits::join_bits;
use sevenate::bits::set_bits;
use sevenate::bits::test_bit;
use sevenate::dx7::compare_slices;
use sevenate::dx7::envelope::Envelope;
use sevenate::dx7::envelope::Rate;
use sevenate::dx7::lfo::Lfo;
use sevenate::dx7::lfo::LfoWaveform;
use sevenate::dx7::make_brass1;
use sevenate::dx7::make_init_voice;
use sevenate::dx7::operator::Key;
use sevenate::dx7::operator::KeyboardLevelScaling;
use sevenate::dx7::operator::Operator;
use sevenate::dx7::operator::OperatorMode;
use sevenate::dx7::operator::ScalingCurve;
use sevenate::dx7::sysex::checksum;
use sevenate::dx7::sysex::SystemExclusiveData;
use sevenate::dx7::voice::Voice;
use sevenate::dx7::voice::VoiceName;
use sevenate::dx7::Level;
use sevenate::dx7::Transpose;
use sevenate::text::ascii_string;
use sevenate::text::number_string;
use sevenate::RangeError;
use sevenate::Ranged;

#[test]
fn bit_fields_are_read_and_written() {
    assert_eq!(extract_bits(0b0011_0000, 4, 2), 0b11);
    assert_eq!(extract_bits(0x3c, 0, 3), 4);
    assert_eq!(extract_bits(0x3c, 3, 4), 7);
    assert_eq!(extract_bits(0xff, 0, 8), 0xff);
    assert_eq!(extract_bits(0x80, 7, 1), 1);
    assert!(test_bit(0b0000_1000, 3));
    assert!(!test_bit(0b0000_1000, 2));
    assert_eq!(set_bits(0, 1, 3, 4), 0x08);
    assert_eq!(set_bits(0x08, 4, 3, 3), 0x38);
    assert_eq!(set_bits(0xff, 2, 3, 0), 0b1110_0011);
    // Only the low bits of the value are written.
    assert_eq!(set_bits(0, 0, 2, 0xff), 0b11);
    assert_eq!(join_bits(1, 2, 1, 2), 0x05);
    assert_eq!(join_bits(4, 3, 7, 4), 0x3c);
    assert_eq!(join_bits(7, 3, 1, 1), 0x0f);
    assert_eq!(join_bits(0xff, 1, 0xff, 5), 0b0011_1111);
}

#[test]
fn checksum_is_the_negated_sum_in_seven_bits() {
    assert_eq!(checksum(&[]), 0);
    assert_eq!(checksum(&[1]), 0x7f);
    assert_eq!(checksum(&[0x7f, 0x01]), 0);
    assert_eq!(checksum(&[0x80]), 0);
    assert_eq!(checksum(&[0xff, 0xff, 0x02]), 0);
    assert_eq!(checksum(&[0x10, 0x20, 0x30]), 0x20);
    assert_eq!(checksum(&[0xcd]), 0x33);
    let data = make_brass1().to_packed_bytes();
    let sum: u32 = data.iter().map(|b| *b as u32).sum();
    assert_eq!((sum + checksum(&data) as u32) % 128, 0);
    assert!(checksum(&data) < 128);
}

#[test]
fn compare_slices_finds_the_first_difference() {
    assert_eq!(compare_slices(&[1, 2, 3], &[1, 2, 3]), None);
    assert_eq!(compare_slices(&[1, 2, 3], &[1, 9, 9]), Some(1));
    assert_eq!(compare_slices(&[1, 2, 3], &[1, 2]), None);
    assert_eq!(compare_slices(&[], &[]), None);
    assert_eq!(compare_slices(&[0], &[1]), Some(0));
}

#[test]
fn numbers_and_names_as_text() {
    assert_eq!(number_string(0), "0");
    assert_eq!(number_string(7), "7");
    assert_eq!(number_string(99), "99");
    assert_eq!(number_string(-24), "-24");
    assert_eq!(number_string(i32::MAX), "2147483647");
    assert_eq!(number_string(i32::MIN), "-2147483648");
    assert_eq!(ascii_string(b"INIT VOICE"), "INIT VOICE");
    assert_eq!(Key::new(39).unwrap().name(), "Eb4");
    assert_eq!(Key::new(0).unwrap().name(), "C1");
    assert_eq!(Key::new(99).unwrap().name(), "Eb9");
    assert_eq!(Key::new(27).unwrap().name(), "Eb3");
    assert_eq!(Level::new(54).unwrap().to_string(), "54");
    assert_eq!(Transpose::new(-12).unwrap().to_string(), "-12");
    assert_eq!(ScalingCurve::exp_neg().to_string(), "-EXP");
    assert_eq!(ScalingCurve::lin_pos().to_string(), "+LIN");
    assert_eq!(OperatorMode::Fixed.to_string(), "Fixed");
    assert_eq!(LfoWaveform::SampleAndHold.to_string(), "SampleAndHold");
    assert_eq!(
        KeyboardLevelScaling::new().to_string(),
        "breakpoint = Eb4, left depth = 0, right depth = 0, left curve = -LIN, right curve = -LIN"
    );
    assert_eq!(
        Lfo::new().to_string(),
        "speed = 35, delay = 0, PMD = 0, AMD = 0, sync = true, waveform = Triangle"
    );
    assert_eq!(
        Operator::new().to_string(),
        "EG: R1=99 L1=99 R2=99 L2=99 R3=99 L3=99 R4=99 L4=0\n\
         Kbd level scaling: breakpoint = Eb4, left depth = 0, right depth = 0, \
         left curve = -LIN, right curve = -LIN, Kbd rate scaling: 0\n\
         Amp mod sens = 0, Key vel sens = 0\n\
         Level = 0, Mode = Ratio\n\
         Coarse = 1, Fine = 0, Detune = 0\n"
    );
    let text = make_brass1().to_string();
    assert!(text.starts_with("BRASS   1 \nOP1: EG: R1=72 L1=99 R2=76 L2=88"));
    assert!(text.ends_with("\nALG: 22, feedback = 7, osc sync = true\nLFO: speed = 37, delay = 0, PMD = 5, AMD = 0, sync = false, waveform = Sine\nTranspose: 0"));
}

#[test]
fn fresh_values_are_the_documented_ones() {
    assert_eq!(Envelope::new().to_bytes(), vec![99, 99, 99, 99, 99, 99, 99, 0]);
    assert_eq!(KeyboardLevelScaling::new().to_bytes(), vec![39, 0, 0, 0, 0]);
    assert_eq!(KeyboardLevelScaling::new().to_packed_bytes(), vec![39, 0, 0, 0]);
    assert_eq!(Lfo::new().to_bytes(), vec![35, 0, 0, 0, 1, 0]);
    assert_eq!(
        Operator::new().to_bytes(),
        vec![99, 99, 99, 99, 99, 99, 99, 0, 39, 0, 0, 0, 0, 0, 0, 0, 0, 0, 1, 0, 7]
    );
    let voice = Voice::new();
    assert_eq!(voice.name.value(), "INIT VOICE");
    assert_eq!(voice.alg.value(), 1);
    assert_eq!(voice.peg.to_bytes(), vec![99, 99, 99, 99, 50, 50, 50, 50]);
    assert_eq!(voice.pitch_mod_sens.value(), 0);
    assert_eq!(voice.operators[0].output_level.value(), 0);
    assert_eq!(Voice::default().to_bytes(), voice.to_bytes());
    let init = make_init_voice();
    assert_eq!(init.operators[0].output_level.value(), 99);
    assert_eq!(init.operators[1].output_level.value(), 0);
    assert_eq!(init.pitch_mod_sens.value(), 3);
    assert_eq!(init.name.value(), "INIT VOICE");
}

#[test]
fn adsr_envelopes() {
    let eg = Envelope::adsr_int(10, 20, 30, 40).unwrap();
    assert_eq!(eg.to_bytes(), vec![10, 99, 20, 40, 99, 99, 30, 0]);
    let same = Envelope::adsr(
        Rate::new(10).unwrap(),
        Rate::new(20).unwrap(),
        Level::new(30).unwrap(),
        Rate::new(40).unwrap(),
    );
    assert_eq!(same.to_bytes(), eg.to_bytes());
    assert_eq!(
        Envelope::adsr_int(10, 100, 101, 40).unwrap_err(),
        RangeError { value: 100, first: 0, last: 99 }
    );
    assert_eq!(
        Envelope::new_rate_level_int([1, 2, 3, 4], [5, 6, 7, 8]).unwrap().to_bytes(),
        vec![1, 2, 3, 4, 5, 6, 7, 8]
    );
    // The level of a stage is looked at before the rate of the next.
    assert_eq!(
        Envelope::new_rate_level_int([1, -2, 3, 4], [-5, 6, 7, 8]).unwrap_err(),
        RangeError { value: -5, first: 0, last: 99 }
    );
}

#[test]
fn packed_forms_of_the_parts() {
    assert_eq!(Lfo::pack(&[37, 0, 5, 0, 0, 4]), vec![37, 0, 5, 0, 0x08]);
    assert_eq!(Lfo::unpack(&[37, 0, 5, 0, 0x38]), vec![37, 0, 5, 0, 0, 4]);
    assert_eq!(KeyboardLevelScaling::pack(&[39, 54, 50, 1, 1]), vec![39, 54, 50, 5]);
    assert_eq!(KeyboardLevelScaling::unpack(&[39, 54, 50, 5]), vec![39, 54, 50, 1, 1]);
    let scaling = KeyboardLevelScaling::from_packed_bytes(&[27, 0, 7, 0x07]).unwrap();
    assert_eq!(scaling.left.curve, ScalingCurve::lin_pos());
    assert_eq!(scaling.right.curve, ScalingCurve::exp_neg());
    assert_eq!(scaling.to_packed_bytes(), vec![27, 0, 7, 0x07]);
    let packed = make_brass1().to_packed_bytes();
    let op6 = Operator::from_packed_bytes(&packed[0..17]).unwrap();
    assert_eq!(op6.detune.value(), 0);
    assert_eq!(op6.kbd_rate_scaling.value(), 4);
    assert_eq!(op6.to_packed_bytes(), packed[0..17].to_vec());
}

#[test]
fn random_values_lie_in_their_ranges() {
    for _ in 0..200 {
        let level = Level::random();
        assert!(Level::contains(level.value()));
        let key = Key::random();
        assert!((0..=99).contains(&key.value()));
        let transpose = Transpose::random();
        assert!((-24..=24).contains(&transpose.value()));
    }
    let mut seen = std::collections::BTreeSet::new();
    for _ in 0..400 {
        seen.insert(Level::random().value());
    }
    assert!(seen.len() > 1);
    for _ in 0..50 {
        let eg = Envelope::random();
        assert_eq!(Envelope::parse(&eg.to_bytes()).unwrap().to_bytes(), eg.to_bytes());
        let eg = Envelope::new_random();
        assert!(eg.to_bytes().iter().all(|b| *b <= 99));
        let op = Operator::new_random();
        assert_eq!(op.coarse.value(), 1);
        assert_eq!(Operator::parse(&op.to_bytes()).unwrap().to_bytes(), op.to_bytes());
        let lfo = Lfo::new_random();
        assert!(lfo.sync);
        assert_eq!(lfo.waveform, LfoWaveform::Triangle);
    }
}

#[test]
fn random_names_are_five_syllables() {
    let consonants = b"KSTNHMYRWGZDBP";
    let vowels = b"AIUEO";
    let mut seen = std::collections::BTreeSet::new();
    for _ in 0..100 {
        let name = VoiceName::random().to_bytes();
        assert_eq!(name.len(), 10);
        for k in 0..5 {
            assert!(consonants.contains(&name[2 * k]));
            assert!(vowels.contains(&name[2 * k + 1]));
        }
        seen.insert(name);
    }
    assert!(seen.len() > 1);
}
