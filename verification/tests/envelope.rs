//! Tests of the envelope generator.

use sevenate::dx7::envelope::Envelope;
use sevenate::dx7::envelope::Rate;
use sevenate::dx7::sysex::SystemExclusiveData;
use sevenate::dx7::Level;
use sevenate::Ranged;

fn rates(a: i32, b: i32, c: i32, d: i32) -> [Rate; 4] {
    [Rate::new(a).unwrap(), Rate::new(b).unwrap(), Rate::new(c).unwrap(), Rate::new(d).unwrap()]
}

fn levels(a: i32, b: i32, c: i32, d: i32) -> [Level; 4] {
    [Level::new(a).unwrap(), Level::new(b).unwrap(), Level::new(c).unwrap(), Level::new(d).unwrap()]
}

#[test]
fn envelope_test_eg_to_bytes() {
    let eg = Envelope { rates: rates(64, 64, 64, 64), levels: levels(32, 32, 32, 32) };
    assert_eq!(eg.to_bytes(), vec![64u8, 64, 64, 64, 32, 32, 32, 32]);
}

#[test]
fn test_eg_display() {
    let eg = Envelope { rates: rates(64, 64, 64, 64), levels: levels(32, 32, 32, 32) };

    assert_eq!(eg.to_string(), "R1=64 L1=32 R2=64 L2=32 R3=64 L3=32 R4=64 L4=32");
}
