//! Tests of the cartridge.

use sevenate::dx7::cartridge::Cartridge;
use sevenate::dx7::cartridge::CARTRIDGE_DATA_SIZE;
use sevenate::dx7::sysex::SystemExclusiveData;

#[test]
fn cartridge_test_cartridge_length() {
    let cartridge = Cartridge::default();
    assert_eq!(cartridge.to_bytes().len(), CARTRIDGE_DATA_SIZE);
}
