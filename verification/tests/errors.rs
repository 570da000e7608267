//! Every error, with data that gives it.

use sevenate::dx7::cartridge::Cartridge;
use sevenate::dx7::envelope::Envelope;
use sevenate::dx7::lfo::Lfo;
use sevenate::dx7::make_brass1;
use sevenate::dx7::operator::KeyboardLevelScaling;
use sevenate::dx7::operator::Operator;
use sevenate::dx7::sysex::Format;
use sevenate::dx7::sysex::Header;
use sevenate::dx7::sysex::SystemExclusiveData;
use sevenate::dx7::voice::Voice;
use sevenate::dx7::voice::VoiceName;
use sevenate::ParseError;
use sevenate::RangeError;

#[test]
fn wrong_lengths_are_refused() {
    assert_eq!(Envelope::parse(&[0; 7]).unwrap_err(), ParseError::InvalidLength(7, 8));
    assert_eq!(
        KeyboardLevelScaling::parse(&[0; 6]).unwrap_err(),
        ParseError::InvalidLength(6, 5)
    );
    assert_eq!(Operator::parse(&[0; 17]).unwrap_err(), ParseError::InvalidLength(17, 21));
    assert_eq!(Lfo::parse(&[]).unwrap_err(), ParseError::InvalidLength(0, 6));
    assert_eq!(Voice::parse(&[0; 128]).unwrap_err(), ParseError::InvalidLength(128, 155));
    assert_eq!(Cartridge::parse(&[0; 4095]).unwrap_err(), ParseError::InvalidLength(4095, 4096));
    assert_eq!(Header::parse(&[0; 5]).unwrap_err(), ParseError::InvalidLength(5, 4));
    assert_eq!(
        Operator::from_packed_bytes(&[0; 21]).unwrap_err(),
        ParseError::InvalidLength(21, 17)
    );
    assert_eq!(
        Voice::from_packed_bytes(&[0; 155]).unwrap_err(),
        ParseError::InvalidLength(155, 128)
    );
    assert_eq!(
        KeyboardLevelScaling::from_packed_bytes(&[0; 5]).unwrap_err(),
        ParseError::InvalidLength(5, 4)
    );
}

#[test]
fn the_first_bad_byte_is_reported() {
    assert_eq!(
        Envelope::parse(&[99, 100, 0, 0, 200, 0, 0, 0]).unwrap_err(),
        ParseError::InvalidData(1)
    );
    assert_eq!(
        Envelope::parse(&[99, 99, 0, 0, 0, 0, 0, 100]).unwrap_err(),
        ParseError::InvalidData(7)
    );
    let good = make_brass1().to_bytes();
    for (offset, byte) in [
        (0usize, 100u8),
        (8, 100),
        (11, 4),
        (13, 8),
        (14, 4),
        (17, 2),
        (18, 32),
        (20, 15),
        (21 + 16, 100),
        (105 + 20, 15),
        (126, 100),
        (134, 32),
        (135, 8),
        (136, 2),
        (137, 100),
        (141, 2),
        (143, 8),
        (144, 49),
        (145, 128),
        (154, 255),
    ] {
        let mut data = good.clone();
        data[offset] = byte;
        assert_eq!(Voice::parse(&data).unwrap_err(), ParseError::InvalidData(offset as u32));
        // A later bad byte does not change what is reported.
        data[154] = 200;
        assert_eq!(Voice::parse(&data).unwrap_err(), ParseError::InvalidData(offset as u32));
    }
}

#[test]
fn operator_data_with_a_curve_out_of_range_is_refused() {
    let data = vec![
        0x03u8, 0x47, 0x00, 0x03, 0x00, 0x07, 0x63, 0x23, // rate and level
        0x63, 0x57, 0x63, 0x63, 0x63, // kbd level scaling
        0x00, 0x00, 0x00, 0x11, // output level
        0x00, // osc mode
        0x00, 0x00, 0x00, // coarse, fine, detune
    ];
    assert_eq!(data.len(), 21);
    assert_eq!(Operator::parse(&data).unwrap_err(), ParseError::InvalidData(11));
}

#[test]
fn packed_data_reports_the_offset_of_the_packed_byte() {
    let good = make_brass1().to_packed_bytes();
    // Detune 15 in bits 3 to 6 of the second operator's byte 12.
    let mut data = good.clone();
    data[17 + 12] = 15 << 3;
    assert_eq!(
        Voice::from_packed_bytes(&data).unwrap_err(),
        ParseError::InvalidData(17 + 12)
    );
    let mut data = good.clone();
    data[117] = 49;
    assert_eq!(Voice::from_packed_bytes(&data).unwrap_err(), ParseError::InvalidData(117));

    let mut bank = Cartridge::default().to_bytes();
    bank[5 * 128 + 110] = 32;
    assert_eq!(Cartridge::parse(&bank).unwrap_err(), ParseError::InvalidData(5 * 128 + 110));
    bank[2 * 128 + 14] = 100;
    assert_eq!(Cartridge::parse(&bank).unwrap_err(), ParseError::InvalidData(2 * 128 + 14));
}

#[test]
fn header_reads_and_writes_four_bytes() {
    let header = Header::parse(&[0x13, 9, 0x20, 0x00]).unwrap();
    assert_eq!(header.sub_status, 1);
    assert_eq!(header.channel.as_byte(), 3);
    assert_eq!(header.format, Format::Cartridge);
    assert_eq!(header.byte_count, 4096);
    assert_eq!(header.to_bytes(), vec![0x13, 9, 0x20, 0x00]);

    let header = Header::parse(&[0x0f, 0, 0x01, 0x1b]).unwrap();
    assert_eq!(header.format, Format::Voice);
    assert_eq!(header.byte_count, 155);
    assert_eq!(header.to_bytes(), vec![0x0f, 0, 0x01, 0x1b]);
    assert_eq!(header.to_string(), "Format = voice, length = 155 bytes");

    assert_eq!(Header::parse(&[0, 1, 0, 0]).unwrap_err(), ParseError::InvalidData(1));
    assert_eq!(Format::from_byte(9), Some(Format::Cartridge));
    assert_eq!(Format::from_byte(8), None);
    assert_eq!(Format::Voice.as_byte(), 0);
}

#[test]
fn names_keep_the_length_of_their_text() {
    let name = VoiceName::new("Brass 1").unwrap();
    assert_eq!(name.value(), "BRASS 1");
    assert_eq!(name.len(), 7);
    assert_eq!(name.to_bytes(), b"BRASS 1   ".to_vec());
    let name = VoiceName::new("brass").unwrap();
    assert_eq!(name.value(), "BRASS");
    assert_eq!(name.to_bytes(), b"BRASS     ".to_vec());
    let empty = VoiceName::new("").unwrap();
    assert_eq!(empty.value(), "");
    assert_eq!(empty.len(), 0);
    assert_eq!(empty.to_bytes(), b"          ".to_vec());
    // Spaces that are given belong to the name.
    let spaced = VoiceName::new("AB ").unwrap();
    assert_eq!(spaced.value(), "AB ");
    assert_ne!(spaced, VoiceName::new("AB").unwrap());
    assert_eq!(spaced.to_bytes(), VoiceName::new("AB").unwrap().to_bytes());
    let full = VoiceName::from_string(String::from("E.PIANO 1 ")).unwrap();
    assert_eq!(full.value(), "E.PIANO 1 ");
    assert_eq!(full.len(), 10);
    assert_eq!(VoiceName::new("ELEVEN CHAR").unwrap_err(), ParseError::InvalidLength(11, 10));
    assert_eq!(VoiceName::new("caf\u{e9}").unwrap_err(), ParseError::InvalidData(3));
}

#[test]
fn names_read_from_data_have_ten_characters() {
    // What is read from data is kept as it stands, and shown in upper case.
    let read = VoiceName::parse(b"Get Funky ").unwrap();
    assert_eq!(read.to_bytes(), b"Get Funky ".to_vec());
    assert_eq!(read.value(), "GET FUNKY ");
    assert_eq!(read.len(), 10);
    // The spaces that filled a shorter name up are read as its own.
    let short = VoiceName::new("BRASS").unwrap();
    let back = VoiceName::parse(&short.to_bytes()).unwrap();
    assert_eq!(back.value(), "BRASS     ");
    assert_eq!(back.to_bytes(), short.to_bytes());
    assert_eq!(
        VoiceName::parse(&[65, 66, 67, 200, 0, 0, 0, 0, 0, 0]).unwrap_err(),
        ParseError::InvalidData(3)
    );
}

#[test]
fn errors_read_in_words() {
    assert_eq!(
        ParseError::InvalidLength(100, 155).to_string(),
        "Got 100 bytes of data, expected 155 bytes."
    );
    assert_eq!(
        ParseError::InvalidChecksum(51, 0).to_string(),
        "Computed checksum was 51H, expected 0H."
    );
    assert_eq!(ParseError::InvalidData(4095).to_string(), "Invalid data at offset 4095.");
    assert_eq!(
        ParseError::Unidentified.to_string(),
        "Unable to identify this System Exclusive file."
    );
    assert_eq!(
        RangeError { value: -8, first: -7, last: 7 }.to_string(),
        "expected value in range [-7...7], got -8"
    );
    assert_eq!(ParseError::InvalidData(7).at(21), ParseError::InvalidData(28));
    assert_eq!(ParseError::InvalidLength(1, 2).at(21), ParseError::InvalidLength(1, 2));
}
