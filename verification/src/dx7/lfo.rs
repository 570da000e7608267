//! The low-frequency oscillator of a voice.

use crate::ParseError;
use crate::Ranged;
use crate::bits::extract_bits;
use crate::bits::field;
use crate::bits::fits;
use crate::bits::join_bits;
use crate::bits::joined;
use crate::bits::lemma_joined_fitting;
use crate::bits::test_bit;
use crate::dx7::Level;
use crate::dx7::sysex::SystemExclusiveData;
use crate::report_len;
use crate::text::push_text;
use vstd::prelude::*;

verus! {

/// LFO waveform.
#[derive(Debug, Copy, Clone, Eq, PartialEq, Structural)]
pub enum LfoWaveform {
    Triangle,
    SawDown,
    SawUp,
    Square,
    Sine,
    SampleAndHold,
}

impl LfoWaveform {
    /// The data byte that stands for the waveform: its place in the list,
    /// from 0.
    pub open spec fn byte(&self) -> u8 {
        match self {
            LfoWaveform::Triangle => 0,
            LfoWaveform::SawDown => 1,
            LfoWaveform::SawUp => 2,
            LfoWaveform::Square => 3,
            LfoWaveform::Sine => 4,
            LfoWaveform::SampleAndHold => 5,
        }
    }

    /// Whether a data byte is the byte of a waveform.
    pub open spec fn known(byte: u8) -> bool {
        byte <= 5
    }

    /// The waveform that a data byte is read as. A byte that is the byte of
    /// none is read as the triangle: an instrument may know waveforms that
    /// this list does not, and its voices are still to be read.
    pub open spec fn of_byte(byte: u8) -> Self {
        if byte == 1 {
            LfoWaveform::SawDown
        } else if byte == 2 {
            LfoWaveform::SawUp
        } else if byte == 3 {
            LfoWaveform::Square
        } else if byte == 4 {
            LfoWaveform::Sine
        } else if byte == 5 {
            LfoWaveform::SampleAndHold
        } else {
            LfoWaveform::Triangle
        }
    }

    /// The byte of a waveform is read as that waveform.
    pub proof fn lemma_value_roundtrip(x: Self)
        ensures
            Self::known(x.byte()),
            Self::of_byte(x.byte()) == x,
    {
    }

    /// The waveform read from a known byte is sent as that byte.
    pub proof fn lemma_byte_roundtrip(byte: u8)
        requires
            Self::known(byte),
        ensures
            Self::of_byte(byte).byte() == byte,
    {
    }

    /// The name of the waveform.
    pub open spec fn text(&self) -> Seq<char> {
        match self {
            LfoWaveform::Triangle => "Triangle"@,
            LfoWaveform::SawDown => "SawDown"@,
            LfoWaveform::SawUp => "SawUp"@,
            LfoWaveform::Square => "Square"@,
            LfoWaveform::Sine => "Sine"@,
            LfoWaveform::SampleAndHold => "SampleAndHold"@,
        }
    }

    /// The name of the waveform.
    pub fn to_string(&self) -> (r: String)
        ensures
            r@ == self.text(),
    {
        let mut s = String::new();
        match self {
            LfoWaveform::Triangle => push_text(&mut s, "Triangle"),
            LfoWaveform::SawDown => push_text(&mut s, "SawDown"),
            LfoWaveform::SawUp => push_text(&mut s, "SawUp"),
            LfoWaveform::Square => push_text(&mut s, "Square"),
            LfoWaveform::Sine => push_text(&mut s, "Sine"),
            LfoWaveform::SampleAndHold => push_text(&mut s, "SampleAndHold"),
        }
        assert(s@ =~= self.text());
        s
    }

    /// Gets the data byte for this waveform.
    pub fn as_byte(&self) -> (b: u8)
        ensures
            b == self.byte(),
            Self::known(b),
    {
        match self {
            LfoWaveform::Triangle => 0,
            LfoWaveform::SawDown => 1,
            LfoWaveform::SawUp => 2,
            LfoWaveform::Square => 3,
            LfoWaveform::Sine => 4,
            LfoWaveform::SampleAndHold => 5,
        }
    }

    /// Whether a data byte is the byte of a waveform. Where it is not,
    /// `from_byte` gives the triangle in its place.
    pub fn is_known(byte: u8) -> (b: bool)
        ensures
            b == Self::known(byte),
    {
        byte <= 5
    }

    /// The waveform that a data byte is read as. This never fails.
    pub fn from_byte(byte: u8) -> (r: Self)
        ensures
            r == Self::of_byte(byte),
            !Self::known(byte) ==> r == LfoWaveform::Triangle,
    {
        match byte {
            1 => LfoWaveform::SawDown,
            2 => LfoWaveform::SawUp,
            3 => LfoWaveform::Square,
            4 => LfoWaveform::Sine,
            5 => LfoWaveform::SampleAndHold,
            _ => LfoWaveform::Triangle,
        }
    }
}

/// LFO.
#[derive(Debug, Clone, Copy, Eq, PartialEq, Structural)]
pub struct Lfo {
    pub speed: Level,
    pub delay: Level,
    pub pmd: Level,
    pub amd: Level,
    pub sync: bool,
    pub waveform: LfoWaveform,
}

/// The data byte of a switch: 1 for on, 0 for off.
pub open spec fn switch_byte(on: bool) -> u8 {
    if on {
        1
    } else {
        0
    }
}

/// A switch as text: `true` for on, `false` for off.
pub open spec fn switch_text(on: bool) -> Seq<char> {
    if on {
        "true"@
    } else {
        "false"@
    }
}

/// Appends a switch as text.
pub fn push_switch(s: &mut String, on: bool)
    ensures
        final(s)@ == old(s)@ + switch_text(on),
{
    if on {
        push_text(s, "true");
    } else {
        push_text(s, "false");
    }
}

/// Computes `switch_byte`.
pub fn switch_as_byte(on: bool) -> (b: u8)
    ensures
        b == switch_byte(on),
        b <= 1,
{
    if on {
        1
    } else {
        0
    }
}

impl Lfo {
    /// The length of the packed form, in bytes.
    pub const PACKED_SIZE: usize = 5;

    /// The value of `DATA_SIZE`, for proofs outside this module.
    pub proof fn lemma_data_size()
        ensures
            Self::DATA_SIZE == 6,
    {
    }

    /// Whether every parameter lies in its range.
    pub open spec fn wf(self) -> bool {
        &&& self.speed.wf()
        &&& self.delay.wf()
        &&& self.pmd.wf()
        &&& self.amd.wf()
    }

    /// The LFO of a fresh voice: speed 35, no delay, no modulation, key
    /// sync on, triangle.
    pub open spec fn initial() -> Self {
        Lfo {
            speed: Level::of(35),
            delay: Level::of(0),
            pmd: Level::of(0),
            amd: Level::of(0),
            sync: true,
            waveform: LfoWaveform::Triangle,
        }
    }

    /// The packed form of the six unpacked bytes: the four amounts stay,
    /// and the fifth byte holds the sync switch in bit 0 and the waveform in
    /// bits 1 to 3.
    pub open spec fn packed(data: Seq<u8>) -> Seq<u8> {
        seq![data[0], data[1], data[2], data[3], joined(data[4], 1, data[5], 3)]
    }

    /// The unpacked form of the five packed bytes.
    pub open spec fn unpacked(data: Seq<u8>) -> Seq<u8> {
        seq![data[0], data[1], data[2], data[3], field(data[4], 0, 1), field(data[4], 1, 3)]
    }

    /// The LFO as text.
    pub open spec fn text(&self) -> Seq<char> {
        "speed = "@ + self.speed.text() + ", delay = "@ + self.delay.text() + ", PMD = "@
            + self.pmd.text() + ", AMD = "@ + self.amd.text() + ", sync = "@ + switch_text(
            self.sync,
        ) + ", waveform = "@ + self.waveform.text()
    }

    /// The LFO as text.
    pub fn to_string(&self) -> (r: String)
        ensures
            r@ == self.text(),
    {
        let mut s = String::new();
        push_text(&mut s, "speed = ");
        push_text(&mut s, self.speed.to_string().as_str());
        push_text(&mut s, ", delay = ");
        push_text(&mut s, self.delay.to_string().as_str());
        push_text(&mut s, ", PMD = ");
        push_text(&mut s, self.pmd.to_string().as_str());
        push_text(&mut s, ", AMD = ");
        push_text(&mut s, self.amd.to_string().as_str());
        push_text(&mut s, ", sync = ");
        push_switch(&mut s, self.sync);
        push_text(&mut s, ", waveform = ");
        push_text(&mut s, self.waveform.to_string().as_str());
        assert(s@ =~= self.text());
        s
    }

    /// Makes a new LFO initialized with the defaults of a fresh voice.
    pub fn new() -> (r: Self)
        ensures
            r == Self::initial(),
    {
        Self {
            speed: Level(35),
            delay: Level(0),
            pmd: Level(0),
            amd: Level(0),
            sync: true,
            waveform: LfoWaveform::Triangle,
        }
    }

    /// Makes a new LFO whose four amounts are drawn at random; key sync is
    /// on and the waveform is the triangle.
    pub fn new_random() -> (r: Self)
        ensures
            r.wf(),
            r.sync,
            r.waveform == LfoWaveform::Triangle,
    {
        Self {
            speed: Level::random(),
            delay: Level::random(),
            pmd: Level::random(),
            amd: Level::random(),
            sync: true,
            waveform: LfoWaveform::Triangle,
        }
    }

    /// Unpacks LFO data from a cartridge. Returns the data in the same
    /// format as for a single voice. Bits 4 to 7 of the fifth byte are not
    /// the LFO's and are left out.
    pub fn unpack(data: &[u8]) -> (r: Vec<u8>)
        requires
            data@.len() == 5,
        ensures
            r@ == Self::unpacked(data@),
            r@.len() == 6,
    {
        let mut result: Vec<u8> = Vec::new();
        result.push(data[0]);
        result.push(data[1]);
        result.push(data[2]);
        result.push(data[3]);
        result.push(if test_bit(data[4], 0) { 1 } else { 0 });
        result.push(extract_bits(data[4], 1, 3));
        result
    }

    /// Packs LFO data for use in a cartridge. Bits 4 to 7 of the fifth byte
    /// are left clear.
    pub fn pack(data: &[u8]) -> (r: Vec<u8>)
        requires
            data@.len() == 6,
        ensures
            r@ == Self::packed(data@),
            r@.len() == 5,
    {
        let mut result: Vec<u8> = Vec::new();
        result.push(data[0]);
        result.push(data[1]);
        result.push(data[2]);
        result.push(data[3]);
        result.push(join_bits(data[4], 1, data[5], 3));
        result
    }

    /// What `to_bytes` writes, `parse` reads as the same LFO.
    pub proof fn lemma_decoded_encoded(lfo: Self)
        requires
            lfo.wf(),
        ensures
            lfo.encoded().len() == 6,
            Self::all_accepted(lfo.encoded()),
            LfoWaveform::known(lfo.encoded()[5]),
            Self::decoded(lfo.encoded()) == lfo,
    {
        Level::lemma_value_roundtrip(lfo.speed);
        Level::lemma_value_roundtrip(lfo.delay);
        Level::lemma_value_roundtrip(lfo.pmd);
        Level::lemma_value_roundtrip(lfo.amd);
        LfoWaveform::lemma_value_roundtrip(lfo.waveform);
    }

    /// What `parse` accepts, `to_bytes` writes back byte for byte, but for
    /// the byte of a waveform that is not known.
    pub proof fn lemma_encoded_decoded(data: Seq<u8>)
        requires
            data.len() == 6,
            Self::all_accepted(data),
        ensures
            Self::decoded(data).wf(),
            Self::decoded(data).encoded() == data.update(
                5,
                LfoWaveform::of_byte(data[5]).byte(),
            ),
            LfoWaveform::known(data[5]) ==> Self::decoded(data).encoded() == data,
    {
        assert(Self::accepts(0, data[0]));
        assert(Self::accepts(1, data[1]));
        assert(Self::accepts(2, data[2]));
        assert(Self::accepts(3, data[3]));
        assert(Self::accepts(4, data[4]));
        assert(Self::decoded(data).encoded() =~= data.update(
            5,
            LfoWaveform::of_byte(data[5]).byte(),
        ));
        if LfoWaveform::known(data[5]) {
            assert(data.update(5, LfoWaveform::of_byte(data[5]).byte()) =~= data);
        }
    }

    /// Unpacking what was packed gives the bytes back, where the switch
    /// fits its bit and the waveform its three.
    pub proof fn lemma_unpacked_packed(data: Seq<u8>)
        requires
            data.len() == 6,
            fits(data[4], 1),
            fits(data[5], 3),
        ensures
            Self::unpacked(Self::packed(data)) == data,
    {
        lemma_joined_fitting(data[4], 1, data[5], 3);
        assert(Self::unpacked(Self::packed(data)) =~= data);
    }

    /// Packing what was unpacked gives the bytes back, where bits 4 to 7 of
    /// the fifth byte were clear.
    pub proof fn lemma_packed_unpacked(data: Seq<u8>)
        requires
            data.len() == 5,
            field(data[4], 4, 4) == 0,
        ensures
            Self::packed(Self::unpacked(data)) == data,
    {
        Self::lemma_shared_byte(data[4]);
        assert(Self::packed(Self::unpacked(data)) =~= data);
    }

    /// A byte whose bits 4 to 7 are clear is put together again from its
    /// bit 0 and its bits 1 to 3.
    proof fn lemma_shared_byte(byte: u8)
        by (bit_vector)
        requires
            field(byte, 4, 4) == 0,
        ensures
            joined(field(byte, 0, 1), 1, field(byte, 1, 3), 3) == byte,
    {
    }
}

impl SystemExclusiveData for Lfo {
    const DATA_SIZE: usize = 6;

    /// Speed, delay and the two modulation depths go from 0 to 99, the sync
    /// switch is 0 or 1, and any byte is taken for the waveform.
    open spec fn accepts(offset: int, byte: u8) -> bool {
        if offset < 4 {
            Level::takes(byte)
        } else if offset == 4 {
            byte <= 1
        } else {
            true
        }
    }

    /// Speed, delay, pitch modulation depth, amplitude modulation depth,
    /// sync, waveform.
    open spec fn decoded(data: Seq<u8>) -> Self {
        Lfo {
            speed: Level::of_byte(data[0]),
            delay: Level::of_byte(data[1]),
            pmd: Level::of_byte(data[2]),
            amd: Level::of_byte(data[3]),
            sync: data[4] == 1,
            waveform: LfoWaveform::of_byte(data[5]),
        }
    }

    open spec fn encoded(&self) -> Seq<u8> {
        seq![
            self.speed.byte(),
            self.delay.byte(),
            self.pmd.byte(),
            self.amd.byte(),
            switch_byte(self.sync),
            self.waveform.byte(),
        ]
    }

    fn parse(data: &[u8]) -> (r: Result<Self, ParseError>) {
        if data.len() != Self::DATA_SIZE {
            return Err(
                ParseError::InvalidLength(report_len(data.len()), report_len(Self::DATA_SIZE)),
            );
        }
        let speed = match Level::from_byte(data[0]) {
            Ok(level) => level,
            Err(_) => {
                assert(Self::first_refused(data@, 0));
                return Err(ParseError::InvalidData(0));
            },
        };
        let delay = match Level::from_byte(data[1]) {
            Ok(level) => level,
            Err(_) => {
                assert(Self::first_refused(data@, 1));
                return Err(ParseError::InvalidData(1));
            },
        };
        let pmd = match Level::from_byte(data[2]) {
            Ok(level) => level,
            Err(_) => {
                assert(Self::first_refused(data@, 2));
                return Err(ParseError::InvalidData(2));
            },
        };
        let amd = match Level::from_byte(data[3]) {
            Ok(level) => level,
            Err(_) => {
                assert(Self::first_refused(data@, 3));
                return Err(ParseError::InvalidData(3));
            },
        };
        if data[4] > 1 {
            assert(Self::first_refused(data@, 4));
            return Err(ParseError::InvalidData(4));
        }
        assert(forall|i: int| 0 <= i < data@.len() ==> #[trigger] Self::accepts(i, data@[i]));
        assert(Self::all_accepted(data@));
        Ok(
            Lfo {
                speed,
                delay,
                pmd,
                amd,
                sync: data[4] == 1,
                waveform: LfoWaveform::from_byte(data[5]),
            },
        )
    }

    fn to_bytes(&self) -> (r: Vec<u8>) {
        let mut data: Vec<u8> = Vec::new();
        data.push(self.speed.as_byte());
        data.push(self.delay.as_byte());
        data.push(self.pmd.as_byte());
        data.push(self.amd.as_byte());
        data.push(switch_as_byte(self.sync));
        data.push(self.waveform.as_byte());
        data
    }
}

} // verus!
