//! Reading and writing MIDI System Exclusive data: the contract that every
//! part of a voice meets, the header of a message, and the checksum.

use crate::ParseError;
use crate::RangeError;
use crate::Ranged;
use crate::bits::extract_bits;
use crate::bits::field;
use crate::bits::join_bits;
use crate::bits::joined;
use crate::bits::lemma_joined_fitting;
use crate::random_between;
use crate::report_len;
use crate::reported_len;
use crate::text::number_chars;
use crate::text::number_string;
use crate::text::push_number;
use crate::text::push_text;
use vstd::prelude::*;

verus! {

/// A value with a System Exclusive form of `DATA_SIZE` bytes.
///
/// What `parse` and `to_bytes` do is fixed by three specification functions:
/// which byte each offset accepts, which value accepted data stands for, and
/// which bytes stand for a value.
pub trait SystemExclusiveData: Sized {
    /// The length of the value's data, in bytes.
    const DATA_SIZE: usize;

    /// Whether `byte` is acceptable at `offset` of the data.
    spec fn accepts(offset: int, byte: u8) -> bool;

    /// The value that `data` stands for, where every byte is accepted.
    spec fn decoded(data: Seq<u8>) -> Self;

    /// The data that stands for the value.
    spec fn encoded(&self) -> Seq<u8>;

    /// Whether every byte of `data` is accepted at its offset.
    open spec fn all_accepted(data: Seq<u8>) -> bool {
        forall|i: int| 0 <= i < data.len() ==> #[trigger] Self::accepts(i, data[i])
    }

    /// Whether `k` is the first offset of `data` whose byte is not accepted.
    open spec fn first_refused(data: Seq<u8>, k: int) -> bool {
        &&& 0 <= k < data.len()
        &&& !Self::accepts(k, data[k])
        &&& forall|i: int| 0 <= i < k ==> #[trigger] Self::accepts(i, data[i])
    }

    /// Reads a value from its data. Data of another length than `DATA_SIZE`
    /// is refused as a whole; otherwise the first byte that its offset does
    /// not accept is reported, and where there is none the value comes back.
    fn parse(data: &[u8]) -> (r: Result<Self, ParseError>)
        ensures
            data@.len() != Self::DATA_SIZE ==> r == Err::<Self, ParseError>(
                ParseError::InvalidLength(
                    reported_len(data@.len()),
                    reported_len(Self::DATA_SIZE as nat),
                ),
            ),
            data@.len() == Self::DATA_SIZE ==> match r {
                Ok(value) => Self::all_accepted(data@) && value == Self::decoded(data@),
                Err(e) => exists|k: int| #[trigger]
                    Self::first_refused(data@, k) && e == ParseError::InvalidData(k as u32),
            },
    ;

    /// Writes the value's data.
    fn to_bytes(&self) -> (r: Vec<u8>)
        ensures
            r@ == self.encoded(),
            r@.len() == Self::DATA_SIZE,
    ;
}

/// MIDI channel (1...16).
#[derive(Debug, Clone, Copy, Eq, PartialEq, Structural)]
pub struct MIDIChannel(pub(crate) i32);

impl MIDIChannel {
    /// Every `MIDIChannel` lies in its range.
    #[verifier::type_invariant]
    pub open(crate) spec fn wf(self) -> bool {
        1 <= self.0 <= 16
    }

    /// The values of the constants of the range, for proofs outside this
    /// module.
    pub proof fn lemma_range()
        ensures
            Self::FIRST == 1,
            Self::LAST == 16,
            Self::DEFAULT == 1,
    {
    }

    /// The channel that stands for `value`.
    pub open(crate) spec fn of(value: int) -> Self {
        MIDIChannel(value as i32)
    }

    /// `of` and `model` are inverse to each other on the range.
    pub proof fn lemma_of_model(value: int)
        requires
            1 <= value <= 16,
        ensures
            Self::of(value).model() == value,
            Self::of(value).wf(),
    {
    }

    /// A channel is determined by the integer it stands for.
    pub proof fn lemma_model_injective(a: Self, b: Self)
        requires
            a.model() == b.model(),
        ensures
            a == b,
    {
    }

    /// The data byte that stands for the channel.
    pub open spec fn byte(&self) -> u8 {
        (self.model() - 1) as u8
    }

    /// Whether a data byte stands for a channel.
    pub open spec fn takes(byte: u8) -> bool {
        byte <= 15
    }

    /// The channel that a data byte stands for.
    pub open spec fn of_byte(byte: u8) -> Self {
        Self::of(byte as int + 1)
    }

    /// The byte of a channel is read as that channel.
    pub proof fn lemma_value_roundtrip(x: Self)
        requires
            x.wf(),
        ensures
            Self::takes(x.byte()),
            Self::of_byte(x.byte()) == x,
    {
    }

    /// The channel read from a byte is sent as that byte.
    pub proof fn lemma_byte_roundtrip(byte: u8)
        requires
            Self::takes(byte),
        ensures
            Self::of_byte(byte).wf(),
            Self::of_byte(byte).byte() == byte,
    {
    }

    /// The data byte: the channel minus 1, so that 1 is sent as 0.
    pub fn as_byte(&self) -> (b: u8)
        ensures
            b == self.model() - 1,
            b == self.byte(),
            Self::takes(b),
    {
        proof {
            use_type_invariant(self);
        }
        (self.0 - 1) as u8
    }

    /// The channel as text: its number.
    pub open spec fn text(&self) -> Seq<char> {
        number_chars(self.model())
    }

    /// The channel as text.
    pub fn to_string(&self) -> (r: String)
        ensures
            r@ == self.text(),
    {
        number_string(self.value())
    }

    /// The channel that a data byte stands for, if it stands for one.
    pub fn from_byte(byte: u8) -> (r: Result<Self, RangeError>)
        ensures
            Self::takes(byte) ==> r == Ok::<Self, RangeError>(Self::of_byte(byte)),
            !Self::takes(byte) ==> r == Err::<Self, RangeError>(
                RangeError { value: (byte + 1) as i32, first: 1i32, last: 16i32 },
            ),
    {
        Self::new(byte as i32 + 1)
    }
}

impl Ranged for MIDIChannel {
    const FIRST: i32 = 1;

    const LAST: i32 = 16;

    const DEFAULT: i32 = 1;

    open(crate) spec fn model(&self) -> int {
        self.0 as int
    }

    fn new(value: i32) -> (r: Result<Self, RangeError>)
        ensures
            1 <= value <= 16 ==> r == Ok::<Self, RangeError>(Self::of(value as int)),
            !(1 <= value <= 16) ==> r == Err::<Self, RangeError>(
                RangeError { value, first: 1i32, last: 16i32 },
            ),
    {
        if Self::contains(value) {
            Ok(MIDIChannel(value))
        } else {
            Err(RangeError { value, first: Self::FIRST, last: Self::LAST })
        }
    }

    fn value(&self) -> (v: i32)
        ensures
            v == self.model(),
            1 <= v <= 16,
            self.wf(),
    {
        proof {
            use_type_invariant(self);
        }
        self.0
    }

    fn random() -> (r: Self)
        ensures
            r.wf(),
    {
        MIDIChannel(random_between(Self::FIRST, Self::LAST))
    }
}

impl Default for MIDIChannel {
    fn default() -> (r: Self)
        ensures
            r.model() == 1,
    {
        MIDIChannel(Self::DEFAULT)
    }
}

/// What a message holds: one voice, or a cartridge of 32.
#[derive(Debug, Clone, Copy, Eq, PartialEq, Structural)]
pub enum Format {
    Voice,
    Cartridge,
}

impl Format {
    /// The data byte that stands for the format: 0 for a voice, 9 for a
    /// cartridge.
    pub open spec fn byte(&self) -> u8 {
        match self {
            Format::Voice => 0,
            Format::Cartridge => 9,
        }
    }

    /// Whether a data byte stands for a format.
    pub open spec fn takes(byte: u8) -> bool {
        byte == 0 || byte == 9
    }

    /// The format that a data byte stands for.
    pub open spec fn of_byte(byte: u8) -> Self {
        if byte == 9 {
            Format::Cartridge
        } else {
            Format::Voice
        }
    }

    /// The number of data bytes in a message of the format: 155 for a
    /// voice, 4096 for a cartridge.
    pub open spec fn size(&self) -> u16 {
        match self {
            Format::Voice => 155,
            Format::Cartridge => 4096,
        }
    }

    /// The name of the format.
    pub open spec fn text(&self) -> Seq<char> {
        match self {
            Format::Voice => "voice"@,
            Format::Cartridge => "cartridge"@,
        }
    }

    /// The name of the format, `voice` or `cartridge`.
    pub fn to_string(&self) -> (r: String)
        ensures
            r@ == self.text(),
    {
        let mut s = String::new();
        match self {
            Format::Voice => push_text(&mut s, "voice"),
            Format::Cartridge => push_text(&mut s, "cartridge"),
        }
        assert(s@ =~= self.text());
        s
    }

    /// Gets the data byte for this format.
    pub fn as_byte(&self) -> (b: u8)
        ensures
            b == self.byte(),
            Self::takes(b),
    {
        match self {
            Format::Voice => 0,
            Format::Cartridge => 9,
        }
    }

    /// The format that a data byte stands for; only 0 and 9 stand for one.
    pub fn from_byte(byte: u8) -> (r: Option<Self>)
        ensures
            Self::takes(byte) ==> r == Some(Self::of_byte(byte)),
            !Self::takes(byte) ==> r is None,
    {
        match byte {
            0 => Some(Format::Voice),
            9 => Some(Format::Cartridge),
            _ => None,
        }
    }

    /// The number of data bytes in a message of the format.
    pub fn byte_count(&self) -> (n: u16)
        ensures
            n == self.size(),
    {
        match self {
            Format::Voice => 155,
            Format::Cartridge => 4096,
        }
    }
}

/// The four bytes of a message that say what follows them.
#[derive(Debug, Clone, Copy, Eq, PartialEq, Structural)]
pub struct Header {
    /// 0 for a voice or a cartridge, 1 for a parameter change. Three bits of
    /// it are sent.
    pub sub_status: u8,
    pub channel: MIDIChannel,
    pub format: Format,
    /// The number of data bytes that follow: a number of 14 bits, sent as
    /// two bytes of seven bits each, the high seven first.
    pub byte_count: u16,
}

impl Header {
    /// The value of `DATA_SIZE`, for proofs outside this module.
    pub proof fn lemma_data_size()
        ensures
            Self::DATA_SIZE == 4,
    {
    }

    /// Whether the header is one that `parse` gives: the channel lies in its
    /// range, the sub-status fits its three bits, and the byte count is that
    /// of the format.
    pub open spec fn wf(self) -> bool {
        &&& self.channel.wf()
        &&& self.sub_status < 8
        &&& self.byte_count == self.format.size()
    }

    /// The header as text: its format and its byte count.
    pub open spec fn text(&self) -> Seq<char> {
        "Format = "@ + self.format.text() + ", length = "@ + number_chars(self.byte_count as int)
            + " bytes"@
    }

    /// The header as text.
    pub fn to_string(&self) -> (r: String)
        ensures
            r@ == self.text(),
    {
        let mut s = String::new();
        push_text(&mut s, "Format = ");
        push_text(&mut s, self.format.to_string().as_str());
        push_text(&mut s, ", length = ");
        push_number(&mut s, self.byte_count as i32);
        push_text(&mut s, " bytes");
        assert(s@ =~= self.text());
        s
    }

    /// What `to_bytes` writes, `parse` reads as the same header.
    pub proof fn lemma_decoded_encoded(header: Self)
        requires
            header.wf(),
        ensures
            header.encoded().len() == 4,
            Self::all_accepted(header.encoded()),
            Self::decoded(header.encoded()) == header,
    {
        MIDIChannel::lemma_value_roundtrip(header.channel);
        lemma_joined_fitting(header.channel.byte(), 4, header.sub_status, 3);
        assert(Self::accepts(0, header.encoded()[0]));
        assert(Self::accepts(1, header.encoded()[1]));
        assert(Self::accepts(2, header.encoded()[2]));
        assert(Self::accepts(3, header.encoded()[3]));
    }
}

impl SystemExclusiveData for Header {
    const DATA_SIZE: usize = 4;

    /// The second byte must stand for a format. The first holds the channel
    /// in bits 0 to 3 and the sub-status in bits 4 to 6, and any byte does;
    /// the last two hold the byte count, which is not read: the format
    /// gives it.
    open spec fn accepts(offset: int, byte: u8) -> bool {
        offset != 1 || Format::takes(byte)
    }

    open spec fn decoded(data: Seq<u8>) -> Self {
        Header {
            sub_status: field(data[0], 4, 3),
            channel: MIDIChannel::of_byte(field(data[0], 0, 4)),
            format: Format::of_byte(data[1]),
            byte_count: Format::of_byte(data[1]).size(),
        }
    }

    /// The byte count written is that of the format.
    open spec fn encoded(&self) -> Seq<u8> {
        seq![
            joined(self.channel.byte(), 4, self.sub_status, 3),
            self.format.byte(),
            (self.format.size() / 128) as u8,
            (self.format.size() % 128) as u8,
        ]
    }

    fn parse(data: &[u8]) -> (r: Result<Self, ParseError>) {
        if data.len() != Self::DATA_SIZE {
            return Err(
                ParseError::InvalidLength(report_len(data.len()), report_len(Self::DATA_SIZE)),
            );
        }
        let channel = MIDIChannel(extract_bits(data[0], 0, 4) as i32 + 1);
        let format = match Format::from_byte(data[1]) {
            Some(format) => format,
            None => {
                assert(Self::accepts(0, data@[0]));
                assert(Self::first_refused(data@, 1));
                return Err(ParseError::InvalidData(1));
            },
        };
        assert(forall|i: int| 0 <= i < data@.len() ==> #[trigger] Self::accepts(i, data@[i]));
        assert(Self::all_accepted(data@));
        Ok(
            Self {
                sub_status: extract_bits(data[0], 4, 3),
                channel,
                format,
                byte_count: format.byte_count(),
            },
        )
    }

    fn to_bytes(&self) -> (r: Vec<u8>) {
        let mut result: Vec<u8> = Vec::new();
        result.push(join_bits(self.channel.as_byte(), 4, self.sub_status, 3));
        result.push(self.format.as_byte());
        let count = self.format.byte_count();
        result.push((count / 128) as u8);
        result.push((count % 128) as u8);
        result
    }
}

/// The sum of the bytes.
pub open spec fn byte_sum(data: Seq<u8>) -> nat
    decreases data.len(),
{
    if data.len() == 0 {
        0
    } else {
        byte_sum(data.drop_last()) + data.last() as nat
    }
}

/// The checksum of the data: the number of seven bits that, added to the sum
/// of the bytes, gives a multiple of 128.
pub open spec fn checksum_of(data: Seq<u8>) -> u8 {
    ((128 - byte_sum(data) % 128) % 128) as u8
}

/// The complement of a byte is what it lacks to 255.
proof fn lemma_complement(byte: u8)
    by (bit_vector)
    ensures
        !byte == 255 - byte,
{
}

/// The low seven bits of a byte are its remainder by 128.
proof fn lemma_low_seven(byte: u8)
    by (bit_vector)
    ensures
        byte & 0x7f == byte % 128,
{
}

/// Computes the checksum of the data: the bytes are added up, the sum is
/// negated as a byte in two's complement, and the low seven bits of that are
/// kept.
pub fn checksum(data: &[u8]) -> (r: u8)
    ensures
        r == checksum_of(data@),
        r < 128,
        (byte_sum(data@) + r) % 128 == 0,
{
    let mut sum: u8 = 0;
    let mut i: usize = 0;
    while i < data.len()
        invariant
            i <= data@.len(),
            sum == byte_sum(data@.subrange(0, i as int)) % 256,
        decreases data@.len() - i,
    {
        proof {
            let before = data@.subrange(0, i as int);
            let now = data@.subrange(0, i + 1);
            assert(now.drop_last() =~= before);
            assert(now.last() == data@[i as int]);
        }
        sum = sum.wrapping_add(data[i]);
        i += 1;
    }
    proof {
        assert(data@.subrange(0, i as int) =~= data@);
        lemma_complement(sum);
        lemma_low_seven((!sum).wrapping_add(1));
    }
    (!sum).wrapping_add(1) & 0x7f
}

} // verus!
