//! The operator, one of the six sound sources of a voice, and the keyboard
//! level scaling that belongs to it.

use crate::ParseError;
use crate::RangeError;
use crate::Ranged;
use crate::bits::extract_bits;
use crate::bits::field;
use crate::bits::fits;
use crate::bits::join_bits;
use crate::bits::joined;
use crate::bits::lemma_field_fits;
use crate::bits::lemma_joined_above;
use crate::bits::lemma_joined_fitting;
use crate::bits::test_bit;
use crate::dx7::Coarse;
use crate::dx7::Depth;
use crate::dx7::Detune;
use crate::dx7::Level;
use crate::dx7::Sensitivity;
use crate::dx7::envelope::Envelope;
use crate::dx7::sysex::SystemExclusiveData;
use crate::random_between;
use crate::report_len;
use crate::reported_len;
use crate::text::number_chars;
use crate::text::number_string;
use crate::text::push_number;
use crate::text::push_text;
use vstd::prelude::*;

verus! {

/// Scaling curve style.
#[derive(Debug, Copy, Clone, Eq, PartialEq, Structural)]
pub enum CurveStyle {
    Linear,
    Exponential,
}

impl CurveStyle {
    /// The style in three letters.
    pub open spec fn text(&self) -> Seq<char> {
        match self {
            CurveStyle::Linear => "LIN"@,
            CurveStyle::Exponential => "EXP"@,
        }
    }

    /// The style in three letters, `LIN` or `EXP`.
    pub fn to_string(&self) -> (r: String)
        ensures
            r@ == self.text(),
    {
        let mut s = String::new();
        match self {
            CurveStyle::Linear => push_text(&mut s, "LIN"),
            CurveStyle::Exponential => push_text(&mut s, "EXP"),
        }
        assert(s@ =~= self.text());
        s
    }
}

/// Scaling curve sign.
#[derive(Debug, Copy, Clone, Eq, PartialEq, Structural)]
pub enum CurveSign {
    Negative,
    Positive,
}

impl CurveSign {
    /// The sign as a character.
    pub open spec fn text(&self) -> Seq<char> {
        match self {
            CurveSign::Negative => "-"@,
            CurveSign::Positive => "+"@,
        }
    }

    /// The sign as a character, `+` or `-`.
    pub fn to_string(&self) -> (r: String)
        ensures
            r@ == self.text(),
    {
        let mut s = String::new();
        match self {
            CurveSign::Negative => push_text(&mut s, "-"),
            CurveSign::Positive => push_text(&mut s, "+"),
        }
        assert(s@ =~= self.text());
        s
    }
}

/// Scaling curve settings.
#[derive(Debug, Clone, Copy, Eq, PartialEq, Structural)]
pub struct ScalingCurve {
    pub style: CurveStyle,
    pub sign: CurveSign,
}

impl ScalingCurve {
    /// The data byte that stands for the curve. The four curves are numbered
    /// as the instrument numbers them, which follows no formula.
    pub open spec fn byte(&self) -> u8 {
        match (self.style, self.sign) {
            (CurveStyle::Linear, CurveSign::Negative) => 0,
            (CurveStyle::Exponential, CurveSign::Negative) => 1,
            (CurveStyle::Exponential, CurveSign::Positive) => 2,
            (CurveStyle::Linear, CurveSign::Positive) => 3,
        }
    }

    /// Whether a data byte stands for a curve.
    pub open spec fn takes(byte: u8) -> bool {
        byte <= 3
    }

    /// The curve that a data byte stands for.
    pub open spec fn of_byte(byte: u8) -> Self {
        if byte == 0 {
            ScalingCurve { style: CurveStyle::Linear, sign: CurveSign::Negative }
        } else if byte == 1 {
            ScalingCurve { style: CurveStyle::Exponential, sign: CurveSign::Negative }
        } else if byte == 2 {
            ScalingCurve { style: CurveStyle::Exponential, sign: CurveSign::Positive }
        } else {
            ScalingCurve { style: CurveStyle::Linear, sign: CurveSign::Positive }
        }
    }

    /// The byte of a curve is read as that curve.
    pub proof fn lemma_value_roundtrip(x: Self)
        ensures
            Self::takes(x.byte()),
            Self::of_byte(x.byte()) == x,
    {
    }

    /// The curve read from a byte is sent as that byte.
    pub proof fn lemma_byte_roundtrip(byte: u8)
        requires
            Self::takes(byte),
        ensures
            Self::of_byte(byte).byte() == byte,
    {
    }

    /// The curve as text: its sign, then its style, as in `-EXP`.
    pub open spec fn text(&self) -> Seq<char> {
        self.sign.text() + self.style.text()
    }

    /// The curve as text.
    pub fn to_string(&self) -> (r: String)
        ensures
            r@ == self.text(),
    {
        let mut s = self.sign.to_string();
        let style = self.style.to_string();
        push_text(&mut s, style.as_str());
        s
    }

    /// Makes a linear positive scaling curve.
    pub fn lin_pos() -> (r: Self)
        ensures
            r == (ScalingCurve { style: CurveStyle::Linear, sign: CurveSign::Positive }),
    {
        ScalingCurve { style: CurveStyle::Linear, sign: CurveSign::Positive }
    }

    /// Makes a linear negative scaling curve.
    pub fn lin_neg() -> (r: Self)
        ensures
            r == (ScalingCurve { style: CurveStyle::Linear, sign: CurveSign::Negative }),
    {
        ScalingCurve { style: CurveStyle::Linear, sign: CurveSign::Negative }
    }

    /// Makes an exponential positive scaling curve.
    pub fn exp_pos() -> (r: Self)
        ensures
            r == (ScalingCurve { style: CurveStyle::Exponential, sign: CurveSign::Positive }),
    {
        ScalingCurve { style: CurveStyle::Exponential, sign: CurveSign::Positive }
    }

    /// Makes an exponential negative scaling curve.
    pub fn exp_neg() -> (r: Self)
        ensures
            r == (ScalingCurve { style: CurveStyle::Exponential, sign: CurveSign::Negative }),
    {
        ScalingCurve { style: CurveStyle::Exponential, sign: CurveSign::Negative }
    }

    /// Gets the data byte for this scaling curve.
    pub fn as_byte(&self) -> (b: u8)
        ensures
            b == self.byte(),
            Self::takes(b),
    {
        match (self.style, self.sign) {
            (CurveStyle::Linear, CurveSign::Negative) => 0,
            (CurveStyle::Exponential, CurveSign::Negative) => 1,
            (CurveStyle::Exponential, CurveSign::Positive) => 2,
            (CurveStyle::Linear, CurveSign::Positive) => 3,
        }
    }

    /// The curve that a data byte stands for; only 0, 1, 2 and 3 stand for
    /// one.
    pub fn from_byte(byte: u8) -> (r: Result<Self, RangeError>)
        ensures
            Self::takes(byte) ==> r == Ok::<Self, RangeError>(Self::of_byte(byte)),
            !Self::takes(byte) ==> r == Err::<Self, RangeError>(
                RangeError { value: byte as i32, first: 0, last: 3 },
            ),
    {
        match byte {
            0 => Ok(ScalingCurve::lin_neg()),
            1 => Ok(ScalingCurve::exp_neg()),
            2 => Ok(ScalingCurve::exp_pos()),
            3 => Ok(ScalingCurve::lin_pos()),
            _ => Err(RangeError { value: byte as i32, first: 0, last: 3 }),
        }
    }
}

/// Key (0...99): a position on the keyboard, counted in semitones from the
/// lowest.
#[derive(Debug, Clone, Copy, Eq, PartialEq, Structural)]
pub struct Key(pub(crate) i32);

impl Key {
    /// Every `Key` lies in its range.
    #[verifier::type_invariant]
    pub open(crate) spec fn wf(self) -> bool {
        0 <= self.0 <= 99
    }

    /// The values of the constants of the range, for proofs outside this
    /// module.
    pub proof fn lemma_range()
        ensures
            Self::FIRST == 0,
            Self::LAST == 99,
            Self::DEFAULT == 39,
    {
    }

    /// The key that stands for `value`.
    pub open(crate) spec fn of(value: int) -> Self {
        Key(value as i32)
    }

    /// `of` and `model` are inverse to each other on the range.
    pub proof fn lemma_of_model(value: int)
        requires
            0 <= value <= 99,
        ensures
            Self::of(value).model() == value,
            Self::of(value).wf(),
    {
    }

    /// A key is determined by the integer it stands for.
    pub proof fn lemma_model_injective(a: Self, b: Self)
        requires
            a.model() == b.model(),
        ensures
            a == b,
    {
    }

    /// The data byte that stands for the key.
    pub open spec fn byte(&self) -> u8 {
        self.model() as u8
    }

    /// Whether a data byte stands for a key.
    pub open spec fn takes(byte: u8) -> bool {
        byte <= 99
    }

    /// The key that a data byte stands for.
    pub open spec fn of_byte(byte: u8) -> Self {
        Self::of(byte as int)
    }

    /// The byte of a key is read as that key.
    pub proof fn lemma_value_roundtrip(x: Self)
        requires
            x.wf(),
        ensures
            Self::takes(x.byte()),
            Self::of_byte(x.byte()) == x,
    {
    }

    /// The key read from a byte is sent as that byte.
    pub proof fn lemma_byte_roundtrip(byte: u8)
        requires
            Self::takes(byte),
        ensures
            Self::of_byte(byte).wf(),
            Self::of_byte(byte).byte() == byte,
    {
    }

    /// The data byte: the key itself.
    pub fn as_byte(&self) -> (b: u8)
        ensures
            b == self.model(),
            b == self.byte(),
            Self::takes(b),
    {
        proof {
            use_type_invariant(self);
        }
        self.0 as u8
    }

    /// The key as text: its number.
    pub open spec fn text(&self) -> Seq<char> {
        number_chars(self.model())
    }

    /// The key as text.
    pub fn to_string(&self) -> (r: String)
        ensures
            r@ == self.text(),
    {
        number_string(self.value())
    }

    /// The key that a data byte stands for, if it stands for one.
    pub fn from_byte(byte: u8) -> (r: Result<Self, RangeError>)
        ensures
            Self::takes(byte) ==> r == Ok::<Self, RangeError>(Self::of_byte(byte)),
            !Self::takes(byte) ==> r == Err::<Self, RangeError>(
                RangeError { value: byte as i32, first: 0i32, last: 99i32 },
            ),
    {
        Self::new(byte as i32)
    }
}

impl Ranged for Key {
    const FIRST: i32 = 0;

    const LAST: i32 = 99;

    const DEFAULT: i32 = 39;

    open(crate) spec fn model(&self) -> int {
        self.0 as int
    }

    fn new(value: i32) -> (r: Result<Self, RangeError>)
        ensures
            0 <= value <= 99 ==> r == Ok::<Self, RangeError>(Self::of(value as int)),
            !(0 <= value <= 99) ==> r == Err::<Self, RangeError>(
                RangeError { value, first: 0i32, last: 99i32 },
            ),
    {
        if Self::contains(value) {
            Ok(Key(value))
        } else {
            Err(RangeError { value, first: Self::FIRST, last: Self::LAST })
        }
    }

    fn value(&self) -> (v: i32)
        ensures
            v == self.model(),
            0 <= v <= 99,
            self.wf(),
    {
        proof {
            use_type_invariant(self);
        }
        self.0
    }

    fn random() -> (r: Self)
        ensures
            r.wf(),
    {
        Key(random_between(Self::FIRST, Self::LAST))
    }
}

impl Default for Key {
    fn default() -> (r: Self)
        ensures
            r.model() == 39,
    {
        Key(Self::DEFAULT)
    }
}

impl Key {
    /// The name of one of the twelve notes of an octave, counted from C.
    pub open spec fn note_name(note: int) -> Seq<char> {
        if note == 0 {
            "C"@
        } else if note == 1 {
            "C#"@
        } else if note == 2 {
            "D"@
        } else if note == 3 {
            "Eb"@
        } else if note == 4 {
            "E"@
        } else if note == 5 {
            "F"@
        } else if note == 6 {
            "F#"@
        } else if note == 7 {
            "G"@
        } else if note == 8 {
            "G#"@
        } else if note == 9 {
            "A"@
        } else if note == 10 {
            "Bb"@
        } else {
            "B"@
        }
    }

    /// The name of the key: its note, then the number of its octave, the
    /// lowest octave being 1.
    pub open spec fn name_text(&self) -> Seq<char> {
        Self::note_name(self.model() % 12) + number_chars(self.model() / 12 + 1)
    }

    /// The name of the key, such as `Eb4` for key 39.
    pub fn name(&self) -> (r: String)
        ensures
            r@ == self.name_text(),
    {
        let value = self.value();
        let note = match value % 12 {
            0 => "C",
            1 => "C#",
            2 => "D",
            3 => "Eb",
            4 => "E",
            5 => "F",
            6 => "F#",
            7 => "G",
            8 => "G#",
            9 => "A",
            10 => "Bb",
            _ => "B",
        };
        let mut s = String::new();
        push_text(&mut s, note);
        push_number(&mut s, value / 12 + 1);
        assert(s@ =~= self.name_text());
        s
    }
}

/// How the level changes on one side of the breakpoint.
#[derive(Debug, Clone, Copy, Eq, PartialEq, Structural)]
pub struct Scaling {
    pub depth: Level,
    pub curve: ScalingCurve,
}

/// Keyboard level scaling: the output level of an operator falls or rises
/// with the distance of the key from a breakpoint.
#[derive(Debug, Clone, Copy, Eq, PartialEq, Structural)]
pub struct KeyboardLevelScaling {
    pub breakpoint: Key,
    pub left: Scaling,
    pub right: Scaling,
}

impl KeyboardLevelScaling {
    /// The length of the packed form, in bytes.
    pub const PACKED_SIZE: usize = 4;

    /// The value of `DATA_SIZE`, for proofs outside this module.
    pub proof fn lemma_data_size()
        ensures
            Self::DATA_SIZE == 5,
    {
    }

    /// Whether the breakpoint and both depths lie in their ranges.
    pub open spec fn wf(self) -> bool {
        &&& self.breakpoint.wf()
        &&& self.left.depth.wf()
        &&& self.right.depth.wf()
    }

    /// The packed form of five unpacked bytes: breakpoint and depths stay,
    /// and the two curves share the fourth byte, the left one in bits 0 and
    /// 1, the right one in bits 2 and 3.
    pub open spec fn packed(data: Seq<u8>) -> Seq<u8> {
        seq![data[0], data[1], data[2], joined(data[3], 2, data[4], 2)]
    }

    /// The unpacked form of four packed bytes.
    pub open spec fn unpacked(data: Seq<u8>) -> Seq<u8> {
        seq![data[0], data[1], data[2], field(data[3], 0, 2), field(data[3], 2, 2)]
    }

    /// The settings as text. The breakpoint is shown by the name of its
    /// key.
    pub open spec fn text(&self) -> Seq<char> {
        "breakpoint = "@ + self.breakpoint.name_text() + ", left depth = "@
            + self.left.depth.text() + ", right depth = "@ + self.right.depth.text()
            + ", left curve = "@ + self.left.curve.text() + ", right curve = "@
            + self.right.curve.text()
    }

    /// The settings as text.
    pub fn to_string(&self) -> (r: String)
        ensures
            r@ == self.text(),
    {
        let mut s = String::new();
        push_text(&mut s, "breakpoint = ");
        push_text(&mut s, self.breakpoint.name().as_str());
        push_text(&mut s, ", left depth = ");
        push_text(&mut s, self.left.depth.to_string().as_str());
        push_text(&mut s, ", right depth = ");
        push_text(&mut s, self.right.depth.to_string().as_str());
        push_text(&mut s, ", left curve = ");
        push_text(&mut s, self.left.curve.to_string().as_str());
        push_text(&mut s, ", right curve = ");
        push_text(&mut s, self.right.curve.to_string().as_str());
        assert(s@ =~= self.text());
        s
    }

    /// Creates new keyboard level scaling settings with the defaults of a
    /// fresh voice: breakpoint at key 39, which `Key::name` calls `Eb4`,
    /// depths 0, both curves linear and negative.
    pub fn new() -> (r: Self)
        ensures
            r.breakpoint == Key::of(39),
            r.left == (Scaling { depth: Level::of(0), curve: ScalingCurve::of_byte(0) }),
            r.right == (Scaling { depth: Level::of(0), curve: ScalingCurve::of_byte(0) }),
    {
        Self {
            breakpoint: Key::default(),
            left: Scaling { depth: Level(0), curve: ScalingCurve::lin_neg() },
            right: Scaling { depth: Level(0), curve: ScalingCurve::lin_neg() },
        }
    }

    /// Packs the five bytes of the unpacked form into four.
    pub fn pack(data: &[u8]) -> (r: Vec<u8>)
        requires
            data@.len() == 5,
        ensures
            r@ == Self::packed(data@),
            r@.len() == 4,
    {
        let mut result: Vec<u8> = Vec::new();
        result.push(data[0]);
        result.push(data[1]);
        result.push(data[2]);
        result.push(join_bits(data[3], 2, data[4], 2));
        result
    }

    /// Unpacks the four bytes of the packed form into five.
    pub fn unpack(data: &[u8]) -> (r: Vec<u8>)
        requires
            data@.len() == 4,
        ensures
            r@ == Self::unpacked(data@),
            r@.len() == 5,
    {
        let mut result: Vec<u8> = Vec::new();
        result.push(data[0]);
        result.push(data[1]);
        result.push(data[2]);
        result.push(extract_bits(data[3], 0, 2));
        result.push(extract_bits(data[3], 2, 2));
        result
    }

    /// Whether `byte` is acceptable at `offset` of the packed form: every
    /// parameter that the byte holds must be one that `parse` accepts.
    pub open spec fn packed_accepts(offset: int, byte: u8) -> bool {
        if offset < 3 {
            Self::accepts(offset, byte)
        } else {
            Self::accepts(3, field(byte, 0, 2)) && Self::accepts(4, field(byte, 2, 2))
        }
    }

    /// Whether every byte of packed data is accepted at its offset.
    pub open spec fn all_packed_accepted(data: Seq<u8>) -> bool {
        forall|i: int| 0 <= i < data.len() ==> #[trigger] Self::packed_accepts(i, data[i])
    }

    /// Whether `k` is the first offset of packed data whose byte is not
    /// accepted.
    pub open spec fn first_packed_refused(data: Seq<u8>, k: int) -> bool {
        &&& 0 <= k < data.len()
        &&& !Self::packed_accepts(k, data[k])
        &&& forall|i: int| 0 <= i < k ==> #[trigger] Self::packed_accepts(i, data[i])
    }

    /// Packed data is accepted just where its unpacked form is.
    pub proof fn lemma_packed_accepted(data: Seq<u8>)
        requires
            data.len() == 4,
        ensures
            Self::all_packed_accepted(data) == Self::all_accepted(Self::unpacked(data)),
    {
        let unpacked = Self::unpacked(data);
        lemma_field_fits(data[3], 0, 2);
        lemma_field_fits(data[3], 2, 2);
        if Self::all_packed_accepted(data) {
            assert(Self::packed_accepts(0, data[0]));
            assert(Self::packed_accepts(1, data[1]));
            assert(Self::packed_accepts(2, data[2]));
            assert(Self::packed_accepts(3, data[3]));
        }
        if Self::all_accepted(unpacked) {
            assert(Self::accepts(0, unpacked[0]));
            assert(Self::accepts(1, unpacked[1]));
            assert(Self::accepts(2, unpacked[2]));
            assert(Self::accepts(3, unpacked[3]));
            assert(Self::accepts(4, unpacked[4]));
        }
    }

    /// Computes `packed_accepts`.
    pub fn accepts_packed_byte(offset: usize, byte: u8) -> (ok: bool)
        ensures
            ok == Self::packed_accepts(offset as int, byte),
    {
        proof {
            lemma_field_fits(byte, 0, 2);
            lemma_field_fits(byte, 2, 2);
        }
        offset >= 3 || byte <= 99
    }

    /// Makes keyboard level scaling settings from their packed form. A byte
    /// is refused where a parameter that it holds is out of its range.
    pub fn from_packed_bytes(data: &[u8]) -> (r: Result<Self, ParseError>)
        ensures
            data@.len() != 4 ==> r == Err::<Self, ParseError>(
                ParseError::InvalidLength(reported_len(data@.len()), 4),
            ),
            data@.len() == 4 ==> match r {
                Ok(value) => Self::all_packed_accepted(data@) && value == Self::decoded(
                    Self::unpacked(data@),
                ),
                Err(e) => exists|k: int| #[trigger]
                    Self::first_packed_refused(data@, k) && e == ParseError::InvalidData(k as u32),
            },
    {
        if data.len() != Self::PACKED_SIZE {
            return Err(ParseError::InvalidLength(report_len(data.len()), 4));
        }
        let mut i: usize = 0;
        while i < 4
            invariant
                i <= 4,
                data@.len() == 4,
                forall|j: int| 0 <= j < i ==> #[trigger] Self::packed_accepts(j, data@[j]),
            decreases 4 - i,
        {
            if !Self::accepts_packed_byte(i, data[i]) {
                assert(Self::first_packed_refused(data@, i as int));
                return Err(ParseError::InvalidData(i as u32));
            }
            i += 1;
        }
        proof {
            Self::lemma_packed_accepted(data@);
        }
        let unpacked = Self::unpack(data);
        let r = Self::parse(unpacked.as_slice());
        proof {
            if let Err(e) = r {
                let k = choose|k: int| #[trigger]
                    Self::first_refused(unpacked@, k) && e == ParseError::InvalidData(k as u32);
                assert(Self::accepts(k, unpacked@[k]));
            }
        }
        r
    }

    /// Gets the packed form of this set of parameters.
    pub fn to_packed_bytes(&self) -> (r: Vec<u8>)
        ensures
            r@ == Self::packed(self.encoded()),
            r@.len() == 4,
    {
        let data = self.to_bytes();
        Self::pack(data.as_slice())
    }

    /// What `to_bytes` writes, `parse` reads as the same settings.
    pub proof fn lemma_decoded_encoded(scaling: Self)
        requires
            scaling.wf(),
        ensures
            scaling.encoded().len() == 5,
            Self::all_accepted(scaling.encoded()),
            Self::decoded(scaling.encoded()) == scaling,
    {
        Key::lemma_value_roundtrip(scaling.breakpoint);
        Level::lemma_value_roundtrip(scaling.left.depth);
        Level::lemma_value_roundtrip(scaling.right.depth);
        ScalingCurve::lemma_value_roundtrip(scaling.left.curve);
        ScalingCurve::lemma_value_roundtrip(scaling.right.curve);
    }

    /// What `parse` accepts, `to_bytes` writes back byte for byte.
    pub proof fn lemma_encoded_decoded(data: Seq<u8>)
        requires
            data.len() == 5,
            Self::all_accepted(data),
        ensures
            Self::decoded(data).wf(),
            Self::decoded(data).encoded() == data,
    {
        assert(Self::accepts(0, data[0]));
        assert(Self::accepts(1, data[1]));
        assert(Self::accepts(2, data[2]));
        assert(Self::accepts(3, data[3]));
        assert(Self::accepts(4, data[4]));
        assert(Self::decoded(data).encoded() =~= data);
    }

    /// Unpacking what was packed gives the bytes back, where both curve
    /// bytes fit their two bits.
    pub proof fn lemma_unpacked_packed(data: Seq<u8>)
        requires
            data.len() == 5,
            fits(data[3], 2),
            fits(data[4], 2),
        ensures
            Self::unpacked(Self::packed(data)) == data,
    {
        lemma_joined_fitting(data[3], 2, data[4], 2);
        assert(Self::unpacked(Self::packed(data)) =~= data);
    }
}

impl SystemExclusiveData for KeyboardLevelScaling {
    const DATA_SIZE: usize = 5;

    /// Breakpoint and depths go from 0 to 99, the curves from 0 to 3.
    open spec fn accepts(offset: int, byte: u8) -> bool {
        if offset < 3 {
            byte <= 99
        } else {
            ScalingCurve::takes(byte)
        }
    }

    /// Breakpoint, left depth, right depth, left curve, right curve.
    open spec fn decoded(data: Seq<u8>) -> Self {
        KeyboardLevelScaling {
            breakpoint: Key::of_byte(data[0]),
            left: Scaling { depth: Level::of_byte(data[1]), curve: ScalingCurve::of_byte(data[3]) },
            right: Scaling {
                depth: Level::of_byte(data[2]),
                curve: ScalingCurve::of_byte(data[4]),
            },
        }
    }

    open spec fn encoded(&self) -> Seq<u8> {
        seq![
            self.breakpoint.byte(),
            self.left.depth.byte(),
            self.right.depth.byte(),
            self.left.curve.byte(),
            self.right.curve.byte(),
        ]
    }

    fn parse(data: &[u8]) -> (r: Result<Self, ParseError>) {
        if data.len() != Self::DATA_SIZE {
            return Err(
                ParseError::InvalidLength(report_len(data.len()), report_len(Self::DATA_SIZE)),
            );
        }
        let breakpoint = match Key::from_byte(data[0]) {
            Ok(key) => key,
            Err(_) => {
                assert(Self::first_refused(data@, 0));
                return Err(ParseError::InvalidData(0));
            },
        };
        let left_depth = match Level::from_byte(data[1]) {
            Ok(level) => level,
            Err(_) => {
                assert(Self::first_refused(data@, 1));
                return Err(ParseError::InvalidData(1));
            },
        };
        let right_depth = match Level::from_byte(data[2]) {
            Ok(level) => level,
            Err(_) => {
                assert(Self::first_refused(data@, 2));
                return Err(ParseError::InvalidData(2));
            },
        };
        let left_curve = match ScalingCurve::from_byte(data[3]) {
            Ok(curve) => curve,
            Err(_) => {
                assert(Self::first_refused(data@, 3));
                return Err(ParseError::InvalidData(3));
            },
        };
        let right_curve = match ScalingCurve::from_byte(data[4]) {
            Ok(curve) => curve,
            Err(_) => {
                assert(Self::first_refused(data@, 4));
                return Err(ParseError::InvalidData(4));
            },
        };
        assert(forall|i: int| 0 <= i < data@.len() ==> #[trigger] Self::accepts(i, data@[i]));
        assert(Self::all_accepted(data@));
        Ok(
            Self {
                breakpoint,
                left: Scaling { depth: left_depth, curve: left_curve },
                right: Scaling { depth: right_depth, curve: right_curve },
            },
        )
    }

    fn to_bytes(&self) -> (r: Vec<u8>) {
        let mut data: Vec<u8> = Vec::new();
        data.push(self.breakpoint.as_byte());
        data.push(self.left.depth.as_byte());
        data.push(self.right.depth.as_byte());
        data.push(self.left.curve.as_byte());
        data.push(self.right.curve.as_byte());
        data
    }
}

/// Operator mode: whether the frequency follows the key or is fixed.
#[derive(Debug, Copy, Clone, Eq, PartialEq, Structural)]
pub enum OperatorMode {
    Ratio,
    Fixed,
}

impl OperatorMode {
    /// The data byte that stands for the mode: 0 for ratio, 1 for fixed.
    pub open spec fn byte(&self) -> u8 {
        match self {
            OperatorMode::Ratio => 0,
            OperatorMode::Fixed => 1,
        }
    }

    /// Whether a data byte stands for a mode.
    pub open spec fn takes(byte: u8) -> bool {
        byte <= 1
    }

    /// The mode that a data byte stands for.
    pub open spec fn of_byte(byte: u8) -> Self {
        if byte == 1 {
            OperatorMode::Fixed
        } else {
            OperatorMode::Ratio
        }
    }

    /// The name of the mode.
    pub open spec fn text(&self) -> Seq<char> {
        match self {
            OperatorMode::Ratio => "Ratio"@,
            OperatorMode::Fixed => "Fixed"@,
        }
    }

    /// The name of the mode, `Ratio` or `Fixed`.
    pub fn to_string(&self) -> (r: String)
        ensures
            r@ == self.text(),
    {
        let mut s = String::new();
        match self {
            OperatorMode::Ratio => push_text(&mut s, "Ratio"),
            OperatorMode::Fixed => push_text(&mut s, "Fixed"),
        }
        assert(s@ =~= self.text());
        s
    }

    /// Gets the data byte for this mode.
    pub fn as_byte(&self) -> (b: u8)
        ensures
            b == self.byte(),
            Self::takes(b),
    {
        match self {
            OperatorMode::Ratio => 0,
            OperatorMode::Fixed => 1,
        }
    }

    /// The mode that a data byte stands for; only 0 and 1 stand for one.
    pub fn from_byte(byte: u8) -> (r: Result<Self, RangeError>)
        ensures
            Self::takes(byte) ==> r == Ok::<Self, RangeError>(Self::of_byte(byte)),
            !Self::takes(byte) ==> r == Err::<Self, RangeError>(
                RangeError { value: byte as i32, first: 0, last: 1 },
            ),
    {
        match byte {
            0 => Ok(OperatorMode::Ratio),
            1 => Ok(OperatorMode::Fixed),
            _ => Err(RangeError { value: byte as i32, first: 0, last: 1 }),
        }
    }
}

/// Operator.
#[derive(Debug, Clone, Copy)]
pub struct Operator {
    pub eg: Envelope,
    pub kbd_level_scaling: KeyboardLevelScaling,
    pub kbd_rate_scaling: Depth,
    pub amp_mod_sens: Sensitivity,
    pub key_vel_sens: Depth,
    pub output_level: Level,
    pub mode: OperatorMode,
    pub coarse: Coarse,
    pub fine: Level,
    pub detune: Detune,
}

impl Operator {
    /// The length of the packed form, in bytes.
    pub const PACKED_SIZE: usize = 17;

    /// The value of `DATA_SIZE`, for proofs outside this module.
    pub proof fn lemma_data_size()
        ensures
            Self::DATA_SIZE == 21,
    {
    }

    /// Whether every parameter lies in its range.
    pub open spec fn wf(self) -> bool {
        &&& self.eg.wf()
        &&& self.kbd_level_scaling.wf()
        &&& self.kbd_rate_scaling.wf()
        &&& self.amp_mod_sens.wf()
        &&& self.key_vel_sens.wf()
        &&& self.output_level.wf()
        &&& self.coarse.wf()
        &&& self.fine.wf()
        &&& self.detune.wf()
    }

    /// The operator of a fresh voice.
    pub open spec fn initial() -> Self {
        Operator {
            eg: Envelope::of(seq![99, 99, 99, 99], seq![99, 99, 99, 0]),
            kbd_level_scaling: KeyboardLevelScaling {
                breakpoint: Key::of(39),
                left: Scaling { depth: Level::of(0), curve: ScalingCurve::of_byte(0) },
                right: Scaling { depth: Level::of(0), curve: ScalingCurve::of_byte(0) },
            },
            kbd_rate_scaling: Depth::of(0),
            amp_mod_sens: Sensitivity::of(0),
            key_vel_sens: Depth::of(0),
            output_level: Level::of(0),
            mode: OperatorMode::Ratio,
            coarse: Coarse::of(1),
            fine: Level::of(0),
            detune: Detune::of(0),
        }
    }

    /// The operator that unpacked data stands for.
    #[verifier::opaque]
    pub open spec fn read(data: Seq<u8>) -> Self {
        Operator {
            eg: Envelope::decoded(data.subrange(0, 8)),
            kbd_level_scaling: KeyboardLevelScaling::decoded(data.subrange(8, 13)),
            kbd_rate_scaling: Depth::of_byte(data[13]),
            amp_mod_sens: Sensitivity::of_byte(data[14]),
            key_vel_sens: Depth::of_byte(data[15]),
            output_level: Level::of_byte(data[16]),
            mode: OperatorMode::of_byte(data[17]),
            coarse: Coarse::of_byte(data[18]),
            fine: Level::of_byte(data[19]),
            detune: Detune::of_byte(data[20]),
        }
    }

    /// The packed form of the 21 unpacked bytes.
    ///
    /// | packed byte | holds                                                   |
    /// |-------------|---------------------------------------------------------|
    /// | 0 to 7      | envelope, unchanged                                     |
    /// | 8 to 11     | keyboard level scaling, packed                          |
    /// | 12          | keyboard rate scaling in bits 0 to 2, detune in 3 to 6  |
    /// | 13          | amplitude sensitivity in bits 0 and 1, velocity in 2 to 4 |
    /// | 14          | output level                                            |
    /// | 15          | mode in bit 0, coarse frequency in bits 1 to 5          |
    /// | 16          | fine frequency                                          |
    pub open spec fn packed(data: Seq<u8>) -> Seq<u8> {
        data.subrange(0, 8) + KeyboardLevelScaling::packed(data.subrange(8, 13)) + seq![
            joined(data[13], 3, data[20], 4),
            joined(data[14], 2, data[15], 3),
            data[16],
            joined(data[17], 1, data[18], 5),
            data[19],
        ]
    }

    /// The unpacked form of the 17 packed bytes.
    pub open spec fn unpacked(data: Seq<u8>) -> Seq<u8> {
        data.subrange(0, 8) + KeyboardLevelScaling::unpacked(data.subrange(8, 12)) + seq![
            field(data[12], 0, 3),
            field(data[13], 0, 2),
            field(data[13], 2, 3),
            data[14],
            field(data[15], 0, 1),
            field(data[15], 1, 5),
            data[16],
            field(data[12], 3, 4),
        ]
    }

    /// Whether each byte that shares a packed byte with another fits the
    /// bits it has there.
    pub open spec fn packable(data: Seq<u8>) -> bool {
        &&& fits(data[11], 2)
        &&& fits(data[12], 2)
        &&& fits(data[13], 3)
        &&& fits(data[14], 2)
        &&& fits(data[15], 3)
        &&& fits(data[17], 1)
        &&& fits(data[18], 5)
        &&& fits(data[20], 4)
    }

    /// The operator as text, in five lines.
    pub open spec fn text(&self) -> Seq<char> {
        "EG: "@ + self.eg.text() + "\nKbd level scaling: "@ + self.kbd_level_scaling.text()
            + ", Kbd rate scaling: "@ + self.kbd_rate_scaling.text() + "\nAmp mod sens = "@
            + self.amp_mod_sens.text() + ", Key vel sens = "@ + self.key_vel_sens.text()
            + "\nLevel = "@ + self.output_level.text() + ", Mode = "@ + self.mode.text()
            + "\nCoarse = "@ + self.coarse.text() + ", Fine = "@ + self.fine.text()
            + ", Detune = "@ + self.detune.text() + "\n"@
    }

    /// The operator as text.
    pub fn to_string(&self) -> (r: String)
        ensures
            r@ == self.text(),
    {
        let mut s = String::new();
        push_text(&mut s, "EG: ");
        push_text(&mut s, self.eg.to_string().as_str());
        push_text(&mut s, "\nKbd level scaling: ");
        push_text(&mut s, self.kbd_level_scaling.to_string().as_str());
        push_text(&mut s, ", Kbd rate scaling: ");
        push_text(&mut s, self.kbd_rate_scaling.to_string().as_str());
        push_text(&mut s, "\nAmp mod sens = ");
        push_text(&mut s, self.amp_mod_sens.to_string().as_str());
        push_text(&mut s, ", Key vel sens = ");
        push_text(&mut s, self.key_vel_sens.to_string().as_str());
        push_text(&mut s, "\nLevel = ");
        push_text(&mut s, self.output_level.to_string().as_str());
        push_text(&mut s, ", Mode = ");
        push_text(&mut s, self.mode.to_string().as_str());
        push_text(&mut s, "\nCoarse = ");
        push_text(&mut s, self.coarse.to_string().as_str());
        push_text(&mut s, ", Fine = ");
        push_text(&mut s, self.fine.to_string().as_str());
        push_text(&mut s, ", Detune = ");
        push_text(&mut s, self.detune.to_string().as_str());
        push_text(&mut s, "\n");
        assert(s@ =~= self.text());
        s
    }

    /// Creates a new operator and initializes it with the defaults of a
    /// fresh voice.
    pub fn new() -> (r: Self)
        ensures
            r == Self::initial(),
    {
        Self {
            eg: Envelope::new(),
            kbd_level_scaling: KeyboardLevelScaling::new(),
            kbd_rate_scaling: Depth(0),
            amp_mod_sens: Sensitivity(0),
            key_vel_sens: Depth(0),
            output_level: Level(0),
            mode: OperatorMode::Ratio,
            coarse: Coarse(1),
            fine: Level(0),
            detune: Detune(0),
        }
    }

    /// Makes a new operator whose envelope and output level are drawn at
    /// random; everything else is as in a fresh voice.
    pub fn random() -> (r: Self)
        ensures
            r.wf(),
            r == (Operator { eg: r.eg, output_level: r.output_level, ..Self::initial() }),
    {
        Operator {
            eg: Envelope::random(),
            kbd_level_scaling: KeyboardLevelScaling::new(),
            kbd_rate_scaling: Depth(0),
            amp_mod_sens: Sensitivity(0),
            key_vel_sens: Depth(0),
            output_level: Level::random(),
            mode: OperatorMode::Ratio,
            coarse: Coarse(1),
            fine: Level(0),
            detune: Detune(0),
        }
    }

    /// The same as `random`.
    pub fn new_random() -> (r: Self)
        ensures
            r.wf(),
            r == (Operator { eg: r.eg, output_level: r.output_level, ..Self::initial() }),
    {
        Self::random()
    }

    /// Unpacks operator data from a cartridge. Returns the data in the same
    /// format as for a single voice.
    pub fn unpack(data: &[u8]) -> (r: Vec<u8>)
        requires
            data@.len() == 17,
        ensures
            r@ == Self::unpacked(data@),
            r@.len() == 21,
    {
        let mut result: Vec<u8> = Vec::new();
        result.extend_from_slice(&data[0..8]);
        let mut scaling = KeyboardLevelScaling::unpack(&data[8..12]);
        result.append(&mut scaling);
        result.push(extract_bits(data[12], 0, 3));
        result.push(extract_bits(data[13], 0, 2));
        result.push(extract_bits(data[13], 2, 3));
        result.push(data[14]);
        result.push(if test_bit(data[15], 0) { 1 } else { 0 });
        result.push(extract_bits(data[15], 1, 5));
        result.push(data[16]);
        result.push(extract_bits(data[12], 3, 4));
        assert(result@ =~= Self::unpacked(data@));
        result
    }

    /// Packs the operator bytes for use in a voice inside a cartridge. A
    /// byte that shares a packed byte with another gives its low bits only,
    /// as many as it has room for.
    pub fn pack(data: &[u8]) -> (r: Vec<u8>)
        requires
            data@.len() == 21,
        ensures
            r@ == Self::packed(data@),
            r@.len() == 17,
    {
        let mut result: Vec<u8> = Vec::new();
        result.extend_from_slice(&data[0..8]);
        let mut scaling = KeyboardLevelScaling::pack(&data[8..13]);
        result.append(&mut scaling);
        result.push(join_bits(data[13], 3, data[20], 4));
        result.push(join_bits(data[14], 2, data[15], 3));
        result.push(data[16]);
        result.push(join_bits(data[17], 1, data[18], 5));
        result.push(data[19]);
        assert(result@ =~= Self::packed(data@));
        result
    }

    /// Whether `byte` is acceptable at `offset` of the packed form: every
    /// parameter that the byte holds must be one that `parse` accepts.
    pub open spec fn packed_accepts(offset: int, byte: u8) -> bool {
        if offset < 8 {
            Self::accepts(offset, byte)
        } else if offset < 12 {
            KeyboardLevelScaling::packed_accepts(offset - 8, byte)
        } else if offset == 12 {
            Self::accepts(13, field(byte, 0, 3)) && Self::accepts(20, field(byte, 3, 4))
        } else if offset == 13 {
            Self::accepts(14, field(byte, 0, 2)) && Self::accepts(15, field(byte, 2, 3))
        } else if offset == 14 {
            Self::accepts(16, byte)
        } else if offset == 15 {
            Self::accepts(17, field(byte, 0, 1)) && Self::accepts(18, field(byte, 1, 5))
        } else {
            Self::accepts(19, byte)
        }
    }

    /// Whether every byte of packed data is accepted at its offset.
    pub open spec fn all_packed_accepted(data: Seq<u8>) -> bool {
        forall|i: int| 0 <= i < data.len() ==> #[trigger] Self::packed_accepts(i, data[i])
    }

    /// Whether `k` is the first offset of packed data whose byte is not
    /// accepted.
    pub open spec fn first_packed_refused(data: Seq<u8>, k: int) -> bool {
        &&& 0 <= k < data.len()
        &&& !Self::packed_accepts(k, data[k])
        &&& forall|i: int| 0 <= i < k ==> #[trigger] Self::packed_accepts(i, data[i])
    }

    /// Packed data is accepted just where its unpacked form is.
    pub proof fn lemma_packed_accepted(data: Seq<u8>)
        requires
            data.len() == 17,
        ensures
            Self::all_packed_accepted(data) == Self::all_accepted(Self::unpacked(data)),
    {
        let unpacked = Self::unpacked(data);
        lemma_field_fits(data[11], 0, 2);
        lemma_field_fits(data[11], 2, 2);
        lemma_field_fits(data[12], 0, 3);
        lemma_field_fits(data[13], 0, 2);
        lemma_field_fits(data[13], 2, 3);
        lemma_field_fits(data[15], 0, 1);
        lemma_field_fits(data[15], 1, 5);
        if Self::all_packed_accepted(data) {
            assert forall|i: int| 0 <= i < 17 implies Self::packed_accepts(i, data[i]) by {}
            assert(Self::packed_accepts(11, data[11]));
            assert(Self::packed_accepts(12, data[12]));
            assert(Self::packed_accepts(13, data[13]));
            assert(Self::packed_accepts(14, data[14]));
            assert(Self::packed_accepts(15, data[15]));
            assert(Self::packed_accepts(16, data[16]));
            assert forall|i: int| 0 <= i < 21 implies #[trigger] Self::accepts(i, unpacked[i]) by {
                if i < 11 {
                    assert(Self::packed_accepts(i, data[i]));
                }
            }
        }
        if Self::all_accepted(unpacked) {
            assert forall|i: int| 0 <= i < 17 implies #[trigger] Self::packed_accepts(
                i,
                data[i],
            ) by {
                if i < 11 {
                    assert(Self::accepts(i, unpacked[i]));
                } else {
                    assert(Self::accepts(11, unpacked[11]));
                    assert(Self::accepts(12, unpacked[12]));
                    assert(Self::accepts(13, unpacked[13]));
                    assert(Self::accepts(14, unpacked[14]));
                    assert(Self::accepts(15, unpacked[15]));
                    assert(Self::accepts(16, unpacked[16]));
                    assert(Self::accepts(17, unpacked[17]));
                    assert(Self::accepts(18, unpacked[18]));
                    assert(Self::accepts(19, unpacked[19]));
                    assert(Self::accepts(20, unpacked[20]));
                }
            }
        }
    }

    /// Computes `packed_accepts`.
    pub fn accepts_packed_byte(offset: usize, byte: u8) -> (ok: bool)
        ensures
            ok == Self::packed_accepts(offset as int, byte),
    {
        proof {
            lemma_field_fits(byte, 0, 2);
            lemma_field_fits(byte, 2, 2);
            lemma_field_fits(byte, 0, 3);
            lemma_field_fits(byte, 2, 3);
            lemma_field_fits(byte, 0, 1);
            lemma_field_fits(byte, 1, 5);
        }
        if offset < 11 {
            byte <= 99
        } else if offset == 12 {
            extract_bits(byte, 3, 4) <= 14
        } else if offset == 14 {
            byte <= 99
        } else if offset == 11 || offset == 13 || offset == 15 {
            true
        } else {
            byte <= 99
        }
    }

    /// Makes a new operator from packed bytes. A byte is refused where a
    /// parameter that it holds is out of its range.
    pub fn from_packed_bytes(data: &[u8]) -> (r: Result<Self, ParseError>)
        ensures
            data@.len() != 17 ==> r == Err::<Self, ParseError>(
                ParseError::InvalidLength(reported_len(data@.len()), 17),
            ),
            data@.len() == 17 ==> match r {
                Ok(value) => Self::all_packed_accepted(data@) && value == Self::decoded(
                    Self::unpacked(data@),
                ),
                Err(e) => exists|k: int| #[trigger]
                    Self::first_packed_refused(data@, k) && e == ParseError::InvalidData(k as u32),
            },
    {
        if data.len() != Self::PACKED_SIZE {
            return Err(ParseError::InvalidLength(report_len(data.len()), 17));
        }
        let mut i: usize = 0;
        while i < 17
            invariant
                i <= 17,
                data@.len() == 17,
                forall|j: int| 0 <= j < i ==> #[trigger] Self::packed_accepts(j, data@[j]),
            decreases 17 - i,
        {
            if !Self::accepts_packed_byte(i, data[i]) {
                assert(Self::first_packed_refused(data@, i as int));
                return Err(ParseError::InvalidData(i as u32));
            }
            i += 1;
        }
        proof {
            Self::lemma_packed_accepted(data@);
        }
        let unpacked = Self::unpack(data);
        let r = Self::parse(unpacked.as_slice());
        proof {
            if let Err(e) = r {
                let k = choose|k: int| #[trigger]
                    Self::first_refused(unpacked@, k) && e == ParseError::InvalidData(k as u32);
                assert(Self::accepts(k, unpacked@[k]));
            }
        }
        r
    }

    /// Gets the packed bytes representing the operator.
    pub fn to_packed_bytes(&self) -> (r: Vec<u8>)
        ensures
            r@ == Self::packed(self.encoded()),
            r@.len() == 17,
    {
        let data = self.to_bytes();
        Self::pack(data.as_slice())
    }

    /// Whether the bits of the packed form that hold no parameter are
    /// clear, as `pack` leaves them.
    pub open spec fn tidy(data: Seq<u8>) -> bool {
        &&& field(data[11], 4, 4) == 0
        &&& field(data[12], 7, 1) == 0
        &&& field(data[13], 5, 3) == 0
        &&& field(data[15], 6, 2) == 0
    }

    /// What `to_bytes` writes, `parse` reads as the same operator.
    pub proof fn lemma_decoded_encoded(operator: Self)
        requires
            operator.wf(),
        ensures
            operator.encoded().len() == 21,
            Self::all_accepted(operator.encoded()),
            Self::decoded(operator.encoded()) == operator,
    {
        reveal(Operator::read);
        let data = operator.encoded();
        Envelope::lemma_decoded_encoded(operator.eg);
        KeyboardLevelScaling::lemma_decoded_encoded(operator.kbd_level_scaling);
        assert(data.subrange(0, 8) =~= operator.eg.encoded());
        assert(data.subrange(8, 13) =~= operator.kbd_level_scaling.encoded());
        assert forall|i: int| 0 <= i < 21 implies #[trigger] Self::accepts(i, data[i]) by {
            if i < 8 {
                assert(Envelope::accepts(i, operator.eg.encoded()[i]));
            } else if i < 13 {
                assert(KeyboardLevelScaling::accepts(
                    i - 8,
                    operator.kbd_level_scaling.encoded()[i - 8],
                ));
            }
        }
    }

    /// What `parse` accepts, `to_bytes` writes back byte for byte.
    pub proof fn lemma_encoded_decoded(data: Seq<u8>)
        requires
            data.len() == 21,
            Self::all_accepted(data),
        ensures
            Self::decoded(data).wf(),
            Self::decoded(data).encoded() == data,
    {
        reveal(Operator::read);
        assert forall|i: int| 0 <= i < 8 implies #[trigger] Envelope::accepts(
            i,
            data.subrange(0, 8)[i],
        ) by {
            assert(Self::accepts(i, data[i]));
        }
        assert forall|i: int| 0 <= i < 5 implies #[trigger] KeyboardLevelScaling::accepts(
            i,
            data.subrange(8, 13)[i],
        ) by {
            assert(Self::accepts(i + 8, data[i + 8]));
        }
        Envelope::lemma_encoded_decoded(data.subrange(0, 8));
        KeyboardLevelScaling::lemma_encoded_decoded(data.subrange(8, 13));
        assert(Self::accepts(13, data[13]));
        assert(Self::accepts(14, data[14]));
        assert(Self::accepts(15, data[15]));
        assert(Self::accepts(16, data[16]));
        assert(Self::accepts(17, data[17]));
        assert(Self::accepts(18, data[18]));
        assert(Self::accepts(19, data[19]));
        assert(Self::accepts(20, data[20]));
        assert(Self::decoded(data).encoded() =~= data);
    }

    /// Data that `parse` accepts loses nothing when packed.
    pub proof fn lemma_accepted_packable(data: Seq<u8>)
        requires
            data.len() == 21,
            Self::all_accepted(data),
        ensures
            Self::packable(data),
    {
        assert(Self::accepts(11, data[11]));
        assert(Self::accepts(12, data[12]));
        assert(Self::accepts(13, data[13]));
        assert(Self::accepts(14, data[14]));
        assert(Self::accepts(15, data[15]));
        assert(Self::accepts(17, data[17]));
        assert(Self::accepts(18, data[18]));
        assert(Self::accepts(20, data[20]));
    }

    /// The packed form in plain arithmetic, for data in which each byte that
    /// shares a packed byte fits its bits: a shared byte is the sum of its
    /// parameters, each times the weight of the bit where it starts.
    pub proof fn lemma_packed_sums(data: Seq<u8>)
        requires
            data.len() == 21,
            Self::packable(data),
        ensures
            Self::packed(data) == data.subrange(0, 11) + seq![
                (data[11] + 4 * data[12]) as u8,
                (data[13] + 8 * data[20]) as u8,
                (data[14] + 4 * data[15]) as u8,
                data[16],
                (data[17] + 2 * data[18]) as u8,
                data[19],
            ],
    {
        lemma_joined_fitting(data[11], 2, data[12], 2);
        lemma_joined_fitting(data[13], 3, data[20], 4);
        lemma_joined_fitting(data[14], 2, data[15], 3);
        lemma_joined_fitting(data[17], 1, data[18], 5);
        let scaling = data.subrange(8, 13);
        assert(scaling[3] == data[11] && scaling[4] == data[12]);
        assert(Self::packed(data) =~= data.subrange(0, 11) + seq![
            (data[11] + 4 * data[12]) as u8,
            (data[13] + 8 * data[20]) as u8,
            (data[14] + 4 * data[15]) as u8,
            data[16],
            (data[17] + 2 * data[18]) as u8,
            data[19],
        ]);
    }

    /// Unpacking what was packed gives the bytes back, where each byte that
    /// shares a packed byte fits its bits.
    pub proof fn lemma_unpacked_packed(data: Seq<u8>)
        requires
            data.len() == 21,
            Self::packable(data),
        ensures
            Self::packed(data).len() == 17,
            Self::unpacked(Self::packed(data)) == data,
    {
        let packed = Self::packed(data);
        assert(packed.subrange(8, 12) =~= KeyboardLevelScaling::packed(data.subrange(8, 13)));
        KeyboardLevelScaling::lemma_unpacked_packed(data.subrange(8, 13));
        lemma_joined_fitting(data[13], 3, data[20], 4);
        lemma_joined_fitting(data[14], 2, data[15], 3);
        lemma_joined_fitting(data[17], 1, data[18], 5);
        assert(Self::unpacked(packed) =~= data);
    }

    /// Whatever is packed is tidy, and packing loses nothing more when it is
    /// done a second time.
    pub proof fn lemma_packed_unpacked_packed(data: Seq<u8>)
        requires
            data.len() == 21,
        ensures
            Self::tidy(Self::packed(data)),
            Self::packed(Self::unpacked(Self::packed(data))) == Self::packed(data),
    {
        lemma_joined_above(data[11], 2, data[12], 2, 4, 4);
        lemma_joined_above(data[13], 3, data[20], 4, 7, 1);
        lemma_joined_above(data[14], 2, data[15], 3, 5, 3);
        lemma_joined_above(data[17], 1, data[18], 5, 6, 2);
        let scaling = data.subrange(8, 13);
        assert(scaling[3] == data[11] && scaling[4] == data[12]);
        assert(Self::tidy(Self::packed(data)));
        Self::lemma_packed_unpacked(Self::packed(data));
    }

    /// Packing what was unpacked gives the bytes back, where the packed
    /// bytes were tidy.
    pub proof fn lemma_packed_unpacked(data: Seq<u8>)
        requires
            data.len() == 17,
            Self::tidy(data),
        ensures
            Self::unpacked(data).len() == 21,
            Self::packable(Self::unpacked(data)),
            Self::packed(Self::unpacked(data)) == data,
    {
        let unpacked = Self::unpacked(data);
        assert(unpacked.subrange(8, 13) =~= KeyboardLevelScaling::unpacked(data.subrange(8, 12)));
        Self::lemma_shared_bytes(data[11], data[12], data[13], data[15]);
        assert(Self::packed(unpacked) =~= data);
    }

    /// Each shared byte of the packed form, where its spare bits are clear,
    /// is put together again from the parameters it holds, and each
    /// parameter fits its bits.
    proof fn lemma_shared_bytes(curves: u8, scaling_detune: u8, sensitivity: u8, frequency: u8)
        by (bit_vector)
        requires
            field(curves, 4, 4) == 0,
            field(scaling_detune, 7, 1) == 0,
            field(sensitivity, 5, 3) == 0,
            field(frequency, 6, 2) == 0,
        ensures
            joined(field(curves, 0, 2), 2, field(curves, 2, 2), 2) == curves,
            joined(field(scaling_detune, 0, 3), 3, field(scaling_detune, 3, 4), 4)
                == scaling_detune,
            joined(field(sensitivity, 0, 2), 2, field(sensitivity, 2, 3), 3) == sensitivity,
            joined(field(frequency, 0, 1), 1, field(frequency, 1, 5), 5) == frequency,
            fits(field(curves, 0, 2), 2),
            fits(field(curves, 2, 2), 2),
            fits(field(scaling_detune, 0, 3), 3),
            fits(field(scaling_detune, 3, 4), 4),
            fits(field(sensitivity, 0, 2), 2),
            fits(field(sensitivity, 2, 3), 3),
            fits(field(frequency, 0, 1), 1),
            fits(field(frequency, 1, 5), 5),
    {
    }
}

impl SystemExclusiveData for Operator {
    const DATA_SIZE: usize = 21;

    /// | offset   | parameter              | accepted |
    /// |----------|------------------------|----------|
    /// | 0 to 7   | envelope               | 0 to 99  |
    /// | 8 to 12  | keyboard level scaling | as there |
    /// | 13       | keyboard rate scaling  | 0 to 7   |
    /// | 14       | amplitude sensitivity  | 0 to 3   |
    /// | 15       | velocity sensitivity   | 0 to 7   |
    /// | 16       | output level           | 0 to 99  |
    /// | 17       | mode                   | 0 or 1   |
    /// | 18       | coarse frequency       | 0 to 31  |
    /// | 19       | fine frequency         | 0 to 99  |
    /// | 20       | detune                 | 0 to 14  |
    open spec fn accepts(offset: int, byte: u8) -> bool {
        if offset < 8 {
            Envelope::accepts(offset, byte)
        } else if offset < 13 {
            KeyboardLevelScaling::accepts(offset - 8, byte)
        } else if offset == 13 {
            Depth::takes(byte)
        } else if offset == 14 {
            Sensitivity::takes(byte)
        } else if offset == 15 {
            Depth::takes(byte)
        } else if offset == 16 {
            Level::takes(byte)
        } else if offset == 17 {
            OperatorMode::takes(byte)
        } else if offset == 18 {
            Coarse::takes(byte)
        } else if offset == 19 {
            Level::takes(byte)
        } else {
            Detune::takes(byte)
        }
    }

    /// The operator whose parameters stand in the data as `accepts` lists
    /// them: `read`.
    open spec fn decoded(data: Seq<u8>) -> Self {
        Self::read(data)
    }

    open spec fn encoded(&self) -> Seq<u8> {
        self.eg.encoded() + self.kbd_level_scaling.encoded() + seq![
            self.kbd_rate_scaling.byte(),
            self.amp_mod_sens.byte(),
            self.key_vel_sens.byte(),
            self.output_level.byte(),
            self.mode.byte(),
            self.coarse.byte(),
            self.fine.byte(),
            self.detune.byte(),
        ]
    }

    fn parse(data: &[u8]) -> (r: Result<Self, ParseError>) {
        if data.len() != Self::DATA_SIZE {
            return Err(
                ParseError::InvalidLength(report_len(data.len()), report_len(Self::DATA_SIZE)),
            );
        }
        proof {
            reveal(Operator::read);
            Envelope::lemma_data_size();
        }
        let eg = match Envelope::parse(&data[0..8]) {
            Ok(eg) => eg,
            Err(e) => {
                proof {
                    let k = choose|k: int| #[trigger]
                        Envelope::first_refused(data@.subrange(0, 8), k)
                            && e == ParseError::InvalidData(k as u32);
                    assert forall|i: int| 0 <= i < k implies #[trigger] Self::accepts(
                        i,
                        data@[i],
                    ) by {
                        assert(Envelope::accepts(i, data@.subrange(0, 8)[i]));
                    }
                    assert(Self::first_refused(data@, k));
                }
                return Err(e);
            },
        };
        assert forall|i: int| 0 <= i < 8 implies #[trigger] Self::accepts(i, data@[i]) by {
            assert(Envelope::accepts(i, data@.subrange(0, 8)[i]));
        }
        let kbd_level_scaling = match KeyboardLevelScaling::parse(&data[8..13]) {
            Ok(scaling) => scaling,
            Err(e) => {
                let ghost k = choose|k: int| #[trigger]
                    KeyboardLevelScaling::first_refused(data@.subrange(8, 13), k)
                        && e == ParseError::InvalidData(k as u32);
                proof {
                    assert forall|i: int| 0 <= i < 8 + k implies #[trigger] Self::accepts(
                        i,
                        data@[i],
                    ) by {
                        if i >= 8 {
                            assert(KeyboardLevelScaling::accepts(
                                i - 8,
                                data@.subrange(8, 13)[i - 8],
                            ));
                        }
                    }
                    assert(Self::first_refused(data@, 8 + k));
                }
                return Err(e.at(8));
            },
        };
        assert forall|i: int| 0 <= i < 13 implies #[trigger] Self::accepts(i, data@[i]) by {
            if i >= 8 {
                assert(KeyboardLevelScaling::accepts(i - 8, data@.subrange(8, 13)[i - 8]));
            }
        }
        let kbd_rate_scaling = match Depth::from_byte(data[13]) {
            Ok(depth) => depth,
            Err(_) => {
                assert(Self::first_refused(data@, 13));
                return Err(ParseError::InvalidData(13));
            },
        };
        let amp_mod_sens = match Sensitivity::from_byte(data[14]) {
            Ok(sensitivity) => sensitivity,
            Err(_) => {
                assert(Self::first_refused(data@, 14));
                return Err(ParseError::InvalidData(14));
            },
        };
        let key_vel_sens = match Depth::from_byte(data[15]) {
            Ok(depth) => depth,
            Err(_) => {
                assert(Self::first_refused(data@, 15));
                return Err(ParseError::InvalidData(15));
            },
        };
        let output_level = match Level::from_byte(data[16]) {
            Ok(level) => level,
            Err(_) => {
                assert(Self::first_refused(data@, 16));
                return Err(ParseError::InvalidData(16));
            },
        };
        let mode = match OperatorMode::from_byte(data[17]) {
            Ok(mode) => mode,
            Err(_) => {
                assert(Self::first_refused(data@, 17));
                return Err(ParseError::InvalidData(17));
            },
        };
        let coarse = match Coarse::from_byte(data[18]) {
            Ok(coarse) => coarse,
            Err(_) => {
                assert(Self::first_refused(data@, 18));
                return Err(ParseError::InvalidData(18));
            },
        };
        let fine = match Level::from_byte(data[19]) {
            Ok(level) => level,
            Err(_) => {
                assert(Self::first_refused(data@, 19));
                return Err(ParseError::InvalidData(19));
            },
        };
        let detune = match Detune::from_byte(data[20]) {
            Ok(detune) => detune,
            Err(_) => {
                assert(Self::first_refused(data@, 20));
                return Err(ParseError::InvalidData(20));
            },
        };
        assert(forall|i: int| 0 <= i < data@.len() ==> #[trigger] Self::accepts(i, data@[i]));
        assert(Self::all_accepted(data@));
        Ok(
            Self {
                eg,
                kbd_level_scaling,
                kbd_rate_scaling,
                amp_mod_sens,
                key_vel_sens,
                output_level,
                mode,
                coarse,
                fine,
                detune,
            },
        )
    }

    fn to_bytes(&self) -> (r: Vec<u8>) {
        proof {
            Envelope::lemma_data_size();
        }
        let mut data: Vec<u8> = Vec::new();
        let mut eg = self.eg.to_bytes();
        data.append(&mut eg);
        let mut scaling = self.kbd_level_scaling.to_bytes();
        data.append(&mut scaling);
        data.push(self.kbd_rate_scaling.as_byte());
        data.push(self.amp_mod_sens.as_byte());
        data.push(self.key_vel_sens.as_byte());
        data.push(self.output_level.as_byte());
        data.push(self.mode.as_byte());
        data.push(self.coarse.as_byte());
        data.push(self.fine.as_byte());
        data.push(self.detune.as_byte());
        assert(data@ =~= self.encoded());
        data
    }
}

} // verus!
