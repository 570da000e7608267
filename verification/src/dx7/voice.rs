//! The voice: six operators and what they share, with its name.

use crate::ParseError;
use crate::Ranged;
use crate::bits::extract_bits;
use crate::bits::field;
use crate::bits::fits;
use crate::bits::join_bits;
use crate::bits::joined;
use crate::bits::lemma_field_fits;
use crate::bits::lemma_fits_field;
use crate::bits::lemma_joined_above;
use crate::bits::lemma_joined_fitting;
use crate::bits::lemma_with_field;
use crate::bits::lemma_with_field_beside;
use crate::bits::set_bits;
use crate::bits::test_bit;
use crate::bits::with_field;
use crate::dx7::Algorithm;
use crate::dx7::Coarse;
use crate::dx7::Depth;
use crate::dx7::Detune;
use crate::dx7::Level;
use crate::dx7::Sensitivity;
use crate::dx7::Transpose;
use crate::dx7::envelope::Envelope;
use crate::dx7::envelope::Rate;
use crate::dx7::lfo::Lfo;
use crate::dx7::lfo::LfoWaveform;
use crate::dx7::lfo::push_switch;
use crate::dx7::lfo::switch_as_byte;
use crate::dx7::lfo::switch_byte;
use crate::dx7::lfo::switch_text;
use crate::dx7::operator::Key;
use crate::dx7::operator::KeyboardLevelScaling;
use crate::dx7::operator::Operator;
use crate::dx7::operator::OperatorMode;
use crate::dx7::operator::Scaling;
use crate::dx7::operator::ScalingCurve;
use crate::dx7::sysex::SystemExclusiveData;
use crate::random_item;
use crate::report_len;
use crate::reported_len;
use crate::text::all_ascii;
use crate::text::ascii_chars;
use crate::text::ascii_string;
use crate::text::push_text;
use vstd::prelude::*;
use vstd::string::StringSliceAdditionalSpecFns;
use vstd::utf8::encode_utf8;

verus! {

/// The number of operators in a voice.
pub const OPERATOR_COUNT: usize = 6;

/// The length of a voice in a cartridge, in bytes.
pub const VOICE_PACKED_SIZE: usize = 128;

/// The length of a voice on its own, in bytes.
pub const VOICE_SIZE: usize = 155;

/// The length of a voice name, in characters.
pub const NAME_SIZE: usize = 10;

/// Voice name: up to ten ASCII characters. A name made from text is as long
/// as the text; a name read from data has all ten.
#[derive(Debug, Clone, Copy, Eq, PartialEq)]
pub struct VoiceName {
    /// The characters as they are written: those of the name, then spaces.
    pub(crate) chars: [u8; 10],
    /// How many of them are the name's.
    pub(crate) len: usize,
}

impl VoiceName {
    /// Every character of a name is ASCII, the name has at most ten, and
    /// what follows them is spaces.
    #[verifier::type_invariant]
    pub open(crate) spec fn wf(self) -> bool {
        &&& all_ascii(self.chars@)
        &&& self.len <= 10
        &&& forall|i: int| self.len <= i < 10 ==> self.chars@[i] == 32
    }

    /// The number of characters of the name.
    pub open(crate) spec fn length(&self) -> nat {
        self.len as nat
    }

    /// The name with all ten characters counted as its own: what is read
    /// back from the data of the name.
    pub open(crate) spec fn filled(self) -> Self {
        VoiceName { chars: self.chars, len: 10 }
    }

    /// A name of ten characters is read back as it is.
    pub proof fn lemma_filled(name: Self)
        requires
            name.length() == 10,
        ensures
            name.filled() == name,
    {
    }

    /// The number of characters of the name.
    pub fn len(&self) -> (n: usize)
        ensures
            n == self.length(),
            n <= 10,
    {
        proof {
            use_type_invariant(self);
        }
        self.len
    }

    /// The value of `DATA_SIZE`, for proofs outside this module.
    pub proof fn lemma_data_size()
        ensures
            Self::DATA_SIZE == 10,
    {
    }

    /// The upper-case form of an ASCII letter; any other byte stays.
    pub open spec fn upper(byte: u8) -> u8 {
        if 97 <= byte <= 122 {
            (byte - 32) as u8
        } else {
            byte
        }
    }

    /// The ten bytes of the name that is made from `text`: the text in
    /// upper case, then spaces.
    pub open spec fn padded(text: Seq<u8>) -> Seq<u8> {
        Seq::new(
            10,
            |i: int|
                if i < text.len() {
                    Self::upper(text[i])
                } else {
                    32u8
                },
        )
    }

    /// The consonants that a random name is made of: K, S, T, N, H, M, Y, R,
    /// W, G, Z, D, B and P.
    pub open spec fn consonants() -> Seq<u8> {
        seq![75, 83, 84, 78, 72, 77, 89, 82, 87, 71, 90, 68, 66, 80]
    }

    /// The vowels that a random name is made of: A, I, U, E and O.
    pub open spec fn vowels() -> Seq<u8> {
        seq![65, 73, 85, 69, 79]
    }

    /// Whether the bytes are syllables, each a consonant and a vowel.
    pub open spec fn syllables(text: Seq<u8>) -> bool {
        forall|k: int|
            0 <= k < text.len() / 2 ==> Self::consonants().contains(#[trigger] text[2 * k])
                && Self::vowels().contains(text[2 * k + 1])
    }

    /// What `to_bytes` writes, `parse` reads as the same name with all ten
    /// characters: the spaces that filled it up are read as its own.
    pub proof fn lemma_decoded_encoded(name: Self)
        requires
            name.wf(),
        ensures
            name.encoded().len() == 10,
            Self::all_accepted(name.encoded()),
            Self::decoded(name.encoded()) == name.filled(),
    {
        assert(Self::decoded(name.encoded()).chars =~= name.chars);
        assert forall|i: int| 0 <= i < 10 implies #[trigger] Self::accepts(
            i,
            name.encoded()[i],
        ) by {
            assert(name.chars@[i] < 128);
        }
    }

    /// What `parse` accepts, `to_bytes` writes back byte for byte.
    pub proof fn lemma_encoded_decoded(data: Seq<u8>)
        requires
            data.len() == 10,
            Self::all_accepted(data),
        ensures
            Self::decoded(data).wf(),
            Self::decoded(data).encoded() == data,
    {
        assert(Self::decoded(data).encoded() =~= data);
        assert forall|i: int| 0 <= i < 10 implies #[trigger] Self::decoded(data).chars@[i]
            < 128 by {
            assert(Self::accepts(i, data[i]));
        }
    }

    /// Computes `upper`.
    fn to_upper(byte: u8) -> (r: u8)
        ensures
            r == Self::upper(byte),
            byte < 128 ==> r < 128,
    {
        if 97 <= byte && byte <= 122 {
            byte - 32
        } else {
            byte
        }
    }

    /// What `new` owes for text with these UTF-8 bytes. More than ten bytes
    /// are refused by their number, and a byte that is not ASCII by its
    /// offset, the first such; anything else makes the name that is as long
    /// as the text and is written as `padded`.
    pub open spec fn made_from(text: Seq<u8>, r: Result<Self, ParseError>) -> bool {
        if text.len() > 10 {
            r == Err::<Self, ParseError>(ParseError::InvalidLength(reported_len(text.len()), 10))
        } else {
            match r {
                Ok(name) => {
                    &&& all_ascii(text)
                    &&& name.length() == text.len()
                    &&& name.encoded() == Self::padded(text)
                },
                Err(e) => exists|k: int|
                    {
                        &&& 0 <= k < text.len()
                        &&& #[trigger] text[k] >= 128
                        &&& all_ascii(text.subrange(0, k))
                        &&& e == ParseError::InvalidData(k as u32)
                    },
            }
        }
    }

    /// Makes the name from text that is ASCII and at most ten bytes long.
    fn build(text: &[u8]) -> (r: Self)
        requires
            text@.len() <= 10,
            all_ascii(text@),
        ensures
            r.length() == text@.len(),
            r.encoded() == Self::padded(text@),
    {
        let mut chars: [u8; 10] = [32u8;10];
        let mut i: usize = 0;
        while i < text.len()
            invariant
                i <= text@.len() <= 10,
                all_ascii(text@),
                forall|j: int| 0 <= j < i ==> chars[j] == Self::upper(text@[j]),
                forall|j: int| i <= j < 10 ==> chars[j] == 32,
            decreases text@.len() - i,
        {
            chars[i] = Self::to_upper(text[i]);
            i += 1;
        }
        proof {
            assert forall|j: int| 0 <= j < 10 implies #[trigger] chars@[j] < 128 by {
                if j < text@.len() {
                    assert(text@[j] < 128);
                }
            }
        }
        let name = VoiceName { chars, len: text.len() };
        assert(name.encoded() =~= Self::padded(text@));
        name
    }

    /// Makes a name from the UTF-8 bytes of text.
    fn from_text(text: &[u8]) -> (r: Result<Self, ParseError>)
        ensures
            Self::made_from(text@, r),
    {
        if text.len() > NAME_SIZE {
            return Err(ParseError::InvalidLength(report_len(text.len()), 10));
        }
        let mut i: usize = 0;
        while i < text.len()
            invariant
                i <= text@.len() <= 10,
                all_ascii(text@.subrange(0, i as int)),
            decreases text@.len() - i,
        {
            if text[i] >= 128 {
                return Err(ParseError::InvalidData(i as u32));
            }
            assert forall|j: int| 0 <= j < i + 1 implies #[trigger] text@.subrange(0, i + 1)[j]
                < 128 by {
                if j < i {
                    assert(text@.subrange(0, i as int)[j] < 128);
                }
            }
            i += 1;
        }
        assert(text@.subrange(0, i as int) =~= text@);
        Ok(Self::build(text))
    }

    /// Makes a name from text of at most ten ASCII characters. Letters are
    /// put in upper case. The name is as long as the text; where it is
    /// written as data, spaces fill it up to ten.
    pub fn new(name: &str) -> (r: Result<Self, ParseError>)
        ensures
            Self::made_from(encode_utf8(name@), r),
    {
        Self::from_text(name.as_bytes())
    }

    /// `new` for a `String`.
    pub fn from_string(name: String) -> (r: Result<Self, ParseError>)
        ensures
            Self::made_from(encode_utf8(name@), r),
    {
        Self::new(name.as_str())
    }

    /// Makes a syllable of a consonant and a vowel, both drawn at random.
    fn make_random_syllable() -> (r: (u8, u8))
        ensures
            Self::consonants().contains(r.0),
            Self::vowels().contains(r.1),
    {
        let consonants: [u8; 14] = [75, 83, 84, 78, 72, 77, 89, 82, 87, 71, 90, 68, 66, 80];
        let vowels: [u8; 5] = [65, 73, 85, 69, 79];
        assert(consonants@ =~= Self::consonants());
        assert(vowels@ =~= Self::vowels());
        let consonant = match random_item(consonants.as_slice()) {
            Some(byte) => byte,
            None => 75,
        };
        let vowel = match random_item(vowels.as_slice()) {
            Some(byte) => byte,
            None => 65,
        };
        (consonant, vowel)
    }

    /// Makes a phrase out of `syllable_count` random syllables.
    fn make_random_phrase(syllable_count: usize) -> (r: Vec<u8>)
        requires
            syllable_count <= usize::MAX / 2,
        ensures
            r@.len() == 2 * syllable_count,
            Self::syllables(r@),
    {
        let mut result: Vec<u8> = Vec::new();
        let mut i: usize = 0;
        while i < syllable_count
            invariant
                i <= syllable_count <= usize::MAX / 2,
                result@.len() == 2 * i,
                Self::syllables(result@),
            decreases syllable_count - i,
        {
            let ghost before = result@;
            let (consonant, vowel) = Self::make_random_syllable();
            result.push(consonant);
            result.push(vowel);
            proof {
                assert forall|k: int| 0 <= k < result@.len() / 2 implies Self::consonants().contains(
                    #[trigger] result@[2 * k],
                ) && Self::vowels().contains(result@[2 * k + 1]) by {
                    if k < i {
                        assert(Self::consonants().contains(before[2 * k]));
                        assert(result@[2 * k] == before[2 * k]);
                        assert(result@[2 * k + 1] == before[2 * k + 1]);
                    }
                }
            }
            i += 1;
        }
        result
    }

    /// Makes a name of five random syllables, each a consonant and a vowel.
    pub fn random() -> (r: Self)
        ensures
            r.length() == 10,
            Self::syllables(r.encoded()),
    {
        let phrase = Self::make_random_phrase(5);
        proof {
            assert forall|j: int| 0 <= j < 10 implies #[trigger] phrase@[j] < 128 && Self::upper(
                phrase@[j],
            ) == phrase@[j] by {
                let k = j / 2;
                assert(Self::consonants().contains(phrase@[2 * k]));
                assert(Self::vowels().contains(phrase@[2 * k + 1]));
            }
        }
        let name = Self::build(phrase.as_slice());
        assert(name.encoded() =~= phrase@);
        name
    }

    /// The characters of the name, without the spaces that fill it up when
    /// it is written.
    pub open spec fn own(&self) -> Seq<u8> {
        self.encoded().subrange(0, self.length() as int)
    }

    /// The name as text: its characters in upper case, as many as it has.
    pub open spec fn text(&self) -> Seq<char> {
        ascii_chars(self.own().map_values(|b: u8| Self::upper(b)))
    }

    /// A name made from text reads as that text in upper case.
    pub proof fn lemma_text_of_made(text: Seq<u8>, name: Self)
        requires
            text.len() <= 10,
            name.length() == text.len(),
            name.encoded() == Self::padded(text),
        ensures
            name.text() == ascii_chars(text.map_values(|b: u8| Self::upper(b))),
    {
        assert forall|i: int| 0 <= i < text.len() implies Self::upper(#[trigger] name.own()[i])
            == Self::upper(text[i]) by {
            assert(name.own()[i] == Self::padded(text)[i]);
        }
        assert(name.own().map_values(|b: u8| Self::upper(b)) =~= text.map_values(
            |b: u8| Self::upper(b),
        ));
    }

    /// The name as a string in upper case. It has as many characters as the
    /// name has: the spaces that fill a shorter name up when it is written
    /// are not among them.
    pub fn value(&self) -> (r: String)
        ensures
            r@ == self.text(),
            r@.len() == self.length(),
    {
        proof {
            use_type_invariant(self);
        }
        let mut shown: Vec<u8> = Vec::new();
        let mut i: usize = 0;
        while i < self.len
            invariant
                i <= self.len <= 10,
                all_ascii(self.chars@),
                shown@.len() == i,
                all_ascii(shown@),
                forall|j: int| 0 <= j < i ==> shown@[j] == Self::upper(self.chars@[j]),
            decreases self.len - i,
        {
            assert(self.chars@[i as int] < 128);
            shown.push(Self::to_upper(self.chars[i]));
            i += 1;
        }
        assert(shown@ =~= self.own().map_values(|b: u8| Self::upper(b)));
        ascii_string(shown.as_slice())
    }
}

impl SystemExclusiveData for VoiceName {
    const DATA_SIZE: usize = 10;

    /// Any ASCII character.
    open spec fn accepts(offset: int, byte: u8) -> bool {
        byte < 128
    }

    /// The ten characters as they are, all of them the name's.
    open(crate) spec fn decoded(data: Seq<u8>) -> Self {
        VoiceName {
            chars: [
                data[0],
                data[1],
                data[2],
                data[3],
                data[4],
                data[5],
                data[6],
                data[7],
                data[8],
                data[9],
            ],
            len: 10,
        }
    }

    open(crate) spec fn encoded(&self) -> Seq<u8> {
        self.chars@
    }

    fn parse(data: &[u8]) -> (r: Result<Self, ParseError>) {
        if data.len() != Self::DATA_SIZE {
            return Err(
                ParseError::InvalidLength(report_len(data.len()), report_len(Self::DATA_SIZE)),
            );
        }
        let mut chars: [u8; 10] = [32u8;10];
        let mut i: usize = 0;
        while i < 10
            invariant
                i <= 10,
                data@.len() == 10,
                forall|j: int| 0 <= j < i ==> #[trigger] Self::accepts(j, data@[j]),
                forall|j: int| 0 <= j < i ==> chars[j] == data@[j],
            decreases 10 - i,
        {
            if data[i] >= 128 {
                assert(Self::first_refused(data@, i as int));
                return Err(ParseError::InvalidData(i as u32));
            }
            chars[i] = data[i];
            i += 1;
        }
        proof {
            assert forall|j: int| 0 <= j < 10 implies #[trigger] chars@[j] < 128 by {
                assert(Self::accepts(j, data@[j]));
            }
            assert(chars =~= Self::decoded(data@).chars);
        }
        assert(forall|i: int| 0 <= i < data@.len() ==> #[trigger] Self::accepts(i, data@[i]));
        assert(Self::all_accepted(data@));
        Ok(VoiceName { chars, len: 10 })
    }

    fn to_bytes(&self) -> (r: Vec<u8>) {
        let mut data: Vec<u8> = Vec::new();
        let mut i: usize = 0;
        while i < 10
            invariant
                i <= 10,
                data@ == self.chars@.subrange(0, i as int),
            decreases 10 - i,
        {
            data.push(self.chars[i]);
            assert(self.chars@.subrange(0, i + 1) =~= self.chars@.subrange(0, i as int).push(
                self.chars@[i as int],
            ));
            i += 1;
        }
        assert(self.chars@.subrange(0, 10) =~= self.chars@);
        data
    }
}

/// A DX7 voice.
///
/// `operators[0]` is the operator that the instrument calls OP1, and so on
/// to `operators[5]`, which is OP6. In the data they stand the other way
/// round, OP6 first.
#[derive(Debug, Clone, Copy)]
pub struct Voice {
    pub operators: [Operator; 6],
    pub peg: Envelope,
    pub alg: Algorithm,
    pub feedback: Depth,
    pub osc_sync: bool,
    pub lfo: Lfo,
    pub pitch_mod_sens: Depth,
    pub transpose: Transpose,
    pub name: VoiceName,
}

impl Voice {
    /// The value of `DATA_SIZE`, for proofs outside this module.
    pub proof fn lemma_data_size()
        ensures
            Self::DATA_SIZE == 155,
    {
    }

    /// Whether every parameter lies in its range.
    pub open spec fn wf(self) -> bool {
        &&& forall|i: int| 0 <= i < 6 ==> (#[trigger] self.operators[i]).wf()
        &&& self.peg.wf()
        &&& self.alg.wf()
        &&& self.feedback.wf()
        &&& self.lfo.wf()
        &&& self.pitch_mod_sens.wf()
        &&& self.transpose.wf()
        &&& self.name.wf()
    }

    /// The bytes of the operator that stands `k`-th in unpacked data. It is
    /// the one that the instrument calls OP6 for `k == 0`, and OP1 for
    /// `k == 5`.
    pub open spec fn chunk(data: Seq<u8>, k: int) -> Seq<u8> {
        data.subrange(21 * k, 21 * k + 21)
    }

    /// The bytes of the operator that stands `k`-th in packed data.
    pub open spec fn packed_chunk(data: Seq<u8>, k: int) -> Seq<u8> {
        data.subrange(17 * k, 17 * k + 17)
    }

    /// The data of the first `count` operators as they stand in the data of
    /// a voice, OP6 first.
    pub open spec fn operators_encoded(operators: Seq<Operator>, count: int) -> Seq<u8>
        decreases count,
    {
        if count <= 0 {
            Seq::<u8>::empty()
        } else {
            Self::operators_encoded(operators, count - 1) + operators[6 - count].encoded()
        }
    }

    /// The packed form of the first `count` operators of unpacked data.
    pub open spec fn operators_packed(data: Seq<u8>, count: int) -> Seq<u8>
        decreases count,
    {
        if count <= 0 {
            Seq::<u8>::empty()
        } else {
            Self::operators_packed(data, count - 1) + Operator::packed(
                Self::chunk(data, count - 1),
            )
        }
    }

    /// The unpacked form of the first `count` operators of packed data.
    pub open spec fn operators_unpacked(data: Seq<u8>, count: int) -> Seq<u8>
        decreases count,
    {
        if count <= 0 {
            Seq::<u8>::empty()
        } else {
            Self::operators_unpacked(data, count - 1) + Operator::unpacked(
                Self::packed_chunk(data, count - 1),
            )
        }
    }

    /// The packed form of the 155 unpacked bytes.
    ///
    /// | packed byte | holds                                                  |
    /// |-------------|--------------------------------------------------------|
    /// | 0 to 101    | the six operators, each packed                         |
    /// | 102 to 109  | pitch envelope, unchanged                              |
    /// | 110         | algorithm                                              |
    /// | 111         | feedback in bits 0 to 2, oscillator sync in bit 3      |
    /// | 112 to 115  | LFO speed, delay and modulation depths                 |
    /// | 116         | LFO sync in bit 0, waveform in bits 1 to 3, pitch      |
    /// |             | modulation sensitivity in bits 4 to 6                  |
    /// | 117         | transpose                                              |
    /// | 118 to 127  | name                                                   |
    #[verifier::opaque]
    pub open spec fn packed(data: Seq<u8>) -> Seq<u8> {
        let lfo = Lfo::packed(data.subrange(137, 143));
        Self::operators_packed(data, 6) + data.subrange(126, 134) + seq![
            data[134],
            joined(data[135], 3, data[136], 1),
        ] + lfo.subrange(0, 4) + seq![with_field(lfo[4], 4, 3, data[143]), data[144]]
            + data.subrange(145, 155)
    }

    /// The unpacked form of the 128 packed bytes.
    #[verifier::opaque]
    pub open spec fn unpacked(data: Seq<u8>) -> Seq<u8> {
        Self::operators_unpacked(data, 6) + data.subrange(102, 110) + seq![
            data[110],
            field(data[111], 0, 3),
            field(data[111], 3, 1),
        ] + Lfo::unpacked(data.subrange(112, 117)) + seq![field(data[116], 4, 3), data[117]]
            + data.subrange(118, 128)
    }

    /// The voice that unpacked data stands for.
    #[verifier::opaque]
    pub open spec fn read(data: Seq<u8>) -> Self {
        Voice {
            operators: [
                Operator::decoded(Self::chunk(data, 5)),
                Operator::decoded(Self::chunk(data, 4)),
                Operator::decoded(Self::chunk(data, 3)),
                Operator::decoded(Self::chunk(data, 2)),
                Operator::decoded(Self::chunk(data, 1)),
                Operator::decoded(Self::chunk(data, 0)),
            ],
            peg: Envelope::decoded(data.subrange(126, 134)),
            alg: Algorithm::of_byte(data[134]),
            feedback: Depth::of_byte(data[135]),
            osc_sync: data[136] == 1,
            lfo: Lfo::decoded(data.subrange(137, 143)),
            pitch_mod_sens: Depth::of_byte(data[143]),
            transpose: Transpose::of_byte(data[144]),
            name: VoiceName::decoded(data.subrange(145, 155)),
        }
    }

    /// The unpacked data that stands for the voice.
    #[verifier::opaque]
    pub open spec fn written(&self) -> Seq<u8> {
        Self::operators_encoded(self.operators@, 6) + self.peg.encoded() + seq![
            self.alg.byte(),
            self.feedback.byte(),
            switch_byte(self.osc_sync),
        ] + self.lfo.encoded() + seq![self.pitch_mod_sens.byte(), self.transpose.byte()]
            + self.name.encoded()
    }

    /// The voice that the instrument sets up when a voice is initialized,
    /// but with every operator silent.
    pub open spec fn initial() -> Self {
        Voice {
            operators: [
                Operator::initial(),
                Operator::initial(),
                Operator::initial(),
                Operator::initial(),
                Operator::initial(),
                Operator::initial(),
            ],
            peg: Envelope::of(seq![99, 99, 99, 99], seq![50, 50, 50, 50]),
            alg: Algorithm::of(1),
            feedback: Depth::of(0),
            osc_sync: true,
            lfo: Lfo::initial(),
            pitch_mod_sens: Depth::of(0),
            transpose: Transpose::of(0),
            name: VoiceName::decoded(seq![73, 78, 73, 84, 32, 86, 79, 73, 67, 69]),
        }
    }

    /// Creates a new voice and initializes it with the defaults of a fresh
    /// voice: `initial`, whose name is "INIT VOICE".
    pub fn new() -> (r: Self)
        ensures
            r == Self::initial(),
    {
        let name = Self::init_name();
        let voice = Self {
            operators: [
                Operator::new(),
                Operator::new(),
                Operator::new(),
                Operator::new(),
                Operator::new(),
                Operator::new(),
            ],
            peg: Envelope { levels: [Level(50), Level(50), Level(50), Level(50)], ..Envelope::new() },
            alg: Algorithm(1),
            feedback: Depth(0),
            osc_sync: true,
            lfo: Lfo::new(),
            pitch_mod_sens: Depth(0),
            transpose: Transpose(0),
            name,
        };
        proof {
            assert(voice.operators =~= Self::initial().operators);
            assert(voice.peg.rates =~= Self::initial().peg.rates);
            assert(voice.peg.levels =~= Self::initial().peg.levels);
        }
        voice
    }

    /// Whether every byte of `data` below `end` is accepted at its offset.
    pub open spec fn accepted_below(data: Seq<u8>, end: int) -> bool {
        forall|i: int| 0 <= i < end ==> #[trigger] Self::accepts(i, data[i])
    }

    /// Whether a part of `len` bytes stands at `base` in the data of a
    /// voice: at each offset of the part, the voice accepts what the part
    /// accepts there.
    pub open spec fn part_at<Part: SystemExclusiveData>(base: int, len: int) -> bool {
        forall|offset: int, byte: u8|
            base <= offset < base + len ==> #[trigger] Self::accepts(offset, byte)
                == Part::accepts(offset - base, byte)
    }

    /// Where the bytes before a part are accepted, and the part accepts its
    /// bytes, the bytes up to the end of the part are accepted.
    pub proof fn lemma_part_accepted<Part: SystemExclusiveData>(data: Seq<u8>, base: int, len: int)
        requires
            0 <= base,
            0 <= len,
            base + len <= data.len(),
            Self::accepted_below(data, base),
            forall|i: int|
                0 <= i < len ==> #[trigger] Part::accepts(i, data.subrange(base, base + len)[i]),
            Self::part_at::<Part>(base, len),
        ensures
            Self::accepted_below(data, base + len),
    {
        let part = data.subrange(base, base + len);
        assert forall|i: int| 0 <= i < base + len implies #[trigger] Self::accepts(
            i,
            data[i],
        ) by {
            if i >= base {
                assert(Part::accepts(i - base, part[i - base]));
            }
        }
    }

    /// Where the bytes before a part are accepted, the first byte that the
    /// part refuses is the first that the voice refuses.
    pub proof fn lemma_part_refused<Part: SystemExclusiveData>(
        data: Seq<u8>,
        base: int,
        len: int,
        at: int,
    )
        requires
            0 <= base,
            0 <= len,
            base + len <= data.len(),
            Self::accepted_below(data, base),
            0 <= at < len,
            !Part::accepts(at, data.subrange(base, base + len)[at]),
            forall|i: int|
                0 <= i < at ==> #[trigger] Part::accepts(i, data.subrange(base, base + len)[i]),
            Self::part_at::<Part>(base, len),
        ensures
            Self::first_refused(data, base + at),
    {
        let part = data.subrange(base, base + len);
        assert(part[at] == data[base + at]);
        assert forall|i: int| 0 <= i < base + at implies #[trigger] Self::accepts(i, data[i]) by {
            if i >= base {
                assert(Part::accepts(i - base, part[i - base]));
            }
        }
    }

    /// The parts of accepted data are accepted.
    pub proof fn lemma_whole_accepted<Part: SystemExclusiveData>(data: Seq<u8>, base: int, len: int)
        requires
            0 <= base,
            0 <= len,
            base + len <= data.len(),
            Self::all_accepted(data),
            Self::part_at::<Part>(base, len),
        ensures
            forall|i: int|
                0 <= i < len ==> #[trigger] Part::accepts(i, data.subrange(base, base + len)[i]),
    {
        let part = data.subrange(base, base + len);
        assert forall|i: int| 0 <= i < len implies #[trigger] Part::accepts(i, part[i]) by {
            assert(Self::accepts(base + i, data[base + i]));
        }
    }

    /// Where each part of a voice stands in its data.
    pub proof fn lemma_parts()
        ensures
            forall|k: int| 0 <= k < 6 ==> #[trigger] Self::part_at::<Operator>(21 * k, 21),
            Self::part_at::<Envelope>(126, 8),
            Self::part_at::<Lfo>(137, 6),
            Self::part_at::<VoiceName>(145, 10),
    {
        assert forall|k: int| 0 <= k < 6 implies #[trigger] Self::part_at::<Operator>(
            21 * k,
            21,
        ) by {
            assert forall|offset: int, byte: u8|
                21 * k <= offset < 21 * k + 21 implies #[trigger] Self::accepts(offset, byte)
                == Operator::accepts(offset - 21 * k, byte) by {
                assert(offset % 21 == offset - 21 * k);
            }
        }
    }

    /// Reads the six operators from the first 126 bytes of a voice.
    fn parse_operators(data: &[u8]) -> (r: Result<[Operator; 6], ParseError>)
        requires
            data@.len() == 155,
        ensures
            match r {
                Ok(operators) => Self::accepted_below(data@, 126) && operators
                    == Self::decoded(data@).operators,
                Err(e) => exists|at: int| #[trigger]
                    Self::first_refused(data@, at) && e == ParseError::InvalidData(at as u32),
            },
    {
        proof {
            reveal(Voice::read);
            Operator::lemma_data_size();
            Self::lemma_parts();
        }
        let mut operators: [Operator; 6] = [Operator::new();6];
        let mut k: usize = 0;
        while k < 6
            invariant
                k <= 6,
                data@.len() == 155,
                Operator::DATA_SIZE == 21,
                forall|k: int| 0 <= k < 6 ==> #[trigger] Self::part_at::<Operator>(21 * k, 21),
                Self::accepted_below(data@, 21 * k),
                forall|j: int|
                    0 <= j < k ==> operators[5 - j] == Operator::decoded(Self::chunk(data@, j)),
            decreases 6 - k,
        {
            assert(Self::part_at::<Operator>(21 * k, 21));
            match Operator::parse(&data[21 * k..21 * k + 21]) {
                Ok(operator) => {
                    operators[5 - k] = operator;
                    proof {
                        Self::lemma_part_accepted::<Operator>(data@, 21 * k, 21);
                    }
                },
                Err(e) => {
                    proof {
                        let at = choose|at: int| #[trigger]
                            Operator::first_refused(Self::chunk(data@, k as int), at) && e
                                == ParseError::InvalidData(at as u32);
                        Self::lemma_part_refused::<Operator>(data@, 21 * k, 21, at);
                    }
                    return Err(e.at((21 * k) as u32));
                },
            }
            k += 1;
        }
        proof {
            assert(operators =~= Self::decoded(data@).operators);
        }
        Ok(operators)
    }

    /// The data of the first `count` operators is `21 * count` bytes long,
    /// and its `k`-th chunk is the data of operator `5 - k`.
    pub proof fn lemma_operators_encoded_upto(operators: Seq<Operator>, count: int)
        requires
            operators.len() == 6,
            0 <= count <= 6,
        ensures
            Self::operators_encoded(operators, count).len() == 21 * count,
            forall|k: int|
                0 <= k < count ==> #[trigger] Self::chunk(
                    Self::operators_encoded(operators, count),
                    k,
                ) == operators[5 - k].encoded(),
        decreases count,
    {
        if count > 0 {
            Self::lemma_operators_encoded_upto(operators, count - 1);
            let before = Self::operators_encoded(operators, count - 1);
            let last = operators[6 - count].encoded();
            let all = Self::operators_encoded(operators, count);
            assert(all == before + last);
            assert(last.len() == 21);
            assert forall|k: int| 0 <= k < count implies #[trigger] Self::chunk(all, k)
                == operators[5 - k].encoded() by {
                if k < count - 1 {
                    assert(Self::chunk(all, k) =~= Self::chunk(before, k));
                } else {
                    assert(Self::chunk(all, k) =~= last);
                }
            }
        }
    }

    /// The data of six operators is 126 bytes long, and its `k`-th chunk is
    /// the data of operator `5 - k`.
    pub proof fn lemma_operators_encoded(operators: Seq<Operator>)
        requires
            operators.len() == 6,
        ensures
            Self::operators_encoded(operators, 6).len() == 126,
            forall|k: int|
                0 <= k < 6 ==> #[trigger] Self::chunk(Self::operators_encoded(operators, 6), k)
                    == operators[5 - k].encoded(),
    {
        Self::lemma_operators_encoded_upto(operators, 6);
    }

    /// The packed form of the first `count` operators is `17 * count` bytes
    /// long, and its `k`-th chunk is the packed form of the `k`-th chunk of
    /// the data.
    pub proof fn lemma_operators_packed_upto(data: Seq<u8>, count: int)
        requires
            0 <= count,
            data.len() >= 21 * count,
        ensures
            Self::operators_packed(data, count).len() == 17 * count,
            forall|k: int|
                0 <= k < count ==> #[trigger] Self::packed_chunk(
                    Self::operators_packed(data, count),
                    k,
                ) == Operator::packed(Self::chunk(data, k)),
        decreases count,
    {
        if count > 0 {
            Self::lemma_operators_packed_upto(data, count - 1);
            let before = Self::operators_packed(data, count - 1);
            let last = Operator::packed(Self::chunk(data, count - 1));
            let all = Self::operators_packed(data, count);
            assert(all == before + last);
            assert(last.len() == 17);
            assert forall|k: int| 0 <= k < count implies #[trigger] Self::packed_chunk(all, k)
                == Operator::packed(Self::chunk(data, k)) by {
                if k < count - 1 {
                    assert(Self::packed_chunk(all, k) =~= Self::packed_chunk(before, k));
                } else {
                    assert(Self::packed_chunk(all, k) =~= last);
                }
            }
        }
    }

    /// The packed operators of a voice are 102 bytes long, and their `k`-th
    /// chunk is the packed form of the `k`-th chunk of the data.
    pub proof fn lemma_operators_packed(data: Seq<u8>)
        requires
            data.len() >= 126,
        ensures
            Self::operators_packed(data, 6).len() == 102,
            forall|k: int|
                0 <= k < 6 ==> #[trigger] Self::packed_chunk(Self::operators_packed(data, 6), k)
                    == Operator::packed(Self::chunk(data, k)),
    {
        Self::lemma_operators_packed_upto(data, 6);
    }

    /// The unpacked form of the first `count` operators is `21 * count`
    /// bytes long, and its `k`-th chunk is the unpacked form of the `k`-th
    /// chunk of the packed data.
    pub proof fn lemma_operators_unpacked_upto(data: Seq<u8>, count: int)
        requires
            0 <= count,
            data.len() >= 17 * count,
        ensures
            Self::operators_unpacked(data, count).len() == 21 * count,
            forall|k: int|
                0 <= k < count ==> #[trigger] Self::chunk(
                    Self::operators_unpacked(data, count),
                    k,
                ) == Operator::unpacked(Self::packed_chunk(data, k)),
        decreases count,
    {
        if count > 0 {
            Self::lemma_operators_unpacked_upto(data, count - 1);
            let before = Self::operators_unpacked(data, count - 1);
            let last = Operator::unpacked(Self::packed_chunk(data, count - 1));
            let all = Self::operators_unpacked(data, count);
            assert(all == before + last);
            assert(last.len() == 21);
            assert forall|k: int| 0 <= k < count implies #[trigger] Self::chunk(all, k)
                == Operator::unpacked(Self::packed_chunk(data, k)) by {
                if k < count - 1 {
                    assert(Self::chunk(all, k) =~= Self::chunk(before, k));
                } else {
                    assert(Self::chunk(all, k) =~= last);
                }
            }
        }
    }

    /// The unpacked operators of a voice are 126 bytes long, and their
    /// `k`-th chunk is the unpacked form of the `k`-th chunk of the packed
    /// data.
    pub proof fn lemma_operators_unpacked(data: Seq<u8>)
        requires
            data.len() >= 102,
        ensures
            Self::operators_unpacked(data, 6).len() == 126,
            forall|k: int|
                0 <= k < 6 ==> #[trigger] Self::chunk(Self::operators_unpacked(data, 6), k)
                    == Operator::unpacked(Self::packed_chunk(data, k)),
    {
        Self::lemma_operators_unpacked_upto(data, 6);
    }

    /// Two runs of bytes of one length are equal where their chunks of 21
    /// bytes are.
    pub proof fn lemma_equal_by_chunks(a: Seq<u8>, b: Seq<u8>, count: int, width: int)
        requires
            0 <= count,
            0 < width,
            a.len() == count * width,
            b.len() == count * width,
            forall|k: int|
                0 <= k < count ==> #[trigger] a.subrange(k * width, k * width + width)
                    == b.subrange(k * width, k * width + width),
        ensures
            a == b,
    {
        assert forall|i: int| 0 <= i < a.len() implies a[i] == b[i] by {
            let k = i / width;
            assert(0 <= k < count && k * width <= i < k * width + width) by (nonlinear_arith)
                requires
                    0 <= i < count * width,
                    0 < width,
                    k == i / width,
            ;
            assert(k * width + width <= count * width) by (nonlinear_arith)
                requires
                    0 <= k < count,
                    0 < width,
            ;
            let ca = a.subrange(k * width, k * width + width);
            let cb = b.subrange(k * width, k * width + width);
            assert(ca[i - k * width] == a[i]);
            assert(cb[i - k * width] == b[i]);
        }
        assert(a =~= b);
    }

    /// Whether two runs of 155 bytes agree part by part, as the parts of a
    /// voice stand in its data.
    pub open spec fn same_parts(a: Seq<u8>, b: Seq<u8>) -> bool {
        &&& forall|k: int| 0 <= k < 6 ==> #[trigger] Self::chunk(a, k) == Self::chunk(b, k)
        &&& a.subrange(126, 134) == b.subrange(126, 134)
        &&& a[134] == b[134]
        &&& a[135] == b[135]
        &&& a[136] == b[136]
        &&& a.subrange(137, 143) == b.subrange(137, 143)
        &&& a[143] == b[143]
        &&& a[144] == b[144]
        &&& a.subrange(145, 155) == b.subrange(145, 155)
    }

    /// Whether two runs of 128 bytes agree part by part, as the parts of a
    /// voice stand in its packed data.
    pub open spec fn same_packed_parts(a: Seq<u8>, b: Seq<u8>) -> bool {
        &&& forall|k: int|
            0 <= k < 6 ==> #[trigger] Self::packed_chunk(a, k) == Self::packed_chunk(b, k)
        &&& a.subrange(102, 110) == b.subrange(102, 110)
        &&& a[110] == b[110]
        &&& a[111] == b[111]
        &&& a.subrange(112, 116) == b.subrange(112, 116)
        &&& a[116] == b[116]
        &&& a[117] == b[117]
        &&& a.subrange(118, 128) == b.subrange(118, 128)
    }

    /// Data that agrees part by part is the same data.
    pub proof fn lemma_same_parts(a: Seq<u8>, b: Seq<u8>)
        requires
            a.len() == 155,
            b.len() == 155,
            Self::same_parts(a, b),
        ensures
            a == b,
    {
        assert forall|i: int| 0 <= i < 155 implies a[i] == b[i] by {
            if i < 126 {
                let k = i / 21;
                assert(Self::chunk(a, k)[i - 21 * k] == a[i]);
                assert(Self::chunk(b, k)[i - 21 * k] == b[i]);
            } else if i < 134 {
                assert(a.subrange(126, 134)[i - 126] == a[i]);
                assert(b.subrange(126, 134)[i - 126] == b[i]);
            } else if i < 137 {
            } else if i < 143 {
                assert(a.subrange(137, 143)[i - 137] == a[i]);
                assert(b.subrange(137, 143)[i - 137] == b[i]);
            } else if i < 145 {
            } else {
                assert(a.subrange(145, 155)[i - 145] == a[i]);
                assert(b.subrange(145, 155)[i - 145] == b[i]);
            }
        }
        assert(a =~= b);
    }

    /// Packed data that agrees part by part is the same data.
    pub proof fn lemma_same_packed_parts(a: Seq<u8>, b: Seq<u8>)
        requires
            a.len() == 128,
            b.len() == 128,
            Self::same_packed_parts(a, b),
        ensures
            a == b,
    {
        assert forall|i: int| 0 <= i < 128 implies a[i] == b[i] by {
            if i < 102 {
                let k = i / 17;
                assert(Self::packed_chunk(a, k)[i - 17 * k] == a[i]);
                assert(Self::packed_chunk(b, k)[i - 17 * k] == b[i]);
            } else if i < 110 {
                assert(a.subrange(102, 110)[i - 102] == a[i]);
                assert(b.subrange(102, 110)[i - 102] == b[i]);
            } else if i < 112 {
            } else if i < 116 {
                assert(a.subrange(112, 116)[i - 112] == a[i]);
                assert(b.subrange(112, 116)[i - 112] == b[i]);
            } else if i < 118 {
            } else {
                assert(a.subrange(118, 128)[i - 118] == a[i]);
                assert(b.subrange(118, 128)[i - 118] == b[i]);
            }
        }
        assert(a =~= b);
    }

    /// Where each part of a voice stands in its data.
    pub proof fn lemma_encoded_parts(voice: Self)
        ensures
            voice.encoded().len() == 155,
            forall|k: int|
                0 <= k < 6 ==> #[trigger] Self::chunk(voice.encoded(), k) == voice.operators[5
                    - k].encoded(),
            voice.encoded().subrange(126, 134) == voice.peg.encoded(),
            voice.encoded()[134] == voice.alg.byte(),
            voice.encoded()[135] == voice.feedback.byte(),
            voice.encoded()[136] == switch_byte(voice.osc_sync),
            voice.encoded().subrange(137, 143) == voice.lfo.encoded(),
            voice.encoded()[143] == voice.pitch_mod_sens.byte(),
            voice.encoded()[144] == voice.transpose.byte(),
            voice.encoded().subrange(145, 155) == voice.name.encoded(),
    {
        reveal(Voice::written);
        let data = voice.encoded();
        let operators = Self::operators_encoded(voice.operators@, 6);
        Self::lemma_operators_encoded(voice.operators@);
        assert(data.subrange(126, 134) =~= voice.peg.encoded());
        assert(data.subrange(137, 143) =~= voice.lfo.encoded());
        assert(data.subrange(145, 155) =~= voice.name.encoded());
        assert forall|k: int| 0 <= k < 6 implies #[trigger] Self::chunk(data, k) == voice.operators[5
            - k].encoded() by {
            assert(Self::chunk(data, k) =~= Self::chunk(operators, k));
        }
    }

    /// Where each part of a voice stands in packed data, and what it holds.
    pub proof fn lemma_packed_parts(data: Seq<u8>)
        requires
            data.len() == 155,
        ensures
            Self::packed(data).len() == 128,
            forall|k: int|
                0 <= k < 6 ==> #[trigger] Self::packed_chunk(Self::packed(data), k)
                    == Operator::packed(Self::chunk(data, k)),
            Self::packed(data).subrange(102, 110) == data.subrange(126, 134),
            Self::packed(data)[110] == data[134],
            Self::packed(data)[111] == joined(data[135], 3, data[136], 1),
            Self::packed(data).subrange(112, 116) == data.subrange(137, 141),
            Self::packed(data)[116] == with_field(
                joined(data[141], 1, data[142], 3),
                4,
                3,
                data[143],
            ),
            Self::packed(data)[117] == data[144],
            Self::packed(data).subrange(118, 128) == data.subrange(145, 155),
    {
        reveal(Voice::packed);
        let packed = Self::packed(data);
        let operators = Self::operators_packed(data, 6);
        Self::lemma_operators_packed(data);
        assert(packed.subrange(102, 110) =~= data.subrange(126, 134));
        assert(packed.subrange(112, 116) =~= data.subrange(137, 141));
        assert(packed.subrange(118, 128) =~= data.subrange(145, 155));
        assert forall|k: int| 0 <= k < 6 implies #[trigger] Self::packed_chunk(packed, k)
            == Operator::packed(Self::chunk(data, k)) by {
            assert(Self::packed_chunk(packed, k) =~= Self::packed_chunk(operators, k));
        }
    }

    /// Where each part of a voice stands in unpacked data, and where it
    /// comes from.
    pub proof fn lemma_unpacked_parts(data: Seq<u8>)
        requires
            data.len() == 128,
        ensures
            Self::unpacked(data).len() == 155,
            forall|k: int|
                0 <= k < 6 ==> #[trigger] Self::chunk(Self::unpacked(data), k)
                    == Operator::unpacked(Self::packed_chunk(data, k)),
            Self::unpacked(data).subrange(126, 134) == data.subrange(102, 110),
            Self::unpacked(data)[134] == data[110],
            Self::unpacked(data)[135] == field(data[111], 0, 3),
            Self::unpacked(data)[136] == field(data[111], 3, 1),
            Self::unpacked(data).subrange(137, 143) == Lfo::unpacked(data.subrange(112, 117)),
            Self::unpacked(data)[143] == field(data[116], 4, 3),
            Self::unpacked(data)[144] == data[117],
            Self::unpacked(data).subrange(145, 155) == data.subrange(118, 128),
    {
        reveal(Voice::unpacked);
        let unpacked = Self::unpacked(data);
        let operators = Self::operators_unpacked(data, 6);
        Self::lemma_operators_unpacked(data);
        assert(unpacked.subrange(126, 134) =~= data.subrange(102, 110));
        assert(unpacked.subrange(137, 143) =~= Lfo::unpacked(data.subrange(112, 117)));
        assert(unpacked.subrange(145, 155) =~= data.subrange(118, 128));
        assert forall|k: int| 0 <= k < 6 implies #[trigger] Self::chunk(unpacked, k)
            == Operator::unpacked(Self::packed_chunk(data, k)) by {
            assert(Self::chunk(unpacked, k) =~= Self::chunk(operators, k));
        }
    }

    /// The data of a voice is accepted.
    pub proof fn lemma_encoded_accepted(voice: Self)
        requires
            voice.wf(),
        ensures
            voice.encoded().len() == 155,
            Self::all_accepted(voice.encoded()),
            LfoWaveform::known(voice.encoded()[142]),
    {
        let data = voice.encoded();
        Self::lemma_encoded_parts(voice);
        Self::lemma_parts();
        assert forall|i: int| 0 <= i < 126 implies #[trigger] Self::accepts(i, data[i]) by {
            let k = i / 21;
            assert(Self::part_at::<Operator>(21 * k, 21));
            Operator::lemma_decoded_encoded(voice.operators[5 - k]);
            assert(Operator::accepts(i - 21 * k, Self::chunk(data, k)[i - 21 * k]));
        }
        Envelope::lemma_decoded_encoded(voice.peg);
        Self::lemma_part_accepted::<Envelope>(data, 126, 8);
        Algorithm::lemma_value_roundtrip(voice.alg);
        Depth::lemma_value_roundtrip(voice.feedback);
        assert(Self::accepts(134, data[134]));
        assert(Self::accepts(135, data[135]));
        assert(Self::accepts(136, data[136]));
        assert(Self::accepted_below(data, 137));
        Lfo::lemma_decoded_encoded(voice.lfo);
        Self::lemma_part_accepted::<Lfo>(data, 137, 6);
        Depth::lemma_value_roundtrip(voice.pitch_mod_sens);
        Transpose::lemma_value_roundtrip(voice.transpose);
        assert(Self::accepts(143, data[143]));
        assert(Self::accepts(144, data[144]));
        assert(Self::accepted_below(data, 145));
        VoiceName::lemma_decoded_encoded(voice.name);
        Self::lemma_part_accepted::<VoiceName>(data, 145, 10);
        assert(data[142] == data.subrange(137, 143)[5]);
    }

    /// The operator that `parse` reads from the `k`-th chunk of the data of
    /// a voice is operator `5 - k` of the voice.
    proof fn lemma_decoded_operator(voice: Self, k: int)
        requires
            0 <= k < 6,
            voice.operators[5 - k].wf(),
        ensures
            Operator::decoded(Self::chunk(voice.encoded(), k)) == voice.operators[5 - k],
    {
        Self::lemma_encoded_parts(voice);
        Operator::lemma_decoded_encoded(voice.operators[5 - k]);
    }

    /// The operators that `parse` reads from the data of a voice are the
    /// operators of the voice.
    proof fn lemma_decoded_operators(voice: Self)
        requires
            forall|i: int| 0 <= i < 6 ==> (#[trigger] voice.operators[i]).wf(),
        ensures
            Self::decoded(voice.encoded()).operators == voice.operators,
    {
        let data = voice.encoded();
        assert(voice.operators[0].wf());
        assert(voice.operators[1].wf());
        assert(voice.operators[2].wf());
        assert(voice.operators[3].wf());
        assert(voice.operators[4].wf());
        assert(voice.operators[5].wf());
        Self::lemma_decoded_operator(voice, 0);
        Self::lemma_decoded_operator(voice, 1);
        Self::lemma_decoded_operator(voice, 2);
        Self::lemma_decoded_operator(voice, 3);
        Self::lemma_decoded_operator(voice, 4);
        Self::lemma_decoded_operator(voice, 5);
        let read = Self::decoded(data).operators;
        assert(read[0] == Operator::decoded(Self::chunk(data, 5))
            && read[1] == Operator::decoded(Self::chunk(data, 4))
            && read[2] == Operator::decoded(Self::chunk(data, 3))
            && read[3] == Operator::decoded(Self::chunk(data, 2))
            && read[4] == Operator::decoded(Self::chunk(data, 1))
            && read[5] == Operator::decoded(Self::chunk(data, 0))) by {
            reveal(Voice::read);
        }
        assert(read =~= voice.operators);
    }

    /// The voice with all ten characters of its name counted as the name's
    /// own: what is read back from the data of the voice.
    pub open spec fn filled(self) -> Self {
        Voice { name: self.name.filled(), ..self }
    }

    /// A voice whose name has ten characters is read back as it is.
    pub proof fn lemma_filled(voice: Self)
        requires
            voice.name.length() == 10,
        ensures
            voice.filled() == voice,
    {
        VoiceName::lemma_filled(voice.name);
    }

    /// What `to_bytes` writes, `parse` reads as the same voice, with the
    /// spaces that filled its name up read as the name's own.
    pub proof fn lemma_decoded_encoded(voice: Self)
        requires
            voice.wf(),
        ensures
            voice.encoded().len() == 155,
            Self::all_accepted(voice.encoded()),
            LfoWaveform::known(voice.encoded()[142]),
            Self::decoded(voice.encoded()) == voice.filled(),
    {
        reveal(Voice::read);
        let data = voice.encoded();
        Self::lemma_encoded_accepted(voice);
        Self::lemma_encoded_parts(voice);
        Self::lemma_decoded_operators(voice);
        Envelope::lemma_decoded_encoded(voice.peg);
        Lfo::lemma_decoded_encoded(voice.lfo);
        VoiceName::lemma_decoded_encoded(voice.name);
        Algorithm::lemma_value_roundtrip(voice.alg);
        Depth::lemma_value_roundtrip(voice.feedback);
        Depth::lemma_value_roundtrip(voice.pitch_mod_sens);
        Transpose::lemma_value_roundtrip(voice.transpose);
        let read = Self::decoded(data);
        assert(read.operators == voice.operators);
        assert(read.peg == voice.peg);
        assert(read.alg == voice.alg);
        assert(read.feedback == voice.feedback);
        assert(read.osc_sync == voice.osc_sync);
        assert(read.lfo == voice.lfo);
        assert(read.pitch_mod_sens == voice.pitch_mod_sens);
        assert(read.transpose == voice.transpose);
        assert(read.name == voice.name.filled());
    }

    /// The voice read from accepted data has every parameter in its range.
    pub proof fn lemma_decoded_wf(data: Seq<u8>)
        requires
            data.len() == 155,
            Self::all_accepted(data),
        ensures
            Self::decoded(data).wf(),
    {
        reveal(Voice::read);
        let voice = Self::decoded(data);
        Self::lemma_parts();
        assert forall|i: int| 0 <= i < 6 implies (#[trigger] voice.operators[i]).wf() by {
            let k = 5 - i;
            assert(Self::part_at::<Operator>(21 * k, 21));
            Self::lemma_whole_accepted::<Operator>(data, 21 * k, 21);
            Operator::lemma_encoded_decoded(Self::chunk(data, k));
        }
        Self::lemma_whole_accepted::<Envelope>(data, 126, 8);
        Envelope::lemma_encoded_decoded(data.subrange(126, 134));
        Self::lemma_whole_accepted::<Lfo>(data, 137, 6);
        Lfo::lemma_encoded_decoded(data.subrange(137, 143));
        Self::lemma_whole_accepted::<VoiceName>(data, 145, 10);
        VoiceName::lemma_encoded_decoded(data.subrange(145, 155));
        assert(Self::accepts(134, data[134]));
        assert(Self::accepts(135, data[135]));
        assert(Self::accepts(143, data[143]));
        assert(Self::accepts(144, data[144]));
    }

    /// What `parse` accepts, `to_bytes` writes back byte for byte, where
    /// the byte of the LFO waveform is the byte of a known one.
    pub proof fn lemma_encoded_decoded(data: Seq<u8>)
        requires
            data.len() == 155,
            Self::all_accepted(data),
            LfoWaveform::known(data[142]),
        ensures
            Self::decoded(data).wf(),
            Self::decoded(data).encoded() == data,
    {
        reveal(Voice::read);
        let voice = Self::decoded(data);
        Self::lemma_decoded_wf(data);
        Self::lemma_encoded_parts(voice);
        Self::lemma_parts();
        assert forall|k: int| 0 <= k < 6 implies #[trigger] Self::chunk(voice.encoded(), k)
            == Self::chunk(data, k) by {
            assert(Self::part_at::<Operator>(21 * k, 21));
            Self::lemma_whole_accepted::<Operator>(data, 21 * k, 21);
            Operator::lemma_encoded_decoded(Self::chunk(data, k));
            assert(voice.operators[5 - k] == Operator::decoded(Self::chunk(data, k)));
        }
        Self::lemma_whole_accepted::<Envelope>(data, 126, 8);
        Envelope::lemma_encoded_decoded(data.subrange(126, 134));
        Self::lemma_whole_accepted::<Lfo>(data, 137, 6);
        assert(data.subrange(137, 143)[5] == data[142]);
        Lfo::lemma_encoded_decoded(data.subrange(137, 143));
        Self::lemma_whole_accepted::<VoiceName>(data, 145, 10);
        VoiceName::lemma_encoded_decoded(data.subrange(145, 155));
        assert(Self::accepts(134, data[134]));
        assert(Self::accepts(135, data[135]));
        assert(Self::accepts(136, data[136]));
        assert(Self::accepts(143, data[143]));
        assert(Self::accepts(144, data[144]));
        Algorithm::lemma_byte_roundtrip(data[134]);
        Depth::lemma_byte_roundtrip(data[135]);
        Depth::lemma_byte_roundtrip(data[143]);
        Transpose::lemma_byte_roundtrip(data[144]);
        assert(Self::same_parts(voice.encoded(), data));
        Self::lemma_same_parts(voice.encoded(), data);
    }

    /// Whether each byte of unpacked data that shares a packed byte with
    /// another fits the bits it has there.
    pub open spec fn packable(data: Seq<u8>) -> bool {
        &&& forall|k: int| 0 <= k < 6 ==> Operator::packable(#[trigger] Self::chunk(data, k))
        &&& fits(data[135], 3)
        &&& fits(data[136], 1)
        &&& fits(data[141], 1)
        &&& fits(data[142], 3)
        &&& fits(data[143], 3)
    }

    /// Whether the bits of packed data that hold no parameter are clear, as
    /// `pack` leaves them.
    pub open spec fn tidy(data: Seq<u8>) -> bool {
        &&& forall|k: int| 0 <= k < 6 ==> Operator::tidy(#[trigger] Self::packed_chunk(data, k))
        &&& field(data[111], 4, 4) == 0
        &&& field(data[116], 7, 1) == 0
    }

    /// Data that `parse` accepts loses nothing when packed, where the byte
    /// of the LFO waveform fits its three bits.
    pub proof fn lemma_accepted_packable(data: Seq<u8>)
        requires
            data.len() == 155,
            Self::all_accepted(data),
            fits(data[142], 3),
        ensures
            Self::packable(data),
    {
        Self::lemma_parts();
        assert forall|k: int| 0 <= k < 6 implies Operator::packable(
            #[trigger] Self::chunk(data, k),
        ) by {
            assert(Self::part_at::<Operator>(21 * k, 21));
            Self::lemma_whole_accepted::<Operator>(data, 21 * k, 21);
            Operator::lemma_accepted_packable(Self::chunk(data, k));
        }
        assert(Self::accepts(135, data[135]));
        assert(Self::accepts(136, data[136]));
        assert(Self::accepts(141, data[141]));
        assert(Self::accepts(143, data[143]));
    }

    /// The packed byte of feedback and oscillator sync gives both back.
    proof fn lemma_byte_111(feedback: u8, sync: u8)
        requires
            fits(feedback, 3),
            fits(sync, 1),
        ensures
            field(joined(feedback, 3, sync, 1), 0, 3) == feedback,
            field(joined(feedback, 3, sync, 1), 3, 1) == sync,
            field(joined(feedback, 3, sync, 1), 4, 4) == 0,
            joined(feedback, 3, sync, 1) == feedback + 8 * sync,
    {
        lemma_joined_fitting(feedback, 3, sync, 1);
        lemma_joined_above(feedback, 3, sync, 1, 4, 4);
    }

    /// The packed byte of LFO sync, waveform and pitch modulation
    /// sensitivity gives all three back.
    proof fn lemma_byte_116(sync: u8, waveform: u8, sensitivity: u8)
        requires
            fits(sync, 1),
            fits(waveform, 3),
            fits(sensitivity, 3),
        ensures
            field(with_field(joined(sync, 1, waveform, 3), 4, 3, sensitivity), 0, 1) == sync,
            field(with_field(joined(sync, 1, waveform, 3), 4, 3, sensitivity), 1, 3) == waveform,
            field(with_field(joined(sync, 1, waveform, 3), 4, 3, sensitivity), 4, 3)
                == sensitivity,
            field(with_field(joined(sync, 1, waveform, 3), 4, 3, sensitivity), 7, 1) == 0,
    {
        let low = joined(sync, 1, waveform, 3);
        lemma_joined_fitting(sync, 1, waveform, 3);
        lemma_joined_above(sync, 1, waveform, 3, 7, 1);
        lemma_with_field(low, 4, 3, sensitivity);
        lemma_fits_field(sensitivity, 3);
        lemma_with_field_beside(low, 4, 3, sensitivity, 0, 1);
        lemma_with_field_beside(low, 4, 3, sensitivity, 1, 3);
        lemma_with_field_beside(low, 4, 3, sensitivity, 7, 1);
    }

    /// The packed byte of LFO sync, waveform and pitch modulation
    /// sensitivity is the sum of the three by the weights of their bits.
    proof fn lemma_byte_116_sum(sync: u8, waveform: u8, sensitivity: u8)
        by (bit_vector)
        requires
            fits(sync, 1),
            fits(waveform, 3),
            fits(sensitivity, 3),
        ensures
            with_field(joined(sync, 1, waveform, 3), 4, 3, sensitivity) as u32 == (sync as u32
                + 2 * waveform as u32 + 16 * sensitivity as u32) as u32,
    {
    }

    /// Whatever is packed into the byte of LFO sync, waveform and pitch
    /// modulation sensitivity, its bit 7 stays clear.
    proof fn lemma_byte_116_tidy(sync: u8, waveform: u8, sensitivity: u8)
        by (bit_vector)
        ensures
            field(with_field(joined(sync, 1, waveform, 3), 4, 3, sensitivity), 7, 1) == 0,
    {
    }

    /// A byte whose bits 4 to 7 are clear is put together again from its
    /// bits 0 to 2 and its bit 3.
    proof fn lemma_byte_111_back(byte: u8)
        by (bit_vector)
        requires
            field(byte, 4, 4) == 0,
        ensures
            joined(field(byte, 0, 3), 3, field(byte, 3, 1), 1) == byte,
            fits(field(byte, 0, 3), 3),
            fits(field(byte, 3, 1), 1),
    {
    }

    /// A byte whose bit 7 is clear is put together again from its bit 0,
    /// its bits 1 to 3 and its bits 4 to 6.
    proof fn lemma_byte_116_back(byte: u8)
        by (bit_vector)
        requires
            field(byte, 7, 1) == 0,
        ensures
            with_field(
                joined(field(byte, 0, 1), 1, field(byte, 1, 3), 3),
                4,
                3,
                field(byte, 4, 3),
            ) == byte,
            fits(field(byte, 0, 1), 1),
            fits(field(byte, 1, 3), 3),
            fits(field(byte, 4, 3), 3),
    {
    }

    /// `lemma_unpacked_packed` for what a voice holds besides its operators.
    proof fn lemma_unpacked_packed_rest(data: Seq<u8>)
        requires
            data.len() == 155,
            fits(data[135], 3),
            fits(data[136], 1),
            fits(data[141], 1),
            fits(data[142], 3),
            fits(data[143], 3),
        ensures
            Self::unpacked(Self::packed(data)).subrange(126, 134) == data.subrange(126, 134),
            Self::unpacked(Self::packed(data))[134] == data[134],
            Self::unpacked(Self::packed(data))[135] == data[135],
            Self::unpacked(Self::packed(data))[136] == data[136],
            Self::unpacked(Self::packed(data)).subrange(137, 143) == data.subrange(137, 143),
            Self::unpacked(Self::packed(data))[143] == data[143],
            Self::unpacked(Self::packed(data))[144] == data[144],
            Self::unpacked(Self::packed(data)).subrange(145, 155) == data.subrange(145, 155),
    {
        let packed = Self::packed(data);
        Self::lemma_packed_parts(data);
        Self::lemma_unpacked_parts(packed);
        Self::lemma_byte_111(data[135], data[136]);
        Self::lemma_byte_116(data[141], data[142], data[143]);
        let back = Self::unpacked(packed);
        let lfo = packed.subrange(112, 117);
        assert(lfo[4] == packed[116]);
        assert forall|i: int| 0 <= i < 4 implies lfo[i] == data[137 + i] by {
            assert(packed.subrange(112, 116)[i] == data.subrange(137, 141)[i]);
        }
        assert(Lfo::unpacked(lfo) =~= data.subrange(137, 143));
    }

    /// `lemma_packed_unpacked` for what a voice holds besides its operators.
    proof fn lemma_packed_unpacked_rest(data: Seq<u8>)
        requires
            data.len() == 128,
            field(data[111], 4, 4) == 0,
            field(data[116], 7, 1) == 0,
        ensures
            fits(Self::unpacked(data)[135], 3),
            fits(Self::unpacked(data)[136], 1),
            fits(Self::unpacked(data)[141], 1),
            fits(Self::unpacked(data)[142], 3),
            fits(Self::unpacked(data)[143], 3),
            Self::packed(Self::unpacked(data)).subrange(102, 110) == data.subrange(102, 110),
            Self::packed(Self::unpacked(data))[110] == data[110],
            Self::packed(Self::unpacked(data))[111] == data[111],
            Self::packed(Self::unpacked(data)).subrange(112, 116) == data.subrange(112, 116),
            Self::packed(Self::unpacked(data))[116] == data[116],
            Self::packed(Self::unpacked(data))[117] == data[117],
            Self::packed(Self::unpacked(data)).subrange(118, 128) == data.subrange(118, 128),
    {
        let unpacked = Self::unpacked(data);
        Self::lemma_unpacked_parts(data);
        Self::lemma_packed_parts(unpacked);
        Self::lemma_byte_111_back(data[111]);
        Self::lemma_byte_116_back(data[116]);
        let back = Self::packed(unpacked);
        let lfo = unpacked.subrange(137, 143);
        assert(lfo[4] == unpacked[141]);
        assert(lfo[5] == unpacked[142]);
        assert(data.subrange(112, 117)[4] == data[116]);
        assert forall|i: int| 0 <= i < 4 implies back.subrange(112, 116)[i] == data.subrange(
            112,
            116,
        )[i] by {
            assert(unpacked.subrange(137, 141)[i] == lfo[i]);
            assert(data.subrange(112, 117)[i] == data[112 + i]);
        }
        assert(back.subrange(112, 116) =~= data.subrange(112, 116));
    }

    /// Unpacking what was packed gives the bytes back, where each byte that
    /// shares a packed byte fits its bits.
    pub proof fn lemma_unpacked_packed(data: Seq<u8>)
        requires
            data.len() == 155,
            Self::packable(data),
        ensures
            Self::packed(data).len() == 128,
            Self::unpacked(Self::packed(data)) == data,
    {
        let packed = Self::packed(data);
        Self::lemma_packed_parts(data);
        Self::lemma_unpacked_parts(packed);
        Self::lemma_unpacked_packed_rest(data);
        let back = Self::unpacked(packed);
        assert forall|k: int| 0 <= k < 6 implies #[trigger] Self::chunk(back, k) == Self::chunk(
            data,
            k,
        ) by {
            assert(Self::chunk(back, k) == Operator::unpacked(Self::packed_chunk(packed, k)));
            assert(Operator::packable(Self::chunk(data, k)));
            Operator::lemma_unpacked_packed(Self::chunk(data, k));
        }
        Self::lemma_same_parts(back, data);
    }

    /// Packing what was unpacked gives the bytes back, where the packed
    /// bytes were tidy.
    pub proof fn lemma_packed_unpacked(data: Seq<u8>)
        requires
            data.len() == 128,
            Self::tidy(data),
        ensures
            Self::unpacked(data).len() == 155,
            Self::packable(Self::unpacked(data)),
            Self::packed(Self::unpacked(data)) == data,
    {
        let unpacked = Self::unpacked(data);
        Self::lemma_unpacked_parts(data);
        Self::lemma_packed_parts(unpacked);
        Self::lemma_packed_unpacked_rest(data);
        let back = Self::packed(unpacked);
        assert forall|k: int| 0 <= k < 6 implies Operator::packable(
            #[trigger] Self::chunk(unpacked, k),
        ) && #[trigger] Self::packed_chunk(back, k) == Self::packed_chunk(data, k) by {
            assert(Operator::tidy(Self::packed_chunk(data, k)));
            Operator::lemma_packed_unpacked(Self::packed_chunk(data, k));
            assert(Self::packed_chunk(back, k) == Operator::packed(Self::chunk(unpacked, k)));
        }
        Self::lemma_same_packed_parts(back, data);
    }

    /// Whatever is packed is tidy.
    pub proof fn lemma_packed_tidy(data: Seq<u8>)
        requires
            data.len() == 155,
        ensures
            Self::tidy(Self::packed(data)),
    {
        let packed = Self::packed(data);
        Self::lemma_packed_parts(data);
        assert forall|k: int| 0 <= k < 6 implies Operator::tidy(
            #[trigger] Self::packed_chunk(packed, k),
        ) by {
            Operator::lemma_packed_unpacked_packed(Self::chunk(data, k));
        }
        lemma_joined_above(data[135], 3, data[136], 1, 4, 4);
        Self::lemma_byte_116_tidy(data[141], data[142], data[143]);
    }

    /// What `to_packed_bytes` writes is accepted and tidy, holds a known
    /// LFO waveform, and is read by `from_packed_bytes` as the same voice,
    /// with the spaces that filled its name up read as the name's own.
    pub proof fn lemma_packed_decoded(voice: Self)
        requires
            voice.wf(),
        ensures
            Self::packed(voice.encoded()).len() == 128,
            Self::all_packed_accepted(Self::packed(voice.encoded())),
            Self::tidy(Self::packed(voice.encoded())),
            LfoWaveform::known(field(Self::packed(voice.encoded())[116], 1, 3)),
            Self::decoded(Self::unpacked(Self::packed(voice.encoded()))) == voice.filled(),
    {
        let data = voice.encoded();
        let packed = Self::packed(data);
        Self::lemma_decoded_encoded(voice);
        Level::lemma_value_roundtrip(voice.lfo.speed);
        assert(fits(data[142], 3));
        Self::lemma_accepted_packable(data);
        Self::lemma_unpacked_packed(data);
        Self::lemma_unpacked_accepted(packed);
        Self::lemma_packed_tidy(data);
        Self::lemma_packed_parts(data);
        Self::lemma_byte_116(data[141], data[142], data[143]);
    }

    /// Packed data that is accepted and tidy, with a known LFO waveform, is
    /// read as a voice that is written back as the same data.
    pub proof fn lemma_decoded_packed(data: Seq<u8>)
        requires
            data.len() == 128,
            Self::all_packed_accepted(data),
            Self::tidy(data),
            LfoWaveform::known(field(data[116], 1, 3)),
        ensures
            Self::decoded(Self::unpacked(data)).wf(),
            Self::packed(Self::decoded(Self::unpacked(data)).encoded()) == data,
    {
        let unpacked = Self::unpacked(data);
        Self::lemma_packed_accepted(data);
        Self::lemma_unpacked_parts(data);
        assert(unpacked.subrange(137, 143)[5] == unpacked[142]);
        assert(data.subrange(112, 117)[4] == data[116]);
        assert(unpacked[142] == field(data[116], 1, 3));
        Self::lemma_encoded_decoded(unpacked);
        Self::lemma_packed_unpacked(data);
    }

    /// A voice is determined by its packed data, but for how many of the
    /// spaces at the end of its name are the name's own.
    pub proof fn lemma_packed_injective(a: Self, b: Self)
        requires
            a.wf(),
            b.wf(),
            Self::packed(a.encoded()) == Self::packed(b.encoded()),
        ensures
            a.filled() == b.filled(),
    {
        Self::lemma_packed_decoded(a);
        Self::lemma_packed_decoded(b);
    }

    /// The data of a voice comes back unchanged from the packed form.
    pub proof fn lemma_pack_roundtrip(voice: Self)
        requires
            voice.wf(),
        ensures
            Self::unpacked(Self::packed(voice.encoded())) == voice.encoded(),
    {
        Self::lemma_encoded_accepted(voice);
        Self::lemma_accepted_packable(voice.encoded());
        Self::lemma_unpacked_packed(voice.encoded());
    }

    /// The voice as text: its name, a line for each operator from OP1 to
    /// OP6, and a line each for the pitch envelope, for algorithm, feedback
    /// and oscillator sync, for the LFO and for the transpose.
    pub open spec fn text(&self) -> Seq<char> {
        self.name.text() + "\nOP1: "@ + self.operators[0].text() + "\nOP2: "@
            + self.operators[1].text() + "\nOP3: "@ + self.operators[2].text() + "\nOP4: "@
            + self.operators[3].text() + "\nOP5: "@ + self.operators[4].text() + "\nOP6: "@
            + self.operators[5].text() + "\nPEG: "@ + self.peg.text() + "\nALG: "@
            + self.alg.text() + ", feedback = "@ + self.feedback.text() + ", osc sync = "@
            + switch_text(self.osc_sync) + "\nLFO: "@ + self.lfo.text() + "\nTranspose: "@
            + self.transpose.text()
    }

    /// The voice as text.
    pub fn to_string(&self) -> (r: String)
        ensures
            r@ == self.text(),
    {
        let mut s = self.name.value();
        push_text(&mut s, "\nOP1: ");
        push_text(&mut s, self.operators[0].to_string().as_str());
        push_text(&mut s, "\nOP2: ");
        push_text(&mut s, self.operators[1].to_string().as_str());
        push_text(&mut s, "\nOP3: ");
        push_text(&mut s, self.operators[2].to_string().as_str());
        push_text(&mut s, "\nOP4: ");
        push_text(&mut s, self.operators[3].to_string().as_str());
        push_text(&mut s, "\nOP5: ");
        push_text(&mut s, self.operators[4].to_string().as_str());
        push_text(&mut s, "\nOP6: ");
        push_text(&mut s, self.operators[5].to_string().as_str());
        push_text(&mut s, "\nPEG: ");
        push_text(&mut s, self.peg.to_string().as_str());
        push_text(&mut s, "\nALG: ");
        push_text(&mut s, self.alg.to_string().as_str());
        push_text(&mut s, ", feedback = ");
        push_text(&mut s, self.feedback.to_string().as_str());
        push_text(&mut s, ", osc sync = ");
        push_switch(&mut s, self.osc_sync);
        push_text(&mut s, "\nLFO: ");
        push_text(&mut s, self.lfo.to_string().as_str());
        push_text(&mut s, "\nTranspose: ");
        push_text(&mut s, self.transpose.to_string().as_str());
        assert(s@ =~= self.text());
        s
    }

    /// Pack the voice data to use in a cartridge. A byte that shares a
    /// packed byte with another gives its low bits only, as many as it has
    /// room for.
    pub fn pack(data: &[u8]) -> (r: Vec<u8>)
        requires
            data@.len() == 155,
        ensures
            r@ == Self::packed(data@),
            r@.len() == 128,
    {
        let mut result: Vec<u8> = Vec::new();
        let mut k: usize = 0;
        while k < 6
            invariant
                k <= 6,
                data@.len() == 155,
                result@ == Self::operators_packed(data@, k as int),
                result@.len() == 17 * k,
            decreases 6 - k,
        {
            let mut operator = Operator::pack(&data[21 * k..21 * k + 21]);
            result.append(&mut operator);
            k += 1;
        }
        result.extend_from_slice(&data[126..134]);
        result.push(data[134]);
        result.push(join_bits(data[135], 3, data[136], 1));
        let lfo = Lfo::pack(&data[137..143]);
        result.extend_from_slice(&lfo.as_slice()[0..4]);
        result.push(set_bits(lfo[4], 4, 3, data[143]));
        result.push(data[144]);
        result.extend_from_slice(&data[145..155]);
        assert(result@ =~= Self::packed(data@)) by {
            reveal(Voice::packed);
        }
        result
    }

    /// Unpack voice data from a cartridge. Returns the data in the same
    /// format as for a single voice.
    pub fn unpack(data: &[u8]) -> (r: Vec<u8>)
        requires
            data@.len() == 128,
        ensures
            r@ == Self::unpacked(data@),
            r@.len() == 155,
    {
        proof {
            Lfo::lemma_data_size();
        }
        let mut result: Vec<u8> = Vec::new();
        let mut k: usize = 0;
        while k < 6
            invariant
                k <= 6,
                data@.len() == 128,
                result@ == Self::operators_unpacked(data@, k as int),
                result@.len() == 21 * k,
            decreases 6 - k,
        {
            let mut operator = Operator::unpack(&data[17 * k..17 * k + 17]);
            result.append(&mut operator);
            k += 1;
        }
        result.extend_from_slice(&data[102..110]);
        result.push(data[110]);
        result.push(extract_bits(data[111], 0, 3));
        result.push(if test_bit(data[111], 3) { 1 } else { 0 });
        let mut lfo = Lfo::unpack(&data[112..117]);
        result.append(&mut lfo);
        result.push(extract_bits(data[116], 4, 3));
        result.push(data[117]);
        result.extend_from_slice(&data[118..128]);
        assert(result@ =~= Self::unpacked(data@)) by {
            reveal(Voice::unpacked);
        }
        result
    }

    /// Whether `byte` is acceptable at `offset` of the packed form: every
    /// parameter that the byte holds must be one that `parse` accepts.
    pub open spec fn packed_accepts(offset: int, byte: u8) -> bool {
        if offset < 102 {
            Operator::packed_accepts(offset % 17, byte)
        } else if offset < 110 {
            Self::accepts(offset + 24, byte)
        } else if offset == 110 {
            Self::accepts(134, byte)
        } else if offset == 111 {
            Self::accepts(135, field(byte, 0, 3)) && Self::accepts(136, field(byte, 3, 1))
        } else if offset < 116 {
            Self::accepts(offset + 25, byte)
        } else if offset == 116 {
            Self::accepts(141, field(byte, 0, 1)) && Self::accepts(142, field(byte, 1, 3))
                && Self::accepts(143, field(byte, 4, 3))
        } else if offset == 117 {
            Self::accepts(144, byte)
        } else {
            Self::accepts(offset + 27, byte)
        }
    }

    /// Whether every byte of packed data is accepted at its offset.
    pub open spec fn all_packed_accepted(data: Seq<u8>) -> bool {
        forall|i: int| 0 <= i < data.len() ==> #[trigger] Self::packed_accepts(i, data[i])
    }

    /// Whether `k` is the first offset of packed data whose byte is not
    /// accepted.
    pub open spec fn first_packed_refused(data: Seq<u8>, k: int) -> bool {
        &&& 0 <= k < data.len()
        &&& !Self::packed_accepts(k, data[k])
        &&& forall|i: int| 0 <= i < k ==> #[trigger] Self::packed_accepts(i, data[i])
    }

    /// Where packed data is accepted, so is its unpacked form.
    pub proof fn lemma_packed_accepted(data: Seq<u8>)
        requires
            data.len() == 128,
            Self::all_packed_accepted(data),
        ensures
            Self::unpacked(data).len() == 155,
            Self::all_accepted(Self::unpacked(data)),
    {
        let unpacked = Self::unpacked(data);
        Self::lemma_unpacked_parts(data);
        Self::lemma_parts();
        assert forall|i: int| 0 <= i < 155 implies #[trigger] Self::accepts(i, unpacked[i]) by {
            if i < 126 {
                let k = i / 21;
                let chunk = Self::packed_chunk(data, k);
                assert forall|o: int| 0 <= o < 17 implies #[trigger] Operator::packed_accepts(
                    o,
                    chunk[o],
                ) by {
                    assert(Self::packed_accepts(17 * k + o, data[17 * k + o]));
                    assert((17 * k + o) % 17 == o);
                }
                Operator::lemma_packed_accepted(chunk);
                assert(Self::part_at::<Operator>(21 * k, 21));
                assert(Operator::accepts(i - 21 * k, Self::chunk(unpacked, k)[i - 21 * k]));
            } else if i < 134 {
                assert(Self::packed_accepts(i - 24, data[i - 24]));
                assert(unpacked.subrange(126, 134)[i - 126] == data.subrange(102, 110)[i - 126]);
            } else if i < 137 {
                assert(Self::packed_accepts(110, data[110]));
                assert(Self::packed_accepts(111, data[111]));
            } else if i < 143 {
                let lfo = data.subrange(112, 117);
                assert(unpacked.subrange(137, 143)[i - 137] == Lfo::unpacked(lfo)[i - 137]);
                assert(Self::packed_accepts(116, data[116]));
                if i < 141 {
                    assert(Self::packed_accepts(i - 25, data[i - 25]));
                    assert(lfo[i - 137] == data[i - 25]);
                } else {
                    assert(lfo[4] == data[116]);
                }
            } else if i < 145 {
                assert(Self::packed_accepts(116, data[116]));
                assert(Self::packed_accepts(117, data[117]));
            } else {
                assert(Self::packed_accepts(i - 27, data[i - 27]));
                assert(unpacked.subrange(145, 155)[i - 145] == data.subrange(118, 128)[i - 145]);
            }
        }
    }

    /// Where unpacked data is accepted, so is the data it was unpacked
    /// from.
    pub proof fn lemma_unpacked_accepted(data: Seq<u8>)
        requires
            data.len() == 128,
            Self::all_accepted(Self::unpacked(data)),
        ensures
            Self::all_packed_accepted(data),
    {
        let unpacked = Self::unpacked(data);
        Self::lemma_unpacked_parts(data);
        Self::lemma_parts();
        assert forall|i: int| 0 <= i < 128 implies #[trigger] Self::packed_accepts(i, data[i]) by {
            if i < 102 {
                let k = i / 17;
                let chunk = Self::packed_chunk(data, k);
                assert(Self::part_at::<Operator>(21 * k, 21));
                Self::lemma_whole_accepted::<Operator>(unpacked, 21 * k, 21);
                assert(Self::chunk(unpacked, k) == Operator::unpacked(chunk));
                assert(Operator::all_accepted(Operator::unpacked(chunk)));
                Operator::lemma_packed_accepted(chunk);
                assert(Operator::all_packed_accepted(chunk));
                assert(Operator::packed_accepts(i - 17 * k, chunk[i - 17 * k]));
                assert(i % 17 == i - 17 * k);
            } else if i < 110 {
                assert(Self::accepts(i + 24, unpacked[i + 24]));
                assert(unpacked.subrange(126, 134)[i - 102] == data.subrange(102, 110)[i - 102]);
            } else if i == 110 {
                assert(Self::accepts(134, unpacked[134]));
            } else if i == 111 {
                assert(Self::accepts(135, unpacked[135]));
                assert(Self::accepts(136, unpacked[136]));
            } else if i < 117 {
                let lfo = data.subrange(112, 117);
                assert(Self::accepts(141, unpacked[141]));
                assert(Self::accepts(142, unpacked[142]));
                assert(Self::accepts(143, unpacked[143]));
                assert(unpacked.subrange(137, 143)[4] == Lfo::unpacked(lfo)[4]);
                assert(unpacked.subrange(137, 143)[5] == Lfo::unpacked(lfo)[5]);
                assert(lfo[4] == data[116]);
                if i < 116 {
                    assert(Self::accepts(i + 25, unpacked[i + 25]));
                    assert(unpacked.subrange(137, 143)[i - 112] == Lfo::unpacked(lfo)[i - 112]);
                    assert(lfo[i - 112] == data[i]);
                }
            } else if i == 117 {
                assert(Self::accepts(144, unpacked[144]));
            } else {
                assert(Self::accepts(i + 27, unpacked[i + 27]));
                assert(unpacked.subrange(145, 155)[i - 118] == data.subrange(118, 128)[i - 118]);
            }
        }
    }

    /// Computes `packed_accepts`.
    pub fn accepts_packed_byte(offset: usize, byte: u8) -> (ok: bool)
        ensures
            ok == Self::packed_accepts(offset as int, byte),
    {
        proof {
            lemma_field_fits(byte, 0, 3);
            lemma_field_fits(byte, 3, 1);
            lemma_field_fits(byte, 0, 1);
            lemma_field_fits(byte, 4, 3);
        }
        if offset < 102 {
            Operator::accepts_packed_byte(offset % 17, byte)
        } else if offset < 110 {
            byte <= 99
        } else if offset == 110 {
            byte <= 31
        } else if offset == 111 {
            true
        } else if offset < 116 {
            byte <= 99
        } else if offset == 116 {
            true
        } else if offset == 117 {
            byte <= 48
        } else {
            byte < 128
        }
    }

    /// Makes a voice from its packed form, as it stands in a cartridge. A
    /// byte is refused where a parameter that it holds is out of its range.
    pub fn from_packed_bytes(data: &[u8]) -> (r: Result<Self, ParseError>)
        ensures
            data@.len() != 128 ==> r == Err::<Self, ParseError>(
                ParseError::InvalidLength(reported_len(data@.len()), 128),
            ),
            data@.len() == 128 ==> match r {
                Ok(value) => Self::all_packed_accepted(data@) && value == Self::decoded(
                    Self::unpacked(data@),
                ),
                Err(e) => exists|k: int| #[trigger]
                    Self::first_packed_refused(data@, k) && e == ParseError::InvalidData(k as u32),
            },
    {
        if data.len() != VOICE_PACKED_SIZE {
            return Err(ParseError::InvalidLength(report_len(data.len()), 128));
        }
        let mut i: usize = 0;
        while i < 128
            invariant
                i <= 128,
                data@.len() == 128,
                forall|j: int| 0 <= j < i ==> #[trigger] Self::packed_accepts(j, data@[j]),
            decreases 128 - i,
        {
            if !Self::accepts_packed_byte(i, data[i]) {
                assert(Self::first_packed_refused(data@, i as int));
                return Err(ParseError::InvalidData(i as u32));
            }
            i += 1;
        }
        proof {
            Self::lemma_packed_accepted(data@);
        }
        let unpacked = Self::unpack(data);
        let r = Self::parse(unpacked.as_slice());
        proof {
            if let Err(e) = r {
                let k = choose|k: int| #[trigger]
                    Self::first_refused(unpacked@, k) && e == ParseError::InvalidData(k as u32);
                assert(Self::accepts(k, unpacked@[k]));
            }
        }
        r
    }

    /// Gets the packed form of the voice, as it stands in a cartridge.
    pub fn to_packed_bytes(&self) -> (r: Vec<u8>)
        ensures
            r@ == Self::packed(self.encoded()),
            r@.len() == 128,
    {
        let data = self.to_bytes();
        Self::pack(data.as_slice())
    }

    /// The name "INIT VOICE".
    fn init_name() -> (r: VoiceName)
        ensures
            r == VoiceName::decoded(seq![73, 78, 73, 84, 32, 86, 79, 73, 67, 69]),
    {
        let text = "INIT VOICE";
        proof {
            reveal_strlit("INIT VOICE");
            vstd::string::is_ascii_spec_bytes(text);
            assert(text.spec_bytes() =~= seq![73u8, 78, 73, 84, 32, 86, 79, 73, 67, 69]);
        }
        let name = VoiceName::build(text.as_bytes());
        proof {
            let spec_name = VoiceName::decoded(seq![73, 78, 73, 84, 32, 86, 79, 73, 67, 69]);
            assert(name.chars =~= spec_name.chars);
        }
        name
    }
}

impl SystemExclusiveData for Voice {
    const DATA_SIZE: usize = 155;

    /// | offset     | parameter                    | accepted        |
    /// |------------|------------------------------|-----------------|
    /// | 0 to 125   | the operators, OP6 first     | as there        |
    /// | 126 to 133 | pitch envelope               | 0 to 99         |
    /// | 134        | algorithm                    | 0 to 31         |
    /// | 135        | feedback                     | 0 to 7          |
    /// | 136        | oscillator sync              | 0 or 1          |
    /// | 137 to 142 | LFO                          | as there        |
    /// | 143        | pitch modulation sensitivity | 0 to 7          |
    /// | 144        | transpose                    | 0 to 48         |
    /// | 145 to 154 | name                         | ASCII           |
    open spec fn accepts(offset: int, byte: u8) -> bool {
        if offset < 126 {
            Operator::accepts(offset % 21, byte)
        } else if offset < 134 {
            Envelope::accepts(offset - 126, byte)
        } else if offset == 134 {
            Algorithm::takes(byte)
        } else if offset == 135 {
            Depth::takes(byte)
        } else if offset == 136 {
            byte <= 1
        } else if offset < 143 {
            Lfo::accepts(offset - 137, byte)
        } else if offset == 143 {
            Depth::takes(byte)
        } else if offset == 144 {
            Transpose::takes(byte)
        } else {
            VoiceName::accepts(offset - 145, byte)
        }
    }

    /// The voice whose parts stand in the data as `accepts` lists them:
    /// `read`.
    open spec fn decoded(data: Seq<u8>) -> Self {
        Self::read(data)
    }

    /// The parts of the voice as `accepts` lists them: `written`.
    open spec fn encoded(&self) -> Seq<u8> {
        self.written()
    }

    fn parse(data: &[u8]) -> (r: Result<Self, ParseError>) {
        if data.len() != Self::DATA_SIZE {
            return Err(
                ParseError::InvalidLength(report_len(data.len()), report_len(Self::DATA_SIZE)),
            );
        }
        proof {
            reveal(Voice::read);
            Envelope::lemma_data_size();
            Lfo::lemma_data_size();
            VoiceName::lemma_data_size();
            Self::lemma_parts();
        }
        let operators = match Self::parse_operators(data) {
            Ok(operators) => operators,
            Err(e) => {
                return Err(e);
            },
        };
        let peg = match Envelope::parse(&data[126..134]) {
            Ok(peg) => peg,
            Err(e) => {
                proof {
                    let at = choose|at: int| #[trigger]
                        Envelope::first_refused(data@.subrange(126, 134), at) && e
                            == ParseError::InvalidData(at as u32);
                    Self::lemma_part_refused::<Envelope>(data@, 126, 8, at);
                }
                return Err(e.at(126));
            },
        };
        proof {
            Self::lemma_part_accepted::<Envelope>(data@, 126, 8);
        }
        let alg = match Algorithm::from_byte(data[134]) {
            Ok(alg) => alg,
            Err(_) => {
                assert(Self::first_refused(data@, 134));
                return Err(ParseError::InvalidData(134));
            },
        };
        let feedback = match Depth::from_byte(data[135]) {
            Ok(depth) => depth,
            Err(_) => {
                assert(Self::first_refused(data@, 135));
                return Err(ParseError::InvalidData(135));
            },
        };
        if data[136] > 1 {
            assert(Self::first_refused(data@, 136));
            return Err(ParseError::InvalidData(136));
        }
        assert(Self::accepted_below(data@, 137));
        let lfo = match Lfo::parse(&data[137..143]) {
            Ok(lfo) => lfo,
            Err(e) => {
                proof {
                    let at = choose|at: int| #[trigger]
                        Lfo::first_refused(data@.subrange(137, 143), at) && e
                            == ParseError::InvalidData(at as u32);
                    Self::lemma_part_refused::<Lfo>(data@, 137, 6, at);
                }
                return Err(e.at(137));
            },
        };
        proof {
            Self::lemma_part_accepted::<Lfo>(data@, 137, 6);
        }
        let pitch_mod_sens = match Depth::from_byte(data[143]) {
            Ok(depth) => depth,
            Err(_) => {
                assert(Self::first_refused(data@, 143));
                return Err(ParseError::InvalidData(143));
            },
        };
        let transpose = match Transpose::from_byte(data[144]) {
            Ok(transpose) => transpose,
            Err(_) => {
                assert(Self::first_refused(data@, 144));
                return Err(ParseError::InvalidData(144));
            },
        };
        assert(Self::accepted_below(data@, 145));
        let name = match VoiceName::parse(&data[145..155]) {
            Ok(name) => name,
            Err(e) => {
                proof {
                    let at = choose|at: int| #[trigger]
                        VoiceName::first_refused(data@.subrange(145, 155), at) && e
                            == ParseError::InvalidData(at as u32);
                    Self::lemma_part_refused::<VoiceName>(data@, 145, 10, at);
                }
                return Err(e.at(145));
            },
        };
        proof {
            Self::lemma_part_accepted::<VoiceName>(data@, 145, 10);
        }
        assert(forall|i: int| 0 <= i < data@.len() ==> #[trigger] Self::accepts(i, data@[i]));
        assert(Self::all_accepted(data@));
        Ok(
            Voice {
                operators,
                peg,
                alg,
                feedback,
                osc_sync: data[136] == 1,
                lfo,
                pitch_mod_sens,
                transpose,
                name,
            },
        )
    }

    fn to_bytes(&self) -> (r: Vec<u8>) {
        proof {
            Operator::lemma_data_size();
            Envelope::lemma_data_size();
            Lfo::lemma_data_size();
        }
        let mut data: Vec<u8> = Vec::new();
        let mut k: usize = 0;
        while k < 6
            invariant
                k <= 6,
                Operator::DATA_SIZE == 21,
                data@ == Self::operators_encoded(self.operators@, k as int),
                data@.len() == 21 * k,
            decreases 6 - k,
        {
            let mut operator = self.operators[5 - k].to_bytes();
            data.append(&mut operator);
            k += 1;
        }
        let mut peg = self.peg.to_bytes();
        data.append(&mut peg);
        data.push(self.alg.as_byte());
        data.push(self.feedback.as_byte());
        data.push(switch_as_byte(self.osc_sync));
        let mut lfo = self.lfo.to_bytes();
        data.append(&mut lfo);
        data.push(self.pitch_mod_sens.as_byte());
        data.push(self.transpose.as_byte());
        let mut name = self.name.to_bytes();
        data.append(&mut name);
        assert(data@ =~= self.encoded()) by {
            reveal(Voice::written);
        }
        data
    }
}

impl Default for Voice {
    fn default() -> (r: Self)
        ensures
            r == Voice::initial(),
    {
        Voice::new()
    }
}

/// The packed data of the voice "BRASS 1", the first of the instrument's
/// first factory cartridge: six rows for the operators, OP6 first, and one
/// for what they share.
pub open spec fn brass1_packed() -> Seq<u8> {
    seq![
        0x31, 0x63, 0x1c, 0x44, 0x62, 0x62, 0x5b, 0x00, 0x27, 0x36, 0x32, 0x05, 0x3c, 0x08, 0x52, 0x02, 0x00,
    ] + seq![
        0x4d, 0x24, 0x29, 0x47, 0x63, 0x62, 0x62, 0x00, 0x27, 0x00, 0x00, 0x0f, 0x40, 0x08, 0x62, 0x02, 0x00,
    ] + seq![
        0x4d, 0x24, 0x29, 0x47, 0x63, 0x62, 0x62, 0x00, 0x27, 0x00, 0x00, 0x0f, 0x38, 0x08, 0x63, 0x02, 0x00,
    ] + seq![
        0x4d, 0x4c, 0x52, 0x47, 0x63, 0x62, 0x62, 0x00, 0x27, 0x00, 0x00, 0x0f, 0x28, 0x08, 0x63, 0x02, 0x00,
    ] + seq![
        0x3e, 0x33, 0x1d, 0x47, 0x52, 0x5f, 0x60, 0x00, 0x1b, 0x00, 0x07, 0x07, 0x70, 0x00, 0x56, 0x00, 0x00,
    ] + seq![
        0x48, 0x4c, 0x63, 0x47, 0x63, 0x58, 0x60, 0x00, 0x27, 0x00, 0x0e, 0x0f, 0x70, 0x00, 0x62, 0x00, 0x00,
    ] + seq![
        0x54, 0x5f, 0x5f, 0x3c, 0x32, 0x32, 0x32, 0x32, 0x15, 0x0f, 0x25, 0x00, 0x05, 0x00, 0x38, 0x18,
        0x42, 0x52, 0x41, 0x53, 0x53, 0x20, 0x20, 0x20, 0x31, 0x20,
    ]
}

/// One operator of "BRASS 1". Every operator of that voice is in ratio mode,
/// with fine frequency 0 and no amplitude modulation.
fn brass_operator(
    eg: Envelope,
    kbd_level_scaling: KeyboardLevelScaling,
    kbd_rate_scaling: Depth,
    key_vel_sens: Depth,
    output_level: Level,
    coarse: Coarse,
    detune: Detune,
) -> (r: Operator)
    ensures
        r == (Operator {
            eg,
            kbd_level_scaling,
            kbd_rate_scaling,
            key_vel_sens,
            output_level,
            coarse,
            detune,
            ..Operator::initial()
        }),
{
    Operator {
        eg,
        kbd_level_scaling,
        kbd_rate_scaling,
        key_vel_sens,
        output_level,
        coarse,
        detune,
        ..Operator::new()
    }
}

/// Makes a new voice based on the "BRASS 1" settings in the instrument's
/// manual. Packed, it is byte for byte the first voice of the first factory
/// cartridge.
#[verifier::rlimit(50)]
pub fn make_brass1() -> (r: Voice)
    ensures
        r.wf(),
        r.name.length() == 10,
        Voice::packed(r.encoded()) == brass1_packed(),
{
    let kbd_level_scaling = KeyboardLevelScaling {
        breakpoint: Key(60 - 21),
        left: Scaling { depth: Level(0), curve: ScalingCurve::lin_pos() },
        right: Scaling { depth: Level(0), curve: ScalingCurve::lin_pos() },
    };

    let op6 = brass_operator(
        Envelope::new_rate_level(
            [Rate(49), Rate(99), Rate(28), Rate(68)],
            [Level(98), Level(98), Level(91), Level(0)],
        ),
        KeyboardLevelScaling {
            left: Scaling { depth: Level(54), curve: ScalingCurve::exp_neg() },
            right: Scaling { depth: Level(50), curve: ScalingCurve::exp_neg() },
            ..kbd_level_scaling
        },
        Depth(4),
        Depth(2),
        Level(82),
        Coarse(1),
        Detune(0),
    );

    let op5 = brass_operator(
        Envelope::new_rate_level(
            [Rate(77), Rate(36), Rate(41), Rate(71)],
            [Level(99), Level(98), Level(98), Level(0)],
        ),
        kbd_level_scaling,
        Depth(0),
        Depth(2),
        Level(98),
        Coarse(1),
        Detune(1),
    );

    let op4 = brass_operator(
        op5.eg,
        kbd_level_scaling,
        Depth(0),
        Depth(2),
        Level(99),
        Coarse(1),
        Detune(0),
    );

    let op3 = brass_operator(
        Envelope::new_rate_level(
            [Rate(77), Rate(76), Rate(82), Rate(71)],
            [Level(99), Level(98), Level(98), Level(0)],
        ),
        kbd_level_scaling,
        Depth(0),
        Depth(2),
        Level(99),
        Coarse(1),
        Detune(-2),
    );

    let op2 = brass_operator(
        Envelope::new_rate_level(
            [Rate(62), Rate(51), Rate(29), Rate(71)],
            [Level(82), Level(95), Level(96), Level(0)],
        ),
        KeyboardLevelScaling {
            breakpoint: Key(48 - 21),
            left: Scaling { depth: Level(0), curve: ScalingCurve::lin_pos() },
            right: Scaling { depth: Level(7), curve: ScalingCurve::exp_neg() },
        },
        Depth(0),
        Depth(0),
        Level(86),
        Coarse::default(),
        Detune(7),
    );

    let op1 = brass_operator(
        Envelope::new_rate_level(
            [Rate(72), Rate(76), Rate(99), Rate(71)],
            [Level(99), Level(88), Level(96), Level(0)],
        ),
        KeyboardLevelScaling {
            right: Scaling { depth: Level(14), curve: ScalingCurve::lin_pos() },
            ..kbd_level_scaling
        },
        Depth(0),
        Depth(0),
        Level(98),
        Coarse::default(),
        Detune(7),
    );

    let voice = Voice {
        operators: [op1, op2, op3, op4, op5, op6],
        peg: Envelope::new_rate_level(
            [Rate(84), Rate(95), Rate(95), Rate(60)],
            [Level(50), Level(50), Level(50), Level(50)],
        ),
        alg: Algorithm(22),
        feedback: Depth(7),
        osc_sync: true,
        lfo: Lfo {
            speed: Level(37),
            delay: Level(0),
            pmd: Level(5),
            amd: Level(0),
            sync: false,
            waveform: LfoWaveform::Sine,
        },
        pitch_mod_sens: Depth(3),
        transpose: Transpose(0),
        name: brass_name(),
    };
    proof {
        let data = voice.encoded();
        let packed = Voice::packed(data);
        let expected = brass1_packed();
        Voice::lemma_encoded_parts(voice);
        Voice::lemma_packed_parts(data);
        assert forall|k: int| 0 <= k < 6 implies #[trigger] Voice::packed_chunk(packed, k)
            == Voice::packed_chunk(expected, k) by {
            let unpacked = Voice::chunk(data, k);
            assert(unpacked == voice.operators[5 - k].encoded());
            assert(unpacked.len() == 21);
            Operator::lemma_packed_sums(unpacked);
            assert(Voice::packed_chunk(packed, k) =~= Voice::packed_chunk(expected, k));
        }
        Voice::lemma_byte_111(7, 1);
        Voice::lemma_byte_116_sum(0, 4, 3);
        assert(packed.subrange(102, 110) =~= expected.subrange(102, 110));
        assert(packed.subrange(112, 116) =~= expected.subrange(112, 116));
        assert(packed.subrange(118, 128) =~= expected.subrange(118, 128));
        assert(Voice::same_packed_parts(packed, expected));
        Voice::lemma_same_packed_parts(packed, expected);
    }
    voice
}

/// The name "BRASS   1 ".
fn brass_name() -> (r: VoiceName)
    ensures
        r.length() == 10,
        r.encoded() == seq![66u8, 82, 65, 83, 83, 32, 32, 32, 49, 32],
{
    let text = "BRASS   1 ";
    proof {
        reveal_strlit("BRASS   1 ");
        vstd::string::is_ascii_spec_bytes(text);
        assert(text.spec_bytes() =~= seq![66u8, 82, 65, 83, 83, 32, 32, 32, 49, 32]);
    }
    let name = VoiceName::build(text.as_bytes());
    assert(name.encoded() =~= seq![66u8, 82, 65, 83, 83, 32, 32, 32, 49, 32]);
    name
}

/// Makes an initialized voice: the voice of `Voice::new`, but with the
/// first operator at full output level and pitch modulation sensitivity 3.
pub fn make_init_voice() -> (r: Voice)
    ensures
        r == (Voice {
            operators: [
                Operator { output_level: Level::of(99), ..Operator::initial() },
                Operator::initial(),
                Operator::initial(),
                Operator::initial(),
                Operator::initial(),
                Operator::initial(),
            ],
            pitch_mod_sens: Depth::of(3),
            ..Voice::initial()
        }),
{
    let init_eg = Envelope::new();

    let init_op1 = Operator {
        eg: init_eg,
        kbd_level_scaling: KeyboardLevelScaling::new(),
        kbd_rate_scaling: Depth(0),
        amp_mod_sens: Sensitivity(0),
        key_vel_sens: Depth(0),
        output_level: Level(99),
        mode: OperatorMode::Ratio,
        coarse: Coarse(1),
        fine: Level(0),
        detune: Detune::default(),
    };

    // Operators 2...6 are identical to operator 1 except they
    // have their output level set to zero.
    let init_op_rest = Operator { output_level: Level(0), ..init_op1 };

    let voice = Voice {
        operators: [
            init_op1,
            init_op_rest,
            init_op_rest,
            init_op_rest,
            init_op_rest,
            init_op_rest,
        ],
        peg: Envelope::new_rate_level(
            [Rate(99), Rate(99), Rate(99), Rate(99)],
            [Level(50), Level(50), Level(50), Level(50)],
        ),
        alg: Algorithm(1),
        feedback: Depth(0),
        osc_sync: true,
        lfo: Lfo {
            speed: Level(35),
            delay: Level(0),
            pmd: Level(0),
            amd: Level(0),
            sync: true,
            waveform: LfoWaveform::Triangle,
        },
        pitch_mod_sens: Depth(3),
        transpose: Transpose(0),
        name: Voice::init_name(),
    };
    proof {
        let expected = Voice {
            operators: [
                Operator { output_level: Level::of(99), ..Operator::initial() },
                Operator::initial(),
                Operator::initial(),
                Operator::initial(),
                Operator::initial(),
                Operator::initial(),
            ],
            pitch_mod_sens: Depth::of(3),
            ..Voice::initial()
        };
        assert(voice.operators =~= expected.operators);
        assert(voice.peg.rates =~= expected.peg.rates);
        assert(voice.peg.levels =~= expected.peg.levels);
    }
    voice
}

} // verus!
