//! The envelope generator: four rates and four levels.

use crate::ParseError;
use crate::RangeError;
use crate::Ranged;
use crate::dx7::Level;
use crate::dx7::sysex::SystemExclusiveData;
use crate::random_between;
use crate::report_len;
use crate::text::number_chars;
use crate::text::number_string;
use crate::text::push_number;
use crate::text::push_text;
use vstd::prelude::*;

verus! {

/// Envelope rate (0...99).
#[derive(Debug, Clone, Copy, Eq, PartialEq, Structural)]
pub struct Rate(pub(crate) i32);

impl Rate {
    /// Every `Rate` lies in its range.
    #[verifier::type_invariant]
    pub open(crate) spec fn wf(self) -> bool {
        0 <= self.0 <= 99
    }

    /// The values of the constants of the range, for proofs outside this
    /// module.
    pub proof fn lemma_range()
        ensures
            Self::FIRST == 0,
            Self::LAST == 99,
            Self::DEFAULT == 0,
    {
    }

    /// The rate that stands for `value`.
    pub open(crate) spec fn of(value: int) -> Self {
        Rate(value as i32)
    }

    /// `of` and `model` are inverse to each other on the range.
    pub proof fn lemma_of_model(value: int)
        requires
            0 <= value <= 99,
        ensures
            Self::of(value).model() == value,
            Self::of(value).wf(),
    {
    }

    /// A rate is determined by the integer it stands for.
    pub proof fn lemma_model_injective(a: Self, b: Self)
        requires
            a.model() == b.model(),
        ensures
            a == b,
    {
    }

    /// The data byte that stands for the rate.
    pub open spec fn byte(&self) -> u8 {
        self.model() as u8
    }

    /// Whether a data byte stands for a rate.
    pub open spec fn takes(byte: u8) -> bool {
        byte <= 99
    }

    /// The rate that a data byte stands for.
    pub open spec fn of_byte(byte: u8) -> Self {
        Self::of(byte as int)
    }

    /// The byte of a rate is read as that rate.
    pub proof fn lemma_value_roundtrip(x: Self)
        requires
            x.wf(),
        ensures
            Self::takes(x.byte()),
            Self::of_byte(x.byte()) == x,
    {
    }

    /// The rate read from a byte is sent as that byte.
    pub proof fn lemma_byte_roundtrip(byte: u8)
        requires
            Self::takes(byte),
        ensures
            Self::of_byte(byte).wf(),
            Self::of_byte(byte).byte() == byte,
    {
    }

    /// The data byte: the rate itself.
    pub fn as_byte(&self) -> (b: u8)
        ensures
            b == self.model(),
            b == self.byte(),
            Self::takes(b),
    {
        proof {
            use_type_invariant(self);
        }
        self.0 as u8
    }

    /// The rate as text: its number.
    pub open spec fn text(&self) -> Seq<char> {
        number_chars(self.model())
    }

    /// The rate as text.
    pub fn to_string(&self) -> (r: String)
        ensures
            r@ == self.text(),
    {
        number_string(self.value())
    }

    /// The rate that a data byte stands for, if it stands for one.
    pub fn from_byte(byte: u8) -> (r: Result<Self, RangeError>)
        ensures
            Self::takes(byte) ==> r == Ok::<Self, RangeError>(Self::of_byte(byte)),
            !Self::takes(byte) ==> r == Err::<Self, RangeError>(
                RangeError { value: byte as i32, first: 0i32, last: 99i32 },
            ),
    {
        Self::new(byte as i32)
    }
}

impl Ranged for Rate {
    const FIRST: i32 = 0;

    const LAST: i32 = 99;

    const DEFAULT: i32 = 0;

    open(crate) spec fn model(&self) -> int {
        self.0 as int
    }

    fn new(value: i32) -> (r: Result<Self, RangeError>)
        ensures
            0 <= value <= 99 ==> r == Ok::<Self, RangeError>(Self::of(value as int)),
            !(0 <= value <= 99) ==> r == Err::<Self, RangeError>(
                RangeError { value, first: 0i32, last: 99i32 },
            ),
    {
        if Self::contains(value) {
            Ok(Rate(value))
        } else {
            Err(RangeError { value, first: Self::FIRST, last: Self::LAST })
        }
    }

    fn value(&self) -> (v: i32)
        ensures
            v == self.model(),
            0 <= v <= 99,
            self.wf(),
    {
        proof {
            use_type_invariant(self);
        }
        self.0
    }

    fn random() -> (r: Self)
        ensures
            r.wf(),
    {
        Rate(random_between(Self::FIRST, Self::LAST))
    }
}

impl Default for Rate {
    fn default() -> (r: Self)
        ensures
            r.model() == 0,
    {
        Rate(Self::DEFAULT)
    }
}

/// The rates of the four stages of an envelope.
pub type Rates = [Rate; 4];

/// The levels that the four stages of an envelope reach.
pub type Levels = [Level; 4];

/// Envelope generator. Stage `i` moves at `rates[i]` towards `levels[i]`.
#[derive(Debug, Clone, Copy)]
pub struct Envelope {
    pub rates: Rates,
    pub levels: Levels,
}

impl Envelope {
    /// The value of `DATA_SIZE`, for proofs outside this module.
    pub proof fn lemma_data_size()
        ensures
            Self::DATA_SIZE == 8,
    {
    }

    /// Whether every rate and level lies in its range.
    pub open spec fn wf(self) -> bool {
        &&& forall|i: int| 0 <= i < 4 ==> (#[trigger] self.rates[i]).wf()
        &&& forall|i: int| 0 <= i < 4 ==> (#[trigger] self.levels[i]).wf()
    }

    /// The envelope with these rates and levels, given as integers.
    pub open spec fn of(rates: Seq<i32>, levels: Seq<i32>) -> Self {
        Envelope {
            rates: [
                Rate::of(rates[0] as int),
                Rate::of(rates[1] as int),
                Rate::of(rates[2] as int),
                Rate::of(rates[3] as int),
            ],
            levels: [
                Level::of(levels[0] as int),
                Level::of(levels[1] as int),
                Level::of(levels[2] as int),
                Level::of(levels[3] as int),
            ],
        }
    }

    /// The `k`-th of four rates and four levels in the order in which
    /// `new_rate_level_int` looks at them: stage by stage, the rate before
    /// the level.
    pub open spec fn by_stage(rates: Seq<i32>, levels: Seq<i32>, k: int) -> i32 {
        if k % 2 == 0 {
            rates[k / 2]
        } else {
            levels[k / 2]
        }
    }

    /// The envelope of a fresh voice: every rate 99, the levels 99, 99, 99
    /// and 0.
    pub fn new() -> (r: Self)
        ensures
            r == Self::of(seq![99, 99, 99, 99], seq![99, 99, 99, 0]),
    {
        let envelope = Envelope {
            rates: [Rate(99), Rate(99), Rate(99), Rate(99)],
            levels: [Level(99), Level(99), Level(99), Level(0)],
        };
        proof {
            let spec_envelope = Self::of(seq![99, 99, 99, 99], seq![99, 99, 99, 0]);
            assert(envelope.rates =~= spec_envelope.rates);
            assert(envelope.levels =~= spec_envelope.levels);
        }
        envelope
    }

    /// The envelope with these rates and levels.
    pub fn new_rate_level(rates: Rates, levels: Levels) -> (r: Self)
        ensures
            r.rates == rates,
            r.levels == levels,
    {
        Self { rates, levels }
    }

    /// The envelope with these rates and levels, each of which must lie in
    /// 0...99. They are looked at stage by stage, the rate before the level,
    /// and the first that does not is reported.
    pub fn new_rate_level_int(rates: [i32; 4], levels: [i32; 4]) -> (r: Result<Self, RangeError>)
        ensures
            match r {
                Ok(envelope) => {
                    &&& forall|k: int|
                        0 <= k < 8 ==> 0 <= #[trigger] Self::by_stage(rates@, levels@, k) <= 99
                    &&& envelope == Self::of(rates@, levels@)
                },
                Err(e) => exists|k: int|
                    {
                        &&& 0 <= k < 8
                        &&& !(0 <= #[trigger] Self::by_stage(rates@, levels@, k) <= 99)
                        &&& forall|j: int|
                            0 <= j < k ==> 0 <= #[trigger] Self::by_stage(rates@, levels@, j) <= 99
                        &&& e == RangeError {
                            value: Self::by_stage(rates@, levels@, k),
                            first: 0,
                            last: 99,
                        }
                    },
            },
    {
        let mut r: Rates = [Rate::default();4];
        let mut l: Levels = [Level::default();4];
        let mut i: usize = 0;
        while i < 4
            invariant
                i <= 4,
                forall|j: int|
                    0 <= j < 2 * i ==> 0 <= #[trigger] Self::by_stage(rates@, levels@, j) <= 99,
                forall|j: int| 0 <= j < i ==> r[j] == Rate::of(rates[j] as int),
                forall|j: int| 0 <= j < i ==> l[j] == Level::of(levels[j] as int),
            decreases 4 - i,
        {
            assert(Self::by_stage(rates@, levels@, 2 * i as int) == rates[i as int]);
            assert(Self::by_stage(rates@, levels@, 2 * i + 1) == levels[i as int]);
            match Rate::new(rates[i]) {
                Ok(rate) => {
                    r[i] = rate;
                },
                Err(e) => {
                    return Err(e);
                },
            }
            match Level::new(levels[i]) {
                Ok(level) => {
                    l[i] = level;
                },
                Err(e) => {
                    return Err(e);
                },
            }
            i += 1;
        }
        let envelope = Envelope { rates: r, levels: l };
        proof {
            let spec_envelope = Self::of(rates@, levels@);
            assert(envelope.rates =~= spec_envelope.rates);
            assert(envelope.levels =~= spec_envelope.levels);
        }
        Ok(envelope)
    }

    /// An envelope that behaves as attack, decay, sustain and release.
    ///
    /// With the second rate at 99, the first two levels at 99 and the last
    /// level at 0, the first rate is the attack time, the third the decay
    /// time, the third level the sustain level and the fourth rate the
    /// release time.
    pub fn adsr(attack: Rate, decay: Rate, sustain: Level, release: Rate) -> (r: Self)
        ensures
            r.rates@ == seq![attack, Rate::of(99), decay, release],
            r.levels@ == seq![Level::of(99), Level::of(99), sustain, Level::of(0)],
    {
        Envelope::new_rate_level(
            [attack, Rate(99), decay, release],
            [Level(99), Level(99), sustain, Level(0)],
        )
    }

    /// `adsr` from integers, each of which must lie in 0...99. The first of
    /// attack, decay, sustain and release that does not is reported.
    pub fn adsr_int(attack: i32, decay: i32, sustain: i32, release: i32) -> (r: Result<
        Self,
        RangeError,
    >)
        ensures
            match r {
                Ok(envelope) => {
                    &&& 0 <= attack <= 99
                    &&& 0 <= decay <= 99
                    &&& 0 <= sustain <= 99
                    &&& 0 <= release <= 99
                    &&& envelope == Self::of(
                        seq![attack, 99, decay, release],
                        seq![99, 99, sustain, 0],
                    )
                },
                Err(e) => {
                    &&& e.first == 0
                    &&& e.last == 99
                    &&& !(0 <= e.value <= 99)
                    &&& e.value == if !(0 <= attack <= 99) {
                        attack
                    } else if !(0 <= decay <= 99) {
                        decay
                    } else if !(0 <= sustain <= 99) {
                        sustain
                    } else {
                        release
                    }
                },
            },
    {
        let rates = [attack, 99, decay, release];
        let levels = [99, 99, sustain, 0];
        proof {
            assert(Self::by_stage(rates@, levels@, 0) == attack);
            assert(Self::by_stage(rates@, levels@, 1) == 99);
            assert(Self::by_stage(rates@, levels@, 2) == 99);
            assert(Self::by_stage(rates@, levels@, 3) == 99);
            assert(Self::by_stage(rates@, levels@, 4) == decay);
            assert(Self::by_stage(rates@, levels@, 5) == sustain);
            assert(Self::by_stage(rates@, levels@, 6) == release);
            assert(Self::by_stage(rates@, levels@, 7) == 0);
        }
        let r = Envelope::new_rate_level_int(rates, levels);
        proof {
            if let Ok(envelope) = r {
                let spec_envelope = Self::of(
                    seq![attack, 99, decay, release],
                    seq![99, 99, sustain, 0],
                );
                assert(envelope.rates =~= spec_envelope.rates);
                assert(envelope.levels =~= spec_envelope.levels);
            }
        }
        r
    }

    /// The envelope as text: each stage's rate and level, as in
    /// `R1=99 L1=99 R2=99 L2=99 R3=99 L3=99 R4=99 L4=0`.
    pub open spec fn text(&self) -> Seq<char> {
        "R1="@ + number_chars(self.rates[0].model()) + " L1="@ + number_chars(
            self.levels[0].model(),
        ) + " R2="@ + number_chars(self.rates[1].model()) + " L2="@ + number_chars(
            self.levels[1].model(),
        ) + " R3="@ + number_chars(self.rates[2].model()) + " L3="@ + number_chars(
            self.levels[2].model(),
        ) + " R4="@ + number_chars(self.rates[3].model()) + " L4="@ + number_chars(
            self.levels[3].model(),
        )
    }

    /// The envelope as text.
    pub fn to_string(&self) -> (r: String)
        ensures
            r@ == self.text(),
    {
        let mut s = String::new();
        push_text(&mut s, "R1=");
        push_number(&mut s, self.rates[0].value());
        push_text(&mut s, " L1=");
        push_number(&mut s, self.levels[0].value());
        push_text(&mut s, " R2=");
        push_number(&mut s, self.rates[1].value());
        push_text(&mut s, " L2=");
        push_number(&mut s, self.levels[1].value());
        push_text(&mut s, " R3=");
        push_number(&mut s, self.rates[2].value());
        push_text(&mut s, " L3=");
        push_number(&mut s, self.levels[2].value());
        push_text(&mut s, " R4=");
        push_number(&mut s, self.rates[3].value());
        push_text(&mut s, " L4=");
        push_number(&mut s, self.levels[3].value());
        assert(s@ =~= self.text());
        s
    }

    /// An envelope with every rate and level drawn at random.
    pub fn random() -> (r: Self)
        ensures
            r.wf(),
    {
        let envelope = Self {
            rates: [Rate::random(), Rate::random(), Rate::random(), Rate::random()],
            levels: [Level::random(), Level::random(), Level::random(), Level::random()],
        };
        envelope
    }

    /// The same as `random`.
    pub fn new_random() -> (r: Self)
        ensures
            r.wf(),
    {
        Self::random()
    }

    /// What `to_bytes` writes, `parse` reads as the same envelope.
    pub proof fn lemma_decoded_encoded(envelope: Self)
        requires
            envelope.wf(),
        ensures
            envelope.encoded().len() == 8,
            Self::all_accepted(envelope.encoded()),
            Self::decoded(envelope.encoded()) == envelope,
    {
        let back = Self::decoded(envelope.encoded());
        assert forall|i: int| 0 <= i < 4 implies back.rates[i] == envelope.rates[i] by {
            Rate::lemma_value_roundtrip(envelope.rates[i]);
        }
        assert forall|i: int| 0 <= i < 4 implies back.levels[i] == envelope.levels[i] by {
            Level::lemma_value_roundtrip(envelope.levels[i]);
        }
        assert(back.rates =~= envelope.rates);
        assert(back.levels =~= envelope.levels);
        assert forall|i: int| 0 <= i < 8 implies #[trigger] Self::accepts(
            i,
            envelope.encoded()[i],
        ) by {
            if i < 4 {
                Rate::lemma_value_roundtrip(envelope.rates[i]);
            } else {
                Level::lemma_value_roundtrip(envelope.levels[i - 4]);
            }
        }
    }

    /// What `parse` accepts, `to_bytes` writes back byte for byte.
    pub proof fn lemma_encoded_decoded(data: Seq<u8>)
        requires
            data.len() == 8,
            Self::all_accepted(data),
        ensures
            Self::decoded(data).wf(),
            Self::decoded(data).encoded() == data,
    {
        assert forall|i: int| 0 <= i < 8 implies data[i] <= 99 by {
            assert(Self::accepts(i, data[i]));
        }
        assert(Self::decoded(data).encoded() =~= data);
    }
}

impl SystemExclusiveData for Envelope {
    const DATA_SIZE: usize = 8;

    /// Rates and levels go from 0 to 99.
    open spec fn accepts(offset: int, byte: u8) -> bool {
        byte <= 99
    }

    /// The four rates come first, then the four levels.
    open spec fn decoded(data: Seq<u8>) -> Self {
        Envelope {
            rates: [
                Rate::of_byte(data[0]),
                Rate::of_byte(data[1]),
                Rate::of_byte(data[2]),
                Rate::of_byte(data[3]),
            ],
            levels: [
                Level::of_byte(data[4]),
                Level::of_byte(data[5]),
                Level::of_byte(data[6]),
                Level::of_byte(data[7]),
            ],
        }
    }

    open spec fn encoded(&self) -> Seq<u8> {
        seq![
            self.rates[0].byte(),
            self.rates[1].byte(),
            self.rates[2].byte(),
            self.rates[3].byte(),
            self.levels[0].byte(),
            self.levels[1].byte(),
            self.levels[2].byte(),
            self.levels[3].byte(),
        ]
    }

    fn parse(data: &[u8]) -> (r: Result<Self, ParseError>) {
        if data.len() != Self::DATA_SIZE {
            return Err(ParseError::InvalidLength(report_len(data.len()), report_len(Self::DATA_SIZE)));
        }
        let mut rates: Rates = [Rate::default();4];
        let mut levels: Levels = [Level::default();4];
        let mut i: usize = 0;
        while i < 4
            invariant
                i <= 4,
                data@.len() == 8,
                forall|j: int| 0 <= j < i ==> #[trigger] Self::accepts(j, data@[j]),
                forall|j: int| 0 <= j < i ==> rates[j] == Rate::of_byte(data@[j]),
            decreases 4 - i,
        {
            match Rate::from_byte(data[i]) {
                Ok(rate) => {
                    rates[i] = rate;
                },
                Err(_) => {
                    assert(Self::first_refused(data@, i as int));
                    return Err(ParseError::InvalidData(i as u32));
                },
            }
            i += 1;
        }
        let mut i: usize = 0;
        while i < 4
            invariant
                i <= 4,
                data@.len() == 8,
                forall|j: int| 0 <= j < 4 + i ==> #[trigger] Self::accepts(j, data@[j]),
                forall|j: int| 0 <= j < 4 ==> rates[j] == Rate::of_byte(data@[j]),
                forall|j: int| 0 <= j < i ==> levels[j] == Level::of_byte(data@[4 + j]),
            decreases 4 - i,
        {
            match Level::from_byte(data[4 + i]) {
                Ok(level) => {
                    levels[i] = level;
                },
                Err(_) => {
                    assert(Self::first_refused(data@, 4 + i as int));
                    return Err(ParseError::InvalidData((4 + i) as u32));
                },
            }
            i += 1;
        }
        let envelope = Envelope { rates, levels };
        proof {
            assert(envelope.rates =~= Self::decoded(data@).rates);
            assert(envelope.levels =~= Self::decoded(data@).levels);
        }
        assert(forall|i: int| 0 <= i < data@.len() ==> #[trigger] Self::accepts(i, data@[i]));
        assert(Self::all_accepted(data@));
        Ok(envelope)
    }

    fn to_bytes(&self) -> (r: Vec<u8>) {
        let mut data: Vec<u8> = Vec::new();
        data.push(self.rates[0].as_byte());
        data.push(self.rates[1].as_byte());
        data.push(self.rates[2].as_byte());
        data.push(self.rates[3].as_byte());
        data.push(self.levels[0].as_byte());
        data.push(self.levels[1].as_byte());
        data.push(self.levels[2].as_byte());
        data.push(self.levels[3].as_byte());
        data
    }
}

} // verus!
