//! The parameters of a DX7 voice, each an integer of a fixed range with the
//! byte that stands for it in System Exclusive data.

use crate::RangeError;
use crate::Ranged;
use crate::random_between;
use crate::text::number_chars;
use crate::text::number_string;
use vstd::prelude::*;

pub mod cartridge;
pub mod envelope;
pub mod lfo;
pub mod operator;
pub mod sysex;
pub mod voice;

pub use crate::dx7::voice::make_brass1;
pub use crate::dx7::voice::make_init_voice;

verus! {

/// Algorithm (1...32): which of the 32 ways of wiring the six operators.
#[derive(Debug, Clone, Copy, Eq, PartialEq, Structural)]
pub struct Algorithm(pub(crate) i32);

impl Algorithm {
    /// Every `Algorithm` lies in its range.
    #[verifier::type_invariant]
    pub open(crate) spec fn wf(self) -> bool {
        1 <= self.0 <= 32
    }

    /// The values of the constants of the range, for proofs outside this
    /// module.
    pub proof fn lemma_range()
        ensures
            Self::FIRST == 1,
            Self::LAST == 32,
            Self::DEFAULT == 32,
    {
    }

    /// The algorithm that stands for `value`.
    pub open(crate) spec fn of(value: int) -> Self {
        Algorithm(value as i32)
    }

    /// `of` and `model` are inverse to each other on the range.
    pub proof fn lemma_of_model(value: int)
        requires
            1 <= value <= 32,
        ensures
            Self::of(value).model() == value,
            Self::of(value).wf(),
    {
    }

    /// An algorithm is determined by the integer it stands for.
    pub proof fn lemma_model_injective(a: Self, b: Self)
        requires
            a.model() == b.model(),
        ensures
            a == b,
    {
    }

    /// The data byte that stands for the algorithm.
    pub open spec fn byte(&self) -> u8 {
        (self.model() - 1) as u8
    }

    /// Whether a data byte stands for an algorithm.
    pub open spec fn takes(byte: u8) -> bool {
        byte <= 31
    }

    /// The algorithm that a data byte stands for.
    pub open spec fn of_byte(byte: u8) -> Self {
        Self::of(byte as int + 1)
    }

    /// The byte of an algorithm is read as that algorithm.
    pub proof fn lemma_value_roundtrip(x: Self)
        requires
            x.wf(),
        ensures
            Self::takes(x.byte()),
            Self::of_byte(x.byte()) == x,
    {
    }

    /// The algorithm read from a byte is sent as that byte.
    pub proof fn lemma_byte_roundtrip(byte: u8)
        requires
            Self::takes(byte),
        ensures
            Self::of_byte(byte).wf(),
            Self::of_byte(byte).byte() == byte,
    {
    }

    /// The data byte: the algorithm minus 1, so that 1 is sent as 0.
    pub fn as_byte(&self) -> (b: u8)
        ensures
            b == self.model() - 1,
            b == self.byte(),
            Self::takes(b),
    {
        proof {
            use_type_invariant(self);
        }
        (self.0 - 1) as u8
    }

    /// The algorithm as text: its number.
    pub open spec fn text(&self) -> Seq<char> {
        number_chars(self.model())
    }

    /// The algorithm as text.
    pub fn to_string(&self) -> (r: String)
        ensures
            r@ == self.text(),
    {
        number_string(self.value())
    }

    /// The algorithm that a data byte stands for, if it stands for one.
    pub fn from_byte(byte: u8) -> (r: Result<Self, RangeError>)
        ensures
            Self::takes(byte) ==> r == Ok::<Self, RangeError>(Self::of_byte(byte)),
            !Self::takes(byte) ==> r == Err::<Self, RangeError>(
                RangeError { value: (byte + 1) as i32, first: 1i32, last: 32i32 },
            ),
    {
        Self::new(byte as i32 + 1)
    }
}

impl Ranged for Algorithm {
    const FIRST: i32 = 1;

    const LAST: i32 = 32;

    const DEFAULT: i32 = 32;

    open(crate) spec fn model(&self) -> int {
        self.0 as int
    }

    fn new(value: i32) -> (r: Result<Self, RangeError>)
        ensures
            1 <= value <= 32 ==> r == Ok::<Self, RangeError>(Self::of(value as int)),
            !(1 <= value <= 32) ==> r == Err::<Self, RangeError>(
                RangeError { value, first: 1i32, last: 32i32 },
            ),
    {
        if Self::contains(value) {
            Ok(Algorithm(value))
        } else {
            Err(RangeError { value, first: Self::FIRST, last: Self::LAST })
        }
    }

    fn value(&self) -> (v: i32)
        ensures
            v == self.model(),
            1 <= v <= 32,
            self.wf(),
    {
        proof {
            use_type_invariant(self);
        }
        self.0
    }

    fn random() -> (r: Self)
        ensures
            r.wf(),
    {
        Algorithm(random_between(Self::FIRST, Self::LAST))
    }
}

impl Default for Algorithm {
    fn default() -> (r: Self)
        ensures
            r.model() == 32,
    {
        Algorithm(Self::DEFAULT)
    }
}

/// Detune (-7...+7).
#[derive(Debug, Clone, Copy, Eq, PartialEq, Structural)]
pub struct Detune(pub(crate) i32);

impl Detune {
    /// Every `Detune` lies in its range.
    #[verifier::type_invariant]
    pub open(crate) spec fn wf(self) -> bool {
        -7 <= self.0 <= 7
    }

    /// The values of the constants of the range, for proofs outside this
    /// module.
    pub proof fn lemma_range()
        ensures
            Self::FIRST == -7,
            Self::LAST == 7,
            Self::DEFAULT == 0,
    {
    }

    /// The detune that stands for `value`.
    pub open(crate) spec fn of(value: int) -> Self {
        Detune(value as i32)
    }

    /// `of` and `model` are inverse to each other on the range.
    pub proof fn lemma_of_model(value: int)
        requires
            -7 <= value <= 7,
        ensures
            Self::of(value).model() == value,
            Self::of(value).wf(),
    {
    }

    /// A detune is determined by the integer it stands for.
    pub proof fn lemma_model_injective(a: Self, b: Self)
        requires
            a.model() == b.model(),
        ensures
            a == b,
    {
    }

    /// The data byte that stands for the detune.
    pub open spec fn byte(&self) -> u8 {
        (self.model() + 7) as u8
    }

    /// Whether a data byte stands for a detune.
    pub open spec fn takes(byte: u8) -> bool {
        byte <= 14
    }

    /// The detune that a data byte stands for.
    pub open spec fn of_byte(byte: u8) -> Self {
        Self::of(byte as int - 7)
    }

    /// The byte of a detune is read as that detune.
    pub proof fn lemma_value_roundtrip(x: Self)
        requires
            x.wf(),
        ensures
            Self::takes(x.byte()),
            Self::of_byte(x.byte()) == x,
    {
    }

    /// The detune read from a byte is sent as that byte.
    pub proof fn lemma_byte_roundtrip(byte: u8)
        requires
            Self::takes(byte),
        ensures
            Self::of_byte(byte).wf(),
            Self::of_byte(byte).byte() == byte,
    {
    }

    /// The data byte: the detune plus 7, so that -7 is sent as 0.
    pub fn as_byte(&self) -> (b: u8)
        ensures
            b == self.model() + 7,
            b == self.byte(),
            Self::takes(b),
    {
        proof {
            use_type_invariant(self);
        }
        (self.0 + 7) as u8
    }

    /// The detune as text: its number.
    pub open spec fn text(&self) -> Seq<char> {
        number_chars(self.model())
    }

    /// The detune as text.
    pub fn to_string(&self) -> (r: String)
        ensures
            r@ == self.text(),
    {
        number_string(self.value())
    }

    /// The detune that a data byte stands for, if it stands for one.
    pub fn from_byte(byte: u8) -> (r: Result<Self, RangeError>)
        ensures
            Self::takes(byte) ==> r == Ok::<Self, RangeError>(Self::of_byte(byte)),
            !Self::takes(byte) ==> r == Err::<Self, RangeError>(
                RangeError { value: (byte - 7) as i32, first: -7i32, last: 7i32 },
            ),
    {
        Self::new(byte as i32 - 7)
    }
}

impl Ranged for Detune {
    const FIRST: i32 = -7;

    const LAST: i32 = 7;

    const DEFAULT: i32 = 0;

    open(crate) spec fn model(&self) -> int {
        self.0 as int
    }

    fn new(value: i32) -> (r: Result<Self, RangeError>)
        ensures
            -7 <= value <= 7 ==> r == Ok::<Self, RangeError>(Self::of(value as int)),
            !(-7 <= value <= 7) ==> r == Err::<Self, RangeError>(
                RangeError { value, first: -7i32, last: 7i32 },
            ),
    {
        if Self::contains(value) {
            Ok(Detune(value))
        } else {
            Err(RangeError { value, first: Self::FIRST, last: Self::LAST })
        }
    }

    fn value(&self) -> (v: i32)
        ensures
            v == self.model(),
            -7 <= v <= 7,
            self.wf(),
    {
        proof {
            use_type_invariant(self);
        }
        self.0
    }

    fn random() -> (r: Self)
        ensures
            r.wf(),
    {
        Detune(random_between(Self::FIRST, Self::LAST))
    }
}

impl Default for Detune {
    fn default() -> (r: Self)
        ensures
            r.model() == 0,
    {
        Detune(Self::DEFAULT)
    }
}

/// Coarse frequency (0...31).
#[derive(Debug, Clone, Copy, Eq, PartialEq, Structural)]
pub struct Coarse(pub(crate) i32);

impl Coarse {
    /// Every `Coarse` lies in its range.
    #[verifier::type_invariant]
    pub open(crate) spec fn wf(self) -> bool {
        0 <= self.0 <= 31
    }

    /// The values of the constants of the range, for proofs outside this
    /// module.
    pub proof fn lemma_range()
        ensures
            Self::FIRST == 0,
            Self::LAST == 31,
            Self::DEFAULT == 0,
    {
    }

    /// The coarse frequency that stands for `value`.
    pub open(crate) spec fn of(value: int) -> Self {
        Coarse(value as i32)
    }

    /// `of` and `model` are inverse to each other on the range.
    pub proof fn lemma_of_model(value: int)
        requires
            0 <= value <= 31,
        ensures
            Self::of(value).model() == value,
            Self::of(value).wf(),
    {
    }

    /// A coarse frequency is determined by the integer it stands for.
    pub proof fn lemma_model_injective(a: Self, b: Self)
        requires
            a.model() == b.model(),
        ensures
            a == b,
    {
    }

    /// The data byte that stands for the coarse frequency.
    pub open spec fn byte(&self) -> u8 {
        self.model() as u8
    }

    /// Whether a data byte stands for a coarse frequency.
    pub open spec fn takes(byte: u8) -> bool {
        byte <= 31
    }

    /// The coarse frequency that a data byte stands for.
    pub open spec fn of_byte(byte: u8) -> Self {
        Self::of(byte as int)
    }

    /// The byte of a coarse frequency is read as that coarse frequency.
    pub proof fn lemma_value_roundtrip(x: Self)
        requires
            x.wf(),
        ensures
            Self::takes(x.byte()),
            Self::of_byte(x.byte()) == x,
    {
    }

    /// The coarse frequency read from a byte is sent as that byte.
    pub proof fn lemma_byte_roundtrip(byte: u8)
        requires
            Self::takes(byte),
        ensures
            Self::of_byte(byte).wf(),
            Self::of_byte(byte).byte() == byte,
    {
    }

    /// The data byte: the coarse frequency itself.
    pub fn as_byte(&self) -> (b: u8)
        ensures
            b == self.model(),
            b == self.byte(),
            Self::takes(b),
    {
        proof {
            use_type_invariant(self);
        }
        self.0 as u8
    }

    /// The coarse frequency as text: its number.
    pub open spec fn text(&self) -> Seq<char> {
        number_chars(self.model())
    }

    /// The coarse frequency as text.
    pub fn to_string(&self) -> (r: String)
        ensures
            r@ == self.text(),
    {
        number_string(self.value())
    }

    /// The coarse frequency that a data byte stands for, if it stands for one.
    pub fn from_byte(byte: u8) -> (r: Result<Self, RangeError>)
        ensures
            Self::takes(byte) ==> r == Ok::<Self, RangeError>(Self::of_byte(byte)),
            !Self::takes(byte) ==> r == Err::<Self, RangeError>(
                RangeError { value: byte as i32, first: 0i32, last: 31i32 },
            ),
    {
        Self::new(byte as i32)
    }
}

impl Ranged for Coarse {
    const FIRST: i32 = 0;

    const LAST: i32 = 31;

    const DEFAULT: i32 = 0;

    open(crate) spec fn model(&self) -> int {
        self.0 as int
    }

    fn new(value: i32) -> (r: Result<Self, RangeError>)
        ensures
            0 <= value <= 31 ==> r == Ok::<Self, RangeError>(Self::of(value as int)),
            !(0 <= value <= 31) ==> r == Err::<Self, RangeError>(
                RangeError { value, first: 0i32, last: 31i32 },
            ),
    {
        if Self::contains(value) {
            Ok(Coarse(value))
        } else {
            Err(RangeError { value, first: Self::FIRST, last: Self::LAST })
        }
    }

    fn value(&self) -> (v: i32)
        ensures
            v == self.model(),
            0 <= v <= 31,
            self.wf(),
    {
        proof {
            use_type_invariant(self);
        }
        self.0
    }

    fn random() -> (r: Self)
        ensures
            r.wf(),
    {
        Coarse(random_between(Self::FIRST, Self::LAST))
    }
}

impl Default for Coarse {
    fn default() -> (r: Self)
        ensures
            r.model() == 0,
    {
        Coarse(Self::DEFAULT)
    }
}

/// Depth (0...7): keyboard rate scaling, key velocity sensitivity, feedback,
/// pitch modulation sensitivity.
#[derive(Debug, Clone, Copy, Eq, PartialEq, Structural)]
pub struct Depth(pub(crate) i32);

impl Depth {
    /// Every `Depth` lies in its range.
    #[verifier::type_invariant]
    pub open(crate) spec fn wf(self) -> bool {
        0 <= self.0 <= 7
    }

    /// The values of the constants of the range, for proofs outside this
    /// module.
    pub proof fn lemma_range()
        ensures
            Self::FIRST == 0,
            Self::LAST == 7,
            Self::DEFAULT == 0,
    {
    }

    /// The depth that stands for `value`.
    pub open(crate) spec fn of(value: int) -> Self {
        Depth(value as i32)
    }

    /// `of` and `model` are inverse to each other on the range.
    pub proof fn lemma_of_model(value: int)
        requires
            0 <= value <= 7,
        ensures
            Self::of(value).model() == value,
            Self::of(value).wf(),
    {
    }

    /// A depth is determined by the integer it stands for.
    pub proof fn lemma_model_injective(a: Self, b: Self)
        requires
            a.model() == b.model(),
        ensures
            a == b,
    {
    }

    /// The data byte that stands for the depth.
    pub open spec fn byte(&self) -> u8 {
        self.model() as u8
    }

    /// Whether a data byte stands for a depth.
    pub open spec fn takes(byte: u8) -> bool {
        byte <= 7
    }

    /// The depth that a data byte stands for.
    pub open spec fn of_byte(byte: u8) -> Self {
        Self::of(byte as int)
    }

    /// The byte of a depth is read as that depth.
    pub proof fn lemma_value_roundtrip(x: Self)
        requires
            x.wf(),
        ensures
            Self::takes(x.byte()),
            Self::of_byte(x.byte()) == x,
    {
    }

    /// The depth read from a byte is sent as that byte.
    pub proof fn lemma_byte_roundtrip(byte: u8)
        requires
            Self::takes(byte),
        ensures
            Self::of_byte(byte).wf(),
            Self::of_byte(byte).byte() == byte,
    {
    }

    /// The data byte: the depth itself.
    pub fn as_byte(&self) -> (b: u8)
        ensures
            b == self.model(),
            b == self.byte(),
            Self::takes(b),
    {
        proof {
            use_type_invariant(self);
        }
        self.0 as u8
    }

    /// The depth as text: its number.
    pub open spec fn text(&self) -> Seq<char> {
        number_chars(self.model())
    }

    /// The depth as text.
    pub fn to_string(&self) -> (r: String)
        ensures
            r@ == self.text(),
    {
        number_string(self.value())
    }

    /// The depth that a data byte stands for, if it stands for one.
    pub fn from_byte(byte: u8) -> (r: Result<Self, RangeError>)
        ensures
            Self::takes(byte) ==> r == Ok::<Self, RangeError>(Self::of_byte(byte)),
            !Self::takes(byte) ==> r == Err::<Self, RangeError>(
                RangeError { value: byte as i32, first: 0i32, last: 7i32 },
            ),
    {
        Self::new(byte as i32)
    }
}

impl Ranged for Depth {
    const FIRST: i32 = 0;

    const LAST: i32 = 7;

    const DEFAULT: i32 = 0;

    open(crate) spec fn model(&self) -> int {
        self.0 as int
    }

    fn new(value: i32) -> (r: Result<Self, RangeError>)
        ensures
            0 <= value <= 7 ==> r == Ok::<Self, RangeError>(Self::of(value as int)),
            !(0 <= value <= 7) ==> r == Err::<Self, RangeError>(
                RangeError { value, first: 0i32, last: 7i32 },
            ),
    {
        if Self::contains(value) {
            Ok(Depth(value))
        } else {
            Err(RangeError { value, first: Self::FIRST, last: Self::LAST })
        }
    }

    fn value(&self) -> (v: i32)
        ensures
            v == self.model(),
            0 <= v <= 7,
            self.wf(),
    {
        proof {
            use_type_invariant(self);
        }
        self.0
    }

    fn random() -> (r: Self)
        ensures
            r.wf(),
    {
        Depth(random_between(Self::FIRST, Self::LAST))
    }
}

impl Default for Depth {
    fn default() -> (r: Self)
        ensures
            r.model() == 0,
    {
        Depth(Self::DEFAULT)
    }
}

/// Key transpose in semitones (-24...+24), two octaves either way.
#[derive(Debug, Clone, Copy, Eq, PartialEq, Structural)]
pub struct Transpose(pub(crate) i32);

impl Transpose {
    /// Every `Transpose` lies in its range.
    #[verifier::type_invariant]
    pub open(crate) spec fn wf(self) -> bool {
        -24 <= self.0 <= 24
    }

    /// The values of the constants of the range, for proofs outside this
    /// module.
    pub proof fn lemma_range()
        ensures
            Self::FIRST == -24,
            Self::LAST == 24,
            Self::DEFAULT == 0,
    {
    }

    /// The transpose that stands for `value`.
    pub open(crate) spec fn of(value: int) -> Self {
        Transpose(value as i32)
    }

    /// `of` and `model` are inverse to each other on the range.
    pub proof fn lemma_of_model(value: int)
        requires
            -24 <= value <= 24,
        ensures
            Self::of(value).model() == value,
            Self::of(value).wf(),
    {
    }

    /// A transpose is determined by the integer it stands for.
    pub proof fn lemma_model_injective(a: Self, b: Self)
        requires
            a.model() == b.model(),
        ensures
            a == b,
    {
    }

    /// The data byte that stands for the transpose.
    pub open spec fn byte(&self) -> u8 {
        (self.model() + 24) as u8
    }

    /// Whether a data byte stands for a transpose.
    pub open spec fn takes(byte: u8) -> bool {
        byte <= 48
    }

    /// The transpose that a data byte stands for.
    pub open spec fn of_byte(byte: u8) -> Self {
        Self::of(byte as int - 24)
    }

    /// The byte of a transpose is read as that transpose.
    pub proof fn lemma_value_roundtrip(x: Self)
        requires
            x.wf(),
        ensures
            Self::takes(x.byte()),
            Self::of_byte(x.byte()) == x,
    {
    }

    /// The transpose read from a byte is sent as that byte.
    pub proof fn lemma_byte_roundtrip(byte: u8)
        requires
            Self::takes(byte),
        ensures
            Self::of_byte(byte).wf(),
            Self::of_byte(byte).byte() == byte,
    {
    }

    /// The data byte: the transpose plus 24, so that -24 is sent as 0.
    pub fn as_byte(&self) -> (b: u8)
        ensures
            b == self.model() + 24,
            b == self.byte(),
            Self::takes(b),
    {
        proof {
            use_type_invariant(self);
        }
        (self.0 + 24) as u8
    }

    /// The transpose as text: its number.
    pub open spec fn text(&self) -> Seq<char> {
        number_chars(self.model())
    }

    /// The transpose as text.
    pub fn to_string(&self) -> (r: String)
        ensures
            r@ == self.text(),
    {
        number_string(self.value())
    }

    /// The transpose that a data byte stands for, if it stands for one.
    pub fn from_byte(byte: u8) -> (r: Result<Self, RangeError>)
        ensures
            Self::takes(byte) ==> r == Ok::<Self, RangeError>(Self::of_byte(byte)),
            !Self::takes(byte) ==> r == Err::<Self, RangeError>(
                RangeError { value: (byte - 24) as i32, first: -24i32, last: 24i32 },
            ),
    {
        Self::new(byte as i32 - 24)
    }
}

impl Ranged for Transpose {
    const FIRST: i32 = -24;

    const LAST: i32 = 24;

    const DEFAULT: i32 = 0;

    open(crate) spec fn model(&self) -> int {
        self.0 as int
    }

    fn new(value: i32) -> (r: Result<Self, RangeError>)
        ensures
            -24 <= value <= 24 ==> r == Ok::<Self, RangeError>(Self::of(value as int)),
            !(-24 <= value <= 24) ==> r == Err::<Self, RangeError>(
                RangeError { value, first: -24i32, last: 24i32 },
            ),
    {
        if Self::contains(value) {
            Ok(Transpose(value))
        } else {
            Err(RangeError { value, first: Self::FIRST, last: Self::LAST })
        }
    }

    fn value(&self) -> (v: i32)
        ensures
            v == self.model(),
            -24 <= v <= 24,
            self.wf(),
    {
        proof {
            use_type_invariant(self);
        }
        self.0
    }

    fn random() -> (r: Self)
        ensures
            r.wf(),
    {
        Transpose(random_between(Self::FIRST, Self::LAST))
    }
}

impl Default for Transpose {
    fn default() -> (r: Self)
        ensures
            r.model() == 0,
    {
        Transpose(Self::DEFAULT)
    }
}

/// Amplitude modulation sensitivity (0...3).
#[derive(Debug, Clone, Copy, Eq, PartialEq, Structural)]
pub struct Sensitivity(pub(crate) i32);

impl Sensitivity {
    /// Every `Sensitivity` lies in its range.
    #[verifier::type_invariant]
    pub open(crate) spec fn wf(self) -> bool {
        0 <= self.0 <= 3
    }

    /// The values of the constants of the range, for proofs outside this
    /// module.
    pub proof fn lemma_range()
        ensures
            Self::FIRST == 0,
            Self::LAST == 3,
            Self::DEFAULT == 0,
    {
    }

    /// The sensitivity that stands for `value`.
    pub open(crate) spec fn of(value: int) -> Self {
        Sensitivity(value as i32)
    }

    /// `of` and `model` are inverse to each other on the range.
    pub proof fn lemma_of_model(value: int)
        requires
            0 <= value <= 3,
        ensures
            Self::of(value).model() == value,
            Self::of(value).wf(),
    {
    }

    /// A sensitivity is determined by the integer it stands for.
    pub proof fn lemma_model_injective(a: Self, b: Self)
        requires
            a.model() == b.model(),
        ensures
            a == b,
    {
    }

    /// The data byte that stands for the sensitivity.
    pub open spec fn byte(&self) -> u8 {
        self.model() as u8
    }

    /// Whether a data byte stands for a sensitivity.
    pub open spec fn takes(byte: u8) -> bool {
        byte <= 3
    }

    /// The sensitivity that a data byte stands for.
    pub open spec fn of_byte(byte: u8) -> Self {
        Self::of(byte as int)
    }

    /// The byte of a sensitivity is read as that sensitivity.
    pub proof fn lemma_value_roundtrip(x: Self)
        requires
            x.wf(),
        ensures
            Self::takes(x.byte()),
            Self::of_byte(x.byte()) == x,
    {
    }

    /// The sensitivity read from a byte is sent as that byte.
    pub proof fn lemma_byte_roundtrip(byte: u8)
        requires
            Self::takes(byte),
        ensures
            Self::of_byte(byte).wf(),
            Self::of_byte(byte).byte() == byte,
    {
    }

    /// The data byte: the sensitivity itself.
    pub fn as_byte(&self) -> (b: u8)
        ensures
            b == self.model(),
            b == self.byte(),
            Self::takes(b),
    {
        proof {
            use_type_invariant(self);
        }
        self.0 as u8
    }

    /// The sensitivity as text: its number.
    pub open spec fn text(&self) -> Seq<char> {
        number_chars(self.model())
    }

    /// The sensitivity as text.
    pub fn to_string(&self) -> (r: String)
        ensures
            r@ == self.text(),
    {
        number_string(self.value())
    }

    /// The sensitivity that a data byte stands for, if it stands for one.
    pub fn from_byte(byte: u8) -> (r: Result<Self, RangeError>)
        ensures
            Self::takes(byte) ==> r == Ok::<Self, RangeError>(Self::of_byte(byte)),
            !Self::takes(byte) ==> r == Err::<Self, RangeError>(
                RangeError { value: byte as i32, first: 0i32, last: 3i32 },
            ),
    {
        Self::new(byte as i32)
    }
}

impl Ranged for Sensitivity {
    const FIRST: i32 = 0;

    const LAST: i32 = 3;

    const DEFAULT: i32 = 0;

    open(crate) spec fn model(&self) -> int {
        self.0 as int
    }

    fn new(value: i32) -> (r: Result<Self, RangeError>)
        ensures
            0 <= value <= 3 ==> r == Ok::<Self, RangeError>(Self::of(value as int)),
            !(0 <= value <= 3) ==> r == Err::<Self, RangeError>(
                RangeError { value, first: 0i32, last: 3i32 },
            ),
    {
        if Self::contains(value) {
            Ok(Sensitivity(value))
        } else {
            Err(RangeError { value, first: Self::FIRST, last: Self::LAST })
        }
    }

    fn value(&self) -> (v: i32)
        ensures
            v == self.model(),
            0 <= v <= 3,
            self.wf(),
    {
        proof {
            use_type_invariant(self);
        }
        self.0
    }

    fn random() -> (r: Self)
        ensures
            r.wf(),
    {
        Sensitivity(random_between(Self::FIRST, Self::LAST))
    }
}

impl Default for Sensitivity {
    fn default() -> (r: Self)
        ensures
            r.model() == 0,
    {
        Sensitivity(Self::DEFAULT)
    }
}

/// Level (0...99): envelope levels, operator output level, fine frequency,
/// LFO amounts.
#[derive(Debug, Clone, Copy, Eq, PartialEq, Structural)]
pub struct Level(pub(crate) i32);

impl Level {
    /// Every `Level` lies in its range.
    #[verifier::type_invariant]
    pub open(crate) spec fn wf(self) -> bool {
        0 <= self.0 <= 99
    }

    /// The values of the constants of the range, for proofs outside this
    /// module.
    pub proof fn lemma_range()
        ensures
            Self::FIRST == 0,
            Self::LAST == 99,
            Self::DEFAULT == 0,
    {
    }

    /// The level that stands for `value`.
    pub open(crate) spec fn of(value: int) -> Self {
        Level(value as i32)
    }

    /// `of` and `model` are inverse to each other on the range.
    pub proof fn lemma_of_model(value: int)
        requires
            0 <= value <= 99,
        ensures
            Self::of(value).model() == value,
            Self::of(value).wf(),
    {
    }

    /// A level is determined by the integer it stands for.
    pub proof fn lemma_model_injective(a: Self, b: Self)
        requires
            a.model() == b.model(),
        ensures
            a == b,
    {
    }

    /// The data byte that stands for the level.
    pub open spec fn byte(&self) -> u8 {
        self.model() as u8
    }

    /// Whether a data byte stands for a level.
    pub open spec fn takes(byte: u8) -> bool {
        byte <= 99
    }

    /// The level that a data byte stands for.
    pub open spec fn of_byte(byte: u8) -> Self {
        Self::of(byte as int)
    }

    /// The byte of a level is read as that level.
    pub proof fn lemma_value_roundtrip(x: Self)
        requires
            x.wf(),
        ensures
            Self::takes(x.byte()),
            Self::of_byte(x.byte()) == x,
    {
    }

    /// The level read from a byte is sent as that byte.
    pub proof fn lemma_byte_roundtrip(byte: u8)
        requires
            Self::takes(byte),
        ensures
            Self::of_byte(byte).wf(),
            Self::of_byte(byte).byte() == byte,
    {
    }

    /// The data byte: the level itself.
    pub fn as_byte(&self) -> (b: u8)
        ensures
            b == self.model(),
            b == self.byte(),
            Self::takes(b),
    {
        proof {
            use_type_invariant(self);
        }
        self.0 as u8
    }

    /// The level as text: its number.
    pub open spec fn text(&self) -> Seq<char> {
        number_chars(self.model())
    }

    /// The level as text.
    pub fn to_string(&self) -> (r: String)
        ensures
            r@ == self.text(),
    {
        number_string(self.value())
    }

    /// The level that a data byte stands for, if it stands for one.
    pub fn from_byte(byte: u8) -> (r: Result<Self, RangeError>)
        ensures
            Self::takes(byte) ==> r == Ok::<Self, RangeError>(Self::of_byte(byte)),
            !Self::takes(byte) ==> r == Err::<Self, RangeError>(
                RangeError { value: byte as i32, first: 0i32, last: 99i32 },
            ),
    {
        Self::new(byte as i32)
    }
}

impl Ranged for Level {
    const FIRST: i32 = 0;

    const LAST: i32 = 99;

    const DEFAULT: i32 = 0;

    open(crate) spec fn model(&self) -> int {
        self.0 as int
    }

    fn new(value: i32) -> (r: Result<Self, RangeError>)
        ensures
            0 <= value <= 99 ==> r == Ok::<Self, RangeError>(Self::of(value as int)),
            !(0 <= value <= 99) ==> r == Err::<Self, RangeError>(
                RangeError { value, first: 0i32, last: 99i32 },
            ),
    {
        if Self::contains(value) {
            Ok(Level(value))
        } else {
            Err(RangeError { value, first: Self::FIRST, last: Self::LAST })
        }
    }

    fn value(&self) -> (v: i32)
        ensures
            v == self.model(),
            0 <= v <= 99,
            self.wf(),
    {
        proof {
            use_type_invariant(self);
        }
        self.0
    }

    fn random() -> (r: Self)
        ensures
            r.wf(),
    {
        Level(random_between(Self::FIRST, Self::LAST))
    }
}

impl Default for Level {
    fn default() -> (r: Self)
        ensures
            r.model() == 0,
    {
        Level(Self::DEFAULT)
    }
}

/// The first offset at which two slices of one length differ. `None` where
/// they do not differ, and where their lengths do.
pub fn compare_slices(v1: &[u8], v2: &[u8]) -> (r: Option<usize>)
    ensures
        v1@.len() != v2@.len() ==> r is None,
        v1@ == v2@ ==> r is None,
        r matches Some(offset) ==> {
            &&& v1@.len() == v2@.len()
            &&& offset < v1@.len()
            &&& v1@[offset as int] != v2@[offset as int]
            &&& v1@.subrange(0, offset as int) == v2@.subrange(0, offset as int)
        },
        v1@.len() == v2@.len() && v1@ != v2@ ==> r is Some,
{
    if v1.len() != v2.len() {
        return None;
    }
    let mut offset: usize = 0;
    while offset < v1.len()
        invariant
            offset <= v1@.len(),
            v1@.len() == v2@.len(),
            v1@.subrange(0, offset as int) == v2@.subrange(0, offset as int),
        decreases v1@.len() - offset,
    {
        if v1[offset] != v2[offset] {
            return Some(offset);
        }
        assert(v1@.subrange(0, offset + 1) == v1@.subrange(0, offset as int).push(
            v1@[offset as int],
        ));
        assert(v2@.subrange(0, offset + 1) == v2@.subrange(0, offset as int).push(
            v2@[offset as int],
        ));
        offset += 1;
    }
    assert(v1@ == v1@.subrange(0, offset as int));
    assert(v2@ == v2@.subrange(0, offset as int));
    None
}

} // verus!
