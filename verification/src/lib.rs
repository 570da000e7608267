//! Yamaha DX7 voice data: typed parameters, and the two byte encodings that
//! the instrument uses for them in MIDI System Exclusive messages.
//!
//! A voice travels either alone, one byte per parameter (the *unpacked*
//! form), or in a bank of 32, several small parameters sharing a byte (the
//! *packed* form). Every step between packed bytes, unpacked bytes and typed
//! values is a function with a contract over `Seq<u8>`.

use crate::text::number_chars;
use crate::text::push_decimal;
use crate::text::push_number;
use crate::text::push_text;
use rand::Rng;
use rand::seq::SliceRandom;
use vstd::prelude::*;

pub mod bits;
pub mod dx7;
pub mod text;

verus! {

/// Why a buffer could not be read as System Exclusive data.
#[derive(Debug, Eq, PartialEq, Copy, Clone, Structural)]
pub enum ParseError {
    /// The buffer's length (first) is not the length that the data has
    /// (second).
    InvalidLength(u32, u32),
    /// The checksum computed (first) is not the one that came with the data
    /// (second).
    InvalidChecksum(u8, u8),
    /// The byte at this offset holds a value that its parameter cannot take.
    InvalidData(u32),
    /// The data is neither a voice nor a cartridge.
    Unidentified,
}

impl ParseError {
    /// The error as it reads for a buffer in which the data starts at
    /// `base`: an offset moves up by `base`, anything else stays.
    pub open spec fn moved(self, base: u32) -> ParseError {
        match self {
            ParseError::InvalidData(offset) => ParseError::InvalidData((offset + base) as u32),
            other => other,
        }
    }

    /// Computes `moved`. The offset must stay within `u32`.
    pub fn at(self, base: u32) -> (r: ParseError)
        requires
            self matches ParseError::InvalidData(offset) ==> offset + base <= u32::MAX,
        ensures
            r == self.moved(base),
    {
        match self {
            ParseError::InvalidData(offset) => ParseError::InvalidData(offset + base),
            other => other,
        }
    }
}

impl ParseError {
    /// The error in words.
    pub open spec fn text(self) -> Seq<char> {
        match self {
            ParseError::InvalidLength(actual, expected) => "Got "@ + number_chars(actual as int)
                + " bytes of data, expected "@ + number_chars(expected as int) + " bytes."@,
            ParseError::InvalidChecksum(actual, expected) => "Computed checksum was "@
                + number_chars(actual as int) + "H, expected "@ + number_chars(expected as int)
                + "H."@,
            ParseError::InvalidData(offset) => "Invalid data at offset "@ + number_chars(
                offset as int,
            ) + "."@,
            ParseError::Unidentified => "Unable to identify this System Exclusive file."@,
        }
    }

    /// The error in words.
    pub fn to_string(&self) -> (r: String)
        ensures
            r@ == self.text(),
    {
        let mut s = String::new();
        match self {
            ParseError::InvalidLength(actual, expected) => {
                push_text(&mut s, "Got ");
                push_decimal(&mut s, *actual);
                push_text(&mut s, " bytes of data, expected ");
                push_decimal(&mut s, *expected);
                push_text(&mut s, " bytes.");
            },
            ParseError::InvalidChecksum(actual, expected) => {
                push_text(&mut s, "Computed checksum was ");
                push_decimal(&mut s, *actual as u32);
                push_text(&mut s, "H, expected ");
                push_decimal(&mut s, *expected as u32);
                push_text(&mut s, "H.");
            },
            ParseError::InvalidData(offset) => {
                push_text(&mut s, "Invalid data at offset ");
                push_decimal(&mut s, *offset);
                push_text(&mut s, ".");
            },
            ParseError::Unidentified => {
                push_text(&mut s, "Unable to identify this System Exclusive file.");
            },
        }
        assert(s@ =~= self.text());
        s
    }
}

/// A value outside the range of the type it was meant for.
#[derive(Debug, Eq, PartialEq, Copy, Clone, Structural)]
pub struct RangeError {
    /// The value that was refused.
    pub value: i32,
    /// The smallest value that the type takes.
    pub first: i32,
    /// The largest value that the type takes.
    pub last: i32,
}

impl RangeError {
    /// The error in words.
    pub open spec fn text(self) -> Seq<char> {
        "expected value in range ["@ + number_chars(self.first as int) + "..."@ + number_chars(
            self.last as int,
        ) + "], got "@ + number_chars(self.value as int)
    }

    /// The error in words.
    pub fn to_string(&self) -> (r: String)
        ensures
            r@ == self.text(),
    {
        let mut s = String::new();
        push_text(&mut s, "expected value in range [");
        push_number(&mut s, self.first);
        push_text(&mut s, "...");
        push_number(&mut s, self.last);
        push_text(&mut s, "], got ");
        push_number(&mut s, self.value);
        assert(s@ =~= self.text());
        s
    }
}

/// A buffer length as `ParseError::InvalidLength` reports it: the length
/// itself, or `u32::MAX` where it does not fit.
pub open spec fn reported_len(len: nat) -> u32 {
    if len <= u32::MAX {
        len as u32
    } else {
        u32::MAX
    }
}

/// Computes `reported_len`.
pub fn report_len(len: usize) -> (r: u32)
    ensures
        r == reported_len(len as nat),
{
    if len <= u32::MAX as usize {
        len as u32
    } else {
        u32::MAX
    }
}

/// An integer kept inside a closed range `FIRST..=LAST`.
///
/// A value of an implementing type always stands for an integer of the
/// range: `new` refuses any other, and there is no way to change a value
/// once made: `value` gives back the integer that `new` was given.
pub trait Ranged: Sized {
    /// The smallest value.
    const FIRST: i32;

    /// The largest value.
    const LAST: i32;

    /// The value that `Default` gives.
    const DEFAULT: i32;

    /// The integer that the value stands for. Each type says which it is;
    /// of a type that does not, nothing is known.
    open spec fn model(&self) -> int {
        arbitrary()
    }

    /// Makes the value that stands for `value`, which must lie in the range.
    fn new(value: i32) -> (r: Result<Self, RangeError>)
        ensures
            r is Ok <==> Self::FIRST <= value <= Self::LAST,
            r matches Ok(made) ==> made.model() == value,
            r matches Err(e) ==> e == (RangeError {
                value,
                first: Self::FIRST,
                last: Self::LAST,
            }),
    ;

    /// The integer that the value stands for: the one that `new` was given.
    fn value(&self) -> (v: i32)
        ensures
            v == self.model(),
            Self::FIRST <= v <= Self::LAST,
    ;

    /// Whether `value` lies in the range.
    fn contains(value: i32) -> (b: bool)
        ensures
            b == (Self::FIRST <= value <= Self::LAST),
    {
        Self::FIRST <= value && value <= Self::LAST
    }

    /// Some value of the range, drawn at random.
    fn random() -> (r: Self)
        ensures
            Self::FIRST <= r.model() <= Self::LAST,
    ;
}

/// `rand::Rng::gen_range` on the thread's generator, over the inclusive range
/// from `first` to `last`. The range must not be empty, or the generator
/// panics; whatever is drawn lies in the range.
#[verifier::external_body]
pub(crate) fn random_between(first: i32, last: i32) -> (r: i32)
    requires
        first <= last,
    ensures
        first <= r <= last,
{
    rand::thread_rng().gen_range(first..=last)
}

/// `rand::seq::SliceRandom::choose` on the thread's generator: one of the
/// items of the slice, whichever the generator picks, and `None` where the
/// slice is empty.
#[verifier::external_body]
pub(crate) fn random_item(items: &[u8]) -> (r: Option<u8>)
    ensures
        items@.len() == 0 ==> r is None,
        items@.len() > 0 ==> r is Some && items@.contains(r->Some_0),
{
    items.choose(&mut rand::thread_rng()).copied()
}

} // verus!
