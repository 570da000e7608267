//! Bit fields inside a byte.
//!
//! A field is `len` neighbouring bits of a byte, the lowest of them at
//! position `start`, bit 0 being the least significant. What a field holds is
//! stated with division and remainder by the weight of a bit, so that a
//! layout built from fields reads as plain arithmetic; the laws of fields are
//! proved once, here, by the bit-vector solver.

use bit::BitIndex;
use vstd::prelude::*;

verus! {

/// The weight of the bit at position `bit`: two to that power. Beyond a
/// byte's eight bits the weight is that of a ninth bit.
pub open spec fn weight(bit: u32) -> u32 {
    if bit == 0 {
        1
    } else if bit == 1 {
        2
    } else if bit == 2 {
        4
    } else if bit == 3 {
        8
    } else if bit == 4 {
        16
    } else if bit == 5 {
        32
    } else if bit == 6 {
        64
    } else if bit == 7 {
        128
    } else {
        256
    }
}

/// What the field of `len` bits at `start` holds in `byte`.
pub open spec fn field(byte: u8, start: u32, len: u32) -> u8 {
    ((byte as u32 / weight(start)) % weight(len)) as u8
}

/// `byte` with the field of `len` bits at `start` replaced by the low `len`
/// bits of `value`; every other bit stays.
pub open spec fn with_field(byte: u8, start: u32, len: u32, value: u8) -> u8 {
    (byte as u32 - field(byte, start, len) as u32 * weight(start) + (value as u32 % weight(len))
        * weight(start)) as u8
}

/// The byte whose only set bits are two fields lying side by side from bit 0:
/// `low_len` bits of `low`, and above them `high_len` bits of `high`.
pub open spec fn joined(low: u8, low_len: u32, high: u8, high_len: u32) -> u8 {
    with_field(with_field(0, 0, low_len, low), low_len, high_len, high)
}

/// Whether `value` needs no more than `len` bits.
pub open spec fn fits(value: u8, len: u32) -> bool {
    (value as u32) < weight(len)
}

/// `bit::BitIndex::bit_range` on a byte, for the bits from `start` up to but
/// not including `end`. The crate shifts the byte left until bit `end - 1` is
/// on top, then right until bit `start` is at the bottom, which leaves the
/// field's content; it panics unless `start < end <= 8`.
#[verifier::external_body]
fn bit_range(byte: u8, start: u32, end: u32) -> (r: u8)
    requires
        start < end <= 8,
    ensures
        r == field(byte, start, (end - start) as u32),
{
    byte.bit_range(start as usize..end as usize)
}

/// `bit::BitIndex::set_bit_range` on a byte, for the bits from `start` up to
/// but not including `end`. The crate clears those bits and puts `value`,
/// shifted to `start`, in their place. It panics unless `start < end <= 8`,
/// and unless `value` has no bit set at or above `end - start`; it checks the
/// latter with `bit_range`, which takes no empty range, so the whole byte
/// cannot be set this way.
#[verifier::external_body]
fn set_bit_range(byte: u8, start: u32, end: u32, value: u8) -> (r: u8)
    requires
        start < end <= 8,
        end - start < 8,
        fits(value, (end - start) as u32),
    ensures
        r == with_field(byte, start, (end - start) as u32, value),
{
    let mut changed = byte;
    changed.set_bit_range(start as usize..end as usize, value);
    changed
}

/// `bit::BitIndex::bit` on a byte: whether the bit at `pos` is set. The crate
/// panics unless `pos < 8`.
#[verifier::external_body]
fn bit(byte: u8, pos: u32) -> (r: bool)
    requires
        pos < 8,
    ensures
        r == (field(byte, pos, 1) == 1),
{
    byte.bit(pos as usize)
}

/// A field never holds more than its bits allow.
pub proof fn lemma_field_fits(byte: u8, start: u32, len: u32)
    by (bit_vector)
    ensures
        fits(field(byte, start, len), len),
{
}

/// A value that fits a field is what the field holds after it was written.
pub proof fn lemma_fits_field(value: u8, len: u32)
    by (bit_vector)
    requires
        fits(value, len),
    ensures
        field(value, 0, len) == value,
{
}

/// A field that was written holds the low bits of what was written.
pub proof fn lemma_with_field(byte: u8, start: u32, len: u32, value: u8)
    by (bit_vector)
    requires
        0 < len,
        start + len <= 8,
    ensures
        field(with_field(byte, start, len, value), start, len) == field(value, 0, len),
{
}

/// Only the low bits of what is written count.
pub proof fn lemma_with_field_low(byte: u8, start: u32, len: u32, value: u8)
    by (bit_vector)
    requires
        0 < len,
        start + len <= 8,
    ensures
        with_field(byte, start, len, field(value, 0, len)) == with_field(
            byte,
            start,
            len,
            value,
        ),
{
}

/// Writing a field leaves every field beside it as it was.
pub proof fn lemma_with_field_beside(
    byte: u8,
    start: u32,
    len: u32,
    value: u8,
    other_start: u32,
    other_len: u32,
)
    by (bit_vector)
    requires
        0 < len,
        start + len <= 8,
        0 < other_len,
        other_start + other_len <= 8,
        other_start + other_len <= start || start + len <= other_start,
    ensures
        field(with_field(byte, start, len, value), other_start, other_len) == field(
            byte,
            other_start,
            other_len,
        ),
{
}

/// Two fields joined: the low one holds the low bits of what went into it.
pub proof fn lemma_joined_low(low: u8, low_len: u32, high: u8, high_len: u32)
    by (bit_vector)
    requires
        0 < low_len,
        0 < high_len,
        low_len + high_len <= 8,
    ensures
        field(joined(low, low_len, high, high_len), 0, low_len) == field(low, 0, low_len),
{
}

/// Two fields joined: the high one holds the low bits of what went into it.
pub proof fn lemma_joined_high(low: u8, low_len: u32, high: u8, high_len: u32)
    by (bit_vector)
    requires
        0 < low_len,
        0 < high_len,
        low_len + high_len <= 8,
    ensures
        field(joined(low, low_len, high, high_len), low_len, high_len) == field(
            high,
            0,
            high_len,
        ),
{
}

/// Two fields joined: the byte is the sum of both by their weights.
pub proof fn lemma_joined_sum(low: u8, low_len: u32, high: u8, high_len: u32)
    by (bit_vector)
    requires
        0 < low_len,
        0 < high_len,
        low_len + high_len <= 8,
    ensures
        joined(low, low_len, high, high_len) as u32 == (field(low, 0, low_len) as u32 + field(
            high,
            0,
            high_len,
        ) as u32 * weight(low_len)) as u32,
{
}

/// Two fields joined leave the `len` bits from `start` clear, where these
/// are the bits above both.
pub proof fn lemma_joined_above(
    low: u8,
    low_len: u32,
    high: u8,
    high_len: u32,
    start: u32,
    len: u32,
)
    by (bit_vector)
    requires
        0 < low_len,
        0 < high_len,
        0 < len,
        low_len + high_len <= start,
        start + len <= 8,
    ensures
        field(joined(low, low_len, high, high_len), start, len) == 0,
{
}

/// Two values that fit their fields, joined: each field holds its value,
/// and the byte is the low value plus the high one times the weight of the
/// bit where the high field starts.
pub proof fn lemma_joined_fitting(low: u8, low_len: u32, high: u8, high_len: u32)
    requires
        0 < low_len,
        0 < high_len,
        low_len + high_len <= 8,
        fits(low, low_len),
        fits(high, high_len),
    ensures
        field(joined(low, low_len, high, high_len), 0, low_len) == low,
        field(joined(low, low_len, high, high_len), low_len, high_len) == high,
        joined(low, low_len, high, high_len) == low + high * weight(low_len),
{
    lemma_joined_low(low, low_len, high, high_len);
    lemma_joined_high(low, low_len, high, high_len);
    lemma_joined_sum(low, low_len, high, high_len);
    lemma_fits_field(low, low_len);
    lemma_fits_field(high, high_len);
}

/// Reads the field of `len` bits at `start`.
pub fn extract_bits(byte: u8, start: u32, len: u32) -> (r: u8)
    requires
        0 < len,
        start + len <= 8,
    ensures
        r == field(byte, start, len),
        fits(r, len),
{
    proof {
        lemma_field_fits(byte, start, len);
    }
    bit_range(byte, start, start + len)
}

/// Whether the bit at `pos` is set.
pub fn test_bit(byte: u8, pos: u32) -> (r: bool)
    requires
        pos < 8,
    ensures
        r == (field(byte, pos, 1) == 1),
        !r == (field(byte, pos, 1) == 0),
{
    proof {
        lemma_field_fits(byte, pos, 1);
    }
    bit(byte, pos)
}

/// Writes the low `len` bits of `value` into the field of `len` bits at
/// `start`. Bits of `value` above the field are dropped, so that a value too
/// large for the field cannot reach the bits next to it.
pub fn set_bits(byte: u8, start: u32, len: u32, value: u8) -> (r: u8)
    requires
        0 < len < 8,
        start + len <= 8,
    ensures
        r == with_field(byte, start, len, value),
{
    let low = bit_range(value, 0, len);
    proof {
        lemma_field_fits(value, 0, len);
        lemma_with_field_low(byte, start, len, value);
    }
    set_bit_range(byte, start, start + len, low)
}

/// Puts two fields side by side in a fresh byte: `low_len` bits of `low` from
/// bit 0, and `high_len` bits of `high` above them.
pub fn join_bits(low: u8, low_len: u32, high: u8, high_len: u32) -> (r: u8)
    requires
        0 < low_len,
        0 < high_len,
        low_len + high_len <= 8,
    ensures
        r == joined(low, low_len, high, high_len),
{
    set_bits(set_bits(0, 0, low_len, low), low_len, high_len, high)
}

} // verus!
