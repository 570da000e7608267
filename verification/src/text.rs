//! Text for values: names and numbers as strings.

use vstd::prelude::*;
use vstd::string::StringExecFns;

verus! {

/// `String::push` appends the character to the end of the string.
pub assume_specification[ String::push ](s: &mut String, ch: char)
    ensures
        final(s)@ == old(s)@.push(ch),
;

/// Whether every byte is an ASCII character.
pub open spec fn all_ascii(bytes: Seq<u8>) -> bool {
    forall|i: int| 0 <= i < bytes.len() ==> #[trigger] bytes[i] < 128
}

/// The characters that ASCII bytes stand for, one for each byte.
pub open spec fn ascii_chars(bytes: Seq<u8>) -> Seq<char> {
    Seq::new(bytes.len(), |i: int| bytes[i] as char)
}

/// The string that ASCII bytes stand for.
pub fn ascii_string(bytes: &[u8]) -> (s: String)
    requires
        all_ascii(bytes@),
    ensures
        s@ == ascii_chars(bytes@),
{
    let mut s = String::new();
    let mut i: usize = 0;
    while i < bytes.len()
        invariant
            i <= bytes@.len(),
            all_ascii(bytes@),
            s@ == ascii_chars(bytes@.subrange(0, i as int)),
        decreases bytes@.len() - i,
    {
        assert(bytes@[i as int] < 128);
        s.push(bytes[i] as char);
        assert(ascii_chars(bytes@.subrange(0, i + 1)) =~= ascii_chars(
            bytes@.subrange(0, i as int),
        ).push(bytes@[i as int] as char));
        i += 1;
    }
    assert(bytes@.subrange(0, i as int) =~= bytes@);
    s
}

/// The character of the digit `digit`.
pub open spec fn digit_char(digit: int) -> char {
    (48 + digit) as char
}

/// The digits of a number that is not negative, the highest first.
pub open spec fn decimal_chars(n: int) -> Seq<char>
    decreases n,
{
    if n < 10 {
        seq![digit_char(n)]
    } else {
        decimal_chars(n / 10).push(digit_char(n % 10))
    }
}

/// A number as text: its digits, after a minus sign where it is negative.
pub open spec fn number_chars(n: int) -> Seq<char> {
    if n < 0 {
        seq!['-'] + decimal_chars(-n)
    } else {
        decimal_chars(n)
    }
}

/// Appends the digits of `n`.
pub fn push_decimal(s: &mut String, n: u32)
    ensures
        final(s)@ == old(s)@ + decimal_chars(n as int),
    decreases n,
{
    if n >= 10 {
        push_decimal(s, n / 10);
    }
    let digit = (48 + n % 10) as u8;
    s.push(digit as char);
    assert(s@ =~= old(s)@ + decimal_chars(n as int));
}

/// Appends `n` as text.
pub fn push_number(s: &mut String, n: i32)
    ensures
        final(s)@ == old(s)@ + number_chars(n as int),
{
    if n < 0 {
        s.push('-');
        let magnitude = (-(n as i64)) as u32;
        push_decimal(s, magnitude);
        assert(s@ =~= old(s)@ + number_chars(n as int));
    } else {
        push_decimal(s, n as u32);
    }
}

/// `n` as text.
pub fn number_string(n: i32) -> (s: String)
    ensures
        s@ == number_chars(n as int),
{
    let mut s = String::new();
    push_number(&mut s, n);
    assert(s@ =~= number_chars(n as int));
    s
}

/// Appends `text`.
pub fn push_text(s: &mut String, text: &str)
    ensures
        final(s)@ == old(s)@ + text@,
{
    s.append(text);
}

} // verus!
