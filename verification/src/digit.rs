//! The hexadecimal digit alphabet: `0`-`9` for the values 0 to 9 and the
//! upper-case letters `A`-`F` for 10 to 15. Lower-case letters are no digits.

use crate::color::ColorError;
use vstd::prelude::*;

verus! {

/// Whether byte `x` is one of the sixteen digits.
pub open spec fn is_hex_digit(x: u8) -> bool {
    ('0' as u8 <= x && x <= '9' as u8) || ('A' as u8 <= x && x <= 'F' as u8)
}

/// The value, 0 to 15, that digit `x` stands for. Meaningful for a digit
/// only.
pub open spec fn digit_value(x: u8) -> nat
    recommends
        is_hex_digit(x),
{
    if x <= '9' as u8 {
        (x - '0' as u8) as nat
    } else {
        (x - 'A' as u8 + 10) as nat
    }
}

/// What reading byte `x` as a digit gives: its value, or `InvalidHexDigit`
/// for a byte that is no digit.
pub open spec fn hex_value(x: u8) -> Result<u8, ColorError> {
    if is_hex_digit(x) {
        Ok(digit_value(x) as u8)
    } else {
        Err(ColorError::InvalidHexDigit)
    }
}

/// Whether character `c` is one of the sixteen digits.
pub open spec fn is_hex_digit_char(c: char) -> bool {
    ('0' <= c && c <= '9') || ('A' <= c && c <= 'F')
}

/// The digit, as a byte, that stands for the value `d`. Meaningful for
/// `d < 16` only.
pub open spec fn digit_byte(d: nat) -> u8
    recommends
        d < 16,
{
    if d < 10 {
        ('0' as u8 + d) as u8
    } else {
        ('A' as u8 + d - 10) as u8
    }
}

/// The digit, as a character, that stands for the value `d`.
pub open spec fn digit_char(d: nat) -> char
    recommends
        d < 16,
{
    digit_byte(d) as char
}

/// The character written for a value below sixteen is a digit, and an ASCII
/// character.
pub proof fn lemma_digit_char(d: nat)
    requires
        d < 16,
    ensures
        is_hex_digit_char(digit_char(d)),
        digit_char(d) <= '\u{7f}',
{
}

/// Reading a digit gives back the value that it was written for.
pub proof fn lemma_digit_value(d: nat)
    requires
        d < 16,
    ensures
        is_hex_digit(digit_byte(d)),
        digit_value(digit_byte(d)) == d,
        digit_char(d) as u8 == digit_byte(d),
{
}

/// Writing the value of a digit gives back that digit.
pub proof fn lemma_value_digit(x: u8)
    requires
        is_hex_digit(x),
    ensures
        digit_value(x) < 16,
        digit_byte(digit_value(x)) == x,
{
}

/// Converts one digit to its value, 0 to 15.
///
/// Succeeds exactly on the bytes `0`-`9` and `A`-`F`; every other byte,
/// a lower-case letter included, is an `InvalidHexDigit`.
pub fn hex_table(x: u8) -> (res: Result<u8, ColorError>)
    ensures
        res == hex_value(x),
        res is Ok <==> is_hex_digit(x),
{
    match x {
        48..=57 => Ok(x - 48),
        65..=70 => Ok(x - 55),
        _ => Err(ColorError::InvalidHexDigit),
    }
}

} // verus!
