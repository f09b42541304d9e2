//! Decoding: from the text `#RRGGBB` back to the colour.
//!
//! A text is read by its UTF-8 bytes. It is well framed when it has exactly
//! seven bytes of which the first is `#`; its six other bytes must be digits.

use crate::color::{ColorError, RGB};
use crate::digit::{
    digit_char, digit_value, hex_table, is_hex_digit, lemma_digit_char, lemma_digit_value,
    lemma_value_digit,
};
use crate::encode::{hex_color, is_hex_color, lemma_hex_color_format};
use vstd::prelude::*;
use vstd::utf8::{encode_scalar, encode_utf8, is_ascii_chars, is_ascii_chars_encode_utf8};

verus! {

/// Whether `b` has the length and the first byte of a colour's text.
pub open spec fn is_framed(b: Seq<u8>) -> bool {
    b.len() == 7 && b[0] == '#' as u8
}

/// Whether the six bytes after the first are all digits.
pub open spec fn has_digits(b: Seq<u8>) -> bool {
    forall|i: int| 1 <= i < 7 ==> is_hex_digit(#[trigger] b[i])
}

/// The channel that the two digits `hi` and `lo` write.
pub open spec fn pair_value(hi: u8, lo: u8) -> nat {
    digit_value(hi) * 16 + digit_value(lo)
}

/// The colour that the bytes `b` write, or why they write none. A wrong
/// length or first byte is reported before any digit is looked at.
pub open spec fn decode_bytes(b: Seq<u8>) -> Result<RGB, ColorError> {
    if !is_framed(b) {
        Err(ColorError::MalformedHexString)
    } else if !has_digits(b) {
        Err(ColorError::InvalidHexDigit)
    } else {
        Ok(
            RGB {
                r: pair_value(b[1], b[2]) as u8,
                g: pair_value(b[3], b[4]) as u8,
                b: pair_value(b[5], b[6]) as u8,
            },
        )
    }
}

/// The colour that the text `s` writes, or why it writes none.
pub open spec fn decode_text(s: Seq<char>) -> Result<RGB, ColorError> {
    decode_bytes(encode_utf8(s))
}

/// The text of a colour, taken byte by byte: seven ASCII bytes, `#` and the
/// six digits.
proof fn lemma_hex_color_bytes(c: RGB)
    ensures
        encode_utf8(hex_color(c)).len() == 7,
        forall|i: int| 0 <= i < 7 ==> encode_utf8(hex_color(c))[i] == hex_color(c)[i] as u8,
{
    let s = hex_color(c);
    lemma_digit_char(c.r as nat / 16);
    lemma_digit_char(c.r as nat % 16);
    lemma_digit_char(c.g as nat / 16);
    lemma_digit_char(c.g as nat % 16);
    lemma_digit_char(c.b as nat / 16);
    lemma_digit_char(c.b as nat % 16);
    assert(is_ascii_chars(s));
    is_ascii_chars_encode_utf8(s);
}

/// Decoding the text of a colour gives that colour back, whatever the
/// colour.
pub proof fn lemma_decode_encode(c: RGB)
    ensures
        decode_text(hex_color(c)) == Ok::<RGB, ColorError>(c),
{
    let b = encode_utf8(hex_color(c));
    lemma_hex_color_bytes(c);
    lemma_digit_value(c.r as nat / 16);
    lemma_digit_value(c.r as nat % 16);
    lemma_digit_value(c.g as nat / 16);
    lemma_digit_value(c.g as nat % 16);
    lemma_digit_value(c.b as nat / 16);
    lemma_digit_value(c.b as nat % 16);
    assert(is_framed(b));
    assert(has_digits(b));
    assert(pair_value(b[1], b[2]) == c.r);
    assert(pair_value(b[3], b[4]) == c.g);
    assert(pair_value(b[5], b[6]) == c.b);
}

/// A character is the number that it is narrowed to, where that number is
/// below 128.
proof fn lemma_narrow_char(ch: char)
    ensures
        ch as u32 <= 0x7F ==> ch as u32 == ch as int,
        ch <= '\u{7f}' ==> ch as u8 == ch as int,
{
}

/// A text whose UTF-8 bytes are all below 128 holds ASCII characters only.
proof fn lemma_ascii_bytes(s: Seq<char>)
    requires
        forall|i: int| 0 <= i < encode_utf8(s).len() ==> encode_utf8(s)[i] < 128,
    ensures
        is_ascii_chars(s),
    decreases s.len(),
{
    if s.len() > 0 {
        let c = s[0] as u32;
        let head = encode_scalar(c);
        let tail = encode_utf8(s.drop_first());
        assert(encode_utf8(s) == head + tail);
        assert(encode_utf8(s)[0] == head[0]);
        assert(c <= 0x7F) by {
            let x2 = ((c >> 6) & 0x1F) as u8;
            let x3 = ((c >> 12) & 0x0F) as u8;
            let x4 = ((c >> 18) & 0x7) as u8;
            assert(0xC0u8 | x2 >= 128) by (bit_vector);
            assert(0xE0u8 | x3 >= 128) by (bit_vector);
            assert(0xF0u8 | x4 >= 128) by (bit_vector);
        }
        assert forall|i: int| 0 <= i < tail.len() implies tail[i] < 128 by {
            assert(encode_utf8(s)[head.len() + i] == tail[i]);
        }
        lemma_ascii_bytes(s.drop_first());
        assert forall|i: int| 0 <= i < s.len() implies '\0' <= #[trigger] s[i] <= '\u{7f}' by {
            if i > 0 {
                assert(s[i] == s.drop_first()[i - 1]);
            } else {
                lemma_narrow_char(s[0]);
            }
        }
    }
}

/// A text that decodes is the text of the colour that it decodes to: the
/// text of a colour is the only text that writes it.
pub proof fn lemma_encode_decode(s: Seq<char>)
    requires
        decode_text(s) is Ok,
    ensures
        hex_color(decode_text(s)->Ok_0) == s,
{
    let b = encode_utf8(s);
    let c = decode_text(s)->Ok_0;
    assert forall|i: int| 0 <= i < b.len() implies b[i] < 128 by {
        if i > 0 {
            assert(is_hex_digit(b[i]));
        }
    }
    lemma_ascii_bytes(s);
    is_ascii_chars_encode_utf8(s);
    assert forall|i: int| 1 <= i < 7 implies digit_value(b[i]) < 16 && #[trigger] s[i]
        == digit_char(digit_value(b[i])) by {
        assert(is_hex_digit(b[i]));
        lemma_value_digit(b[i]);
        lemma_narrow_char(s[i]);
    }
    lemma_narrow_char(s[0]);
    assert(hex_color(c) =~= s);
}

/// The texts that decode are exactly those that have the form of a colour's
/// text; every other text is an error.
pub proof fn lemma_decodes_hex_colors(s: Seq<char>)
    ensures
        decode_text(s) is Ok <==> is_hex_color(s),
{
    if decode_text(s) is Ok {
        lemma_encode_decode(s);
        lemma_hex_color_format(decode_text(s)->Ok_0);
    }
    if is_hex_color(s) {
        let b = encode_utf8(s);
        assert(is_ascii_chars(s));
        is_ascii_chars_encode_utf8(s);
        assert forall|i: int| 1 <= i < 7 implies is_hex_digit(#[trigger] b[i]) by {
            lemma_narrow_char(s[i]);
        }
    }
}

/// Reads a colour from its text.
///
/// Succeeds exactly on the texts that have the form of a colour's text: `#`
/// followed by six digits `0`-`9`, `A`-`F`. A text that is not seven bytes
/// long, or without the `#` in front, is a `MalformedHexString`; a text of
/// seven bytes behind a `#` with any other byte in a digit position is an
/// `InvalidHexDigit`. Nothing is clamped or replaced. The result depends on
/// the text alone.
pub fn hexstring_to_rgb(hex: &&str) -> (res: Result<RGB, ColorError>)
    ensures
        res == decode_text(hex@),
        res is Ok <==> is_hex_color(hex@),
        res == Err::<RGB, ColorError>(ColorError::MalformedHexString) <==> !is_framed(
            encode_utf8(hex@),
        ),
        res == Err::<RGB, ColorError>(ColorError::InvalidHexDigit) <==> is_framed(
            encode_utf8(hex@),
        ) && !has_digits(encode_utf8(hex@)),
{
    proof {
        lemma_decodes_hex_colors(hex@);
    }
    let chars = hex.as_bytes();
    // 35 is `#`.
    if chars.len() != 7 || chars[0] != 35 {
        return Err(ColorError::MalformedHexString);
    }
    let r = hex_table(chars[1])? * 16 + hex_table(chars[2])?;
    let g = hex_table(chars[3])? * 16 + hex_table(chars[4])?;
    let b = hex_table(chars[5])? * 16 + hex_table(chars[6])?;
    Ok(RGB { r, g, b })
}

/// Decoding has no hidden state: whatever two calls of `hexstring_to_rgb`
/// return for the same text, the two results are equal.
pub proof fn lemma_decode_repeatable(
    hex: &&str,
    first: Result<RGB, ColorError>,
    second: Result<RGB, ColorError>,
)
    requires
        call_ensures(hexstring_to_rgb, (hex,), first),
        call_ensures(hexstring_to_rgb, (hex,), second),
    ensures
        first == second,
{
}

} // verus!
