//! Encoding: from a colour to its text, `#` and six upper-case hexadecimal
//! digits, two for each channel, red first.

use crate::color::RGB;
use crate::digit::{digit_char, digit_value, is_hex_digit_char, lemma_digit_char, lemma_digit_value};
use vstd::prelude::*;

verus! {

/// The three channels as one number: red counts 65536, green 256, blue 1.
pub open spec fn packed(c: RGB) -> nat {
    c.r as nat * 0x10000 + c.g as nat * 0x100 + c.b as nat
}

/// The digits of `n` in base sixteen, most significant first, with zeros in
/// front where `n` has fewer than `width` digits. There is always at least
/// one digit, and a number with more than `width` digits keeps them all.
pub open spec fn hex_digits(n: nat, width: nat) -> Seq<char>
    decreases n, width,
{
    if n < 16 && width <= 1 {
        seq![digit_char(n)]
    } else {
        hex_digits(n / 16, if width > 0 { (width - 1) as nat } else { 0 }).push(digit_char(n % 16))
    }
}

/// The number that the digits `s` write, most significant first.
pub open spec fn digits_value(s: Seq<char>) -> nat
    decreases s.len(),
{
    if s.len() == 0 {
        0
    } else {
        digits_value(s.drop_last()) * 16 + digit_value(s.last() as u8)
    }
}

/// `hex_digits(n, width)` is the shortest run of digits that writes `n` and
/// is neither empty nor shorter than `width`: it reads back as `n`, and
/// where it is longer than it must be, it does not begin with a zero.
pub proof fn lemma_hex_digits(n: nat, width: nat)
    ensures
        forall|i: int|
            0 <= i < hex_digits(n, width).len() ==> is_hex_digit_char(
                #[trigger] hex_digits(n, width)[i],
            ),
        digits_value(hex_digits(n, width)) == n,
        hex_digits(n, width).len() >= 1,
        hex_digits(n, width).len() >= width,
        hex_digits(n, width).len() > 1 && hex_digits(n, width).len() > width ==> hex_digits(
            n,
            width,
        )[0] != '0',
    decreases n, width,
{
    let s = hex_digits(n, width);
    lemma_digit_char(n % 16);
    lemma_digit_value(n % 16);
    if n < 16 && width <= 1 {
        assert(s.drop_last().len() == 0);
        assert(digits_value(s) == digits_value(s.drop_last()) * 16 + digit_value(s.last() as u8));
    } else {
        let rest = hex_digits(n / 16, if width > 0 { (width - 1) as nat } else { 0 });
        lemma_hex_digits(n / 16, if width > 0 { (width - 1) as nat } else { 0 });
        assert(s.drop_last() =~= rest);
        assert(s[0] == rest[0]);
        if rest.len() == 1 && width <= 1 {
            // `n` has two digits, so the first of them is not zero.
            if n / 16 < 16 {
                lemma_digit_value(n / 16);
            } else {
                lemma_hex_digits(n / 16 / 16, 0);
            }
        }
    }
}

/// The text of the number `n`: `#`, then its digits, at least six.
pub open spec fn hex_text(n: nat) -> Seq<char> {
    seq!['#'] + hex_digits(n, 6)
}

/// The text of the colour `c`: `#`, then two digits for each of red, green
/// and blue.
pub open spec fn hex_color(c: RGB) -> Seq<char> {
    seq![
        '#',
        digit_char(c.r as nat / 16),
        digit_char(c.r as nat % 16),
        digit_char(c.g as nat / 16),
        digit_char(c.g as nat % 16),
        digit_char(c.b as nat / 16),
        digit_char(c.b as nat % 16),
    ]
}

/// Whether `s` has the form of a colour's text: seven characters, `#` first,
/// the other six digits.
pub open spec fn is_hex_color(s: Seq<char>) -> bool {
    &&& s.len() == 7
    &&& s[0] == '#'
    &&& forall|i: int| 1 <= i < 7 ==> is_hex_digit_char(#[trigger] s[i])
}

/// The text of a colour always has the form of a colour's text.
pub proof fn lemma_hex_color_format(c: RGB)
    ensures
        is_hex_color(hex_color(c)),
{
    lemma_digit_char(c.r as nat / 16);
    lemma_digit_char(c.r as nat % 16);
    lemma_digit_char(c.g as nat / 16);
    lemma_digit_char(c.g as nat % 16);
    lemma_digit_char(c.b as nat / 16);
    lemma_digit_char(c.b as nat % 16);
}

/// The text of a colour is the text of its packed number: a packed number
/// never has more than six digits.
pub proof fn lemma_hex_text_packed(c: RGB)
    ensures
        hex_text(packed(c)) == hex_color(c),
{
    let n = packed(c);
    reveal_with_fuel(hex_digits, 6);
    assert(n % 16 == c.b as nat % 16);
    assert(n / 16 % 16 == c.b as nat / 16);
    assert(n / 16 / 16 % 16 == c.g as nat % 16);
    assert(n / 16 / 16 / 16 % 16 == c.g as nat / 16);
    assert(n / 16 / 16 / 16 / 16 % 16 == c.r as nat % 16);
    assert(n / 16 / 16 / 16 / 16 / 16 == c.r as nat / 16);
    assert(hex_text(n) =~= hex_color(c));
}

/// Packs a colour into one number, red in bits 16 to 23, green in bits 8 to
/// 15 and blue in bits 0 to 7.
pub fn rgb_to_rgbint(col: &RGB) -> (n: u32)
    ensures
        n == packed(*col),
        n >> 24 == 0,
        (n >> 16) & 0xFF == col.r,
        (n >> 8) & 0xFF == col.g,
        n & 0xFF == col.b,
{
    let r: u8 = col.r;
    let g: u8 = col.g;
    let b: u8 = col.b;
    let n: u32 = ((r as u32) << 16) | ((g as u32) << 8) | (b as u32);
    assert(n == (r as u32) * 0x10000 + (g as u32) * 0x100 + (b as u32) && n >> 24 == 0 && (n >> 16)
        & 0xFF == r as u32 && (n >> 8) & 0xFF == g as u32 && n & 0xFF == b as u32) by (bit_vector)
        requires
            n == ((r as u32) << 16) | ((g as u32) << 8) | (b as u32),
    ;
    n
}

/// Appends to `out` the digits of `n`, at least `width` of them.
fn push_hex(out: &mut String, n: u32, width: u32)
    ensures
        final(out)@ == old(out)@ + hex_digits(n as nat, width as nat),
    decreases n, width,
{
    if n >= 16 || width > 1 {
        push_hex(out, n / 16, if width > 0 { width - 1 } else { 0 });
    }
    let d: usize = (n % 16) as usize;
    proof {
        reveal_strlit("0123456789ABCDEF");
    }
    out.append("0123456789ABCDEF".substring_ascii(d, d + 1));
}

/// Writes a number as `#` and its upper-case hexadecimal digits, with zeros
/// in front up to six digits. A number above `0xFFFFFF` keeps all its
/// digits, seven or eight of them.
pub fn int_to_hexstring(col: u32) -> (s: String)
    ensures
        s@ == hex_text(col as nat),
{
    let mut s = String::from_str("#");
    proof {
        reveal_strlit("#");
    }
    push_hex(&mut s, col, 6);
    s
}

/// Writes a colour as its text, `#RRGGBB`.
///
/// The result depends on the colour alone and always has the form of a
/// colour's text.
pub fn rgb_to_hexstring(col: &RGB) -> (s: String)
    ensures
        s@ == hex_color(*col),
        is_hex_color(s@),
{
    proof {
        lemma_hex_text_packed(*col);
        lemma_hex_color_format(*col);
    }
    int_to_hexstring(rgb_to_rgbint(col))
}

/// Encoding has no hidden state: whatever two calls of `rgb_to_hexstring`
/// return for the same colour, the two texts are the same.
pub proof fn lemma_encode_repeatable(col: &RGB, first: String, second: String)
    requires
        call_ensures(rgb_to_hexstring, (col,), first),
        call_ensures(rgb_to_hexstring, (col,), second),
    ensures
        first@ == second@,
{
}

} // verus!
