//! The colour value and the ways in which an operation on colours can fail.

use vstd::prelude::*;

verus! {

/// A colour as three independent 8-bit channels. Two colours are equal when
/// all three channels are.
#[derive(Clone, Copy, Debug, PartialEq, Eq, Structural)]
pub struct RGB {
    pub r: u8,
    pub g: u8,
    pub b: u8,
}

/// Why a colour could not be produced.
#[derive(Clone, Copy, Debug, PartialEq, Eq, Structural)]
pub enum ColorError {
    /// The text is not seven bytes long or does not begin with `#`.
    MalformedHexString,
    /// A digit position holds a byte other than `0`-`9` or `A`-`F`.
    InvalidHexDigit,
    /// No colour was given to blend.
    EmptyBlendSet,
}

} // verus!
