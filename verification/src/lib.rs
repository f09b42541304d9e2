//! Conversion between RGB colours and their `#RRGGBB` text form, and the
//! blending of several colours into their channel-wise mean.
//!
//! Every function is verified against a mathematical model: the text of a
//! colour is a sequence of characters, a string to decode is the sequence of
//! its UTF-8 bytes, and a set of colours to blend is a sequence of triples.

pub mod blend;
pub mod color;
pub mod decode;
pub mod digit;
pub mod encode;

pub use blend::rgb_blend;
pub use color::{ColorError, RGB};
pub use decode::hexstring_to_rgb;
pub use digit::hex_table;
pub use encode::{int_to_hexstring, rgb_to_hexstring, rgb_to_rgbint};
