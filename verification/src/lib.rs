//! Segmentation of UTF-8 text into extended user-perceived characters.
//!
//! An extended character is one base code point together with an optional
//! trailing VARIATION SELECTOR-16 and any number of ZERO WIDTH JOINER
//! groups, taken greedily from the input. The scan works on a borrowed
//! byte buffer of valid UTF-8 and never copies it: every unit it yields
//! is a sub-slice of the original buffer.
use vstd::prelude::*;

pub mod decode;
pub mod laws;
pub mod segment;
pub mod model;

pub use decode::code_point_len;
pub use decode::first_scalar_value;
pub use decode::next_code_point;
pub use segment::ToUTF8Chars;
pub use segment::UTF8Char;
pub use segment::UTF8Chars;
pub use segment::variation_selector;
pub use segment::zero_width_joiner;

verus! {

/// The VARIATION SELECTOR-16 character (U+FE0F).
pub const VARIATION_SELECTOR: &'static str = "\u{fe0f}";

/// The ZERO WIDTH JOINER character (U+200D).
pub const ZERO_WIDTH_JOINER: &'static str = "\u{200d}";

/// Unicode scalar value of VARIATION SELECTOR-16 (U+FE0F).
pub const VARIATION_SELECTOR_SCALAR: u32 = 0xfe0f;

/// Unicode scalar value of ZERO WIDTH JOINER (U+200D).
pub const ZERO_WIDTH_JOINER_SCALAR: u32 = 0x200d;

} // verus!
