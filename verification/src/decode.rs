//! The code-point decoder: byte length and scalar value of the first code
//! point of a suffix, and the split of a suffix into one code point and
//! the rest.
use vstd::prelude::*;
use vstd::utf8::decode_first_scalar;
use vstd::utf8::is_leading_byte_width_1;
use vstd::utf8::is_leading_byte_width_2;
use vstd::utf8::is_leading_byte_width_3;
use vstd::utf8::is_leading_byte_width_4;
use vstd::utf8::length_of_first_codepoint;
use vstd::utf8::pop_first_scalar;
use vstd::utf8::take_first_scalar;
use vstd::utf8::valid_first_scalar;
use vstd::utf8::valid_utf8;

use crate::model::is_utf8_leading_byte;
use crate::model::lemma_scalar_split;

verus! {

/// Byte length of the code point that starts at index 0, decided purely
/// from the high bits of the leading byte: `0xxxxxxx` is 1 byte,
/// `110xxxxx` is 2, `1110xxxx` is 3, `11110xxx` is 4.
///
/// The caller guarantees that the buffer starts at a code-point boundary
/// of valid UTF-8; a stray continuation byte or invalid byte in front is
/// a contract violation, left out by `requires`.
pub fn code_point_len(bytes: &[u8]) -> (len: usize)
    requires
        bytes@.len() > 0,
        is_utf8_leading_byte(bytes@[0]),
    ensures
        len == length_of_first_codepoint(bytes@),
        is_leading_byte_width_1(bytes@[0]) <==> len == 1,
        is_leading_byte_width_2(bytes@[0]) <==> len == 2,
        is_leading_byte_width_3(bytes@[0]) <==> len == 3,
        is_leading_byte_width_4(bytes@[0]) <==> len == 4,
{
    let first_byte = bytes[0];
    proof {
        assert((first_byte & 0x80 == 0) == (first_byte <= 0x7f)) by (bit_vector);
        assert((first_byte & 0xe0 == 0xc0) == (0xc0 <= first_byte && first_byte <= 0xdf))
            by (bit_vector);
        assert((first_byte & 0xf0 == 0xe0) == (0xe0 <= first_byte && first_byte <= 0xef))
            by (bit_vector);
        assert((first_byte & 0xf8 == 0xf0) == (0xf0 <= first_byte && first_byte <= 0xf7))
            by (bit_vector);
    }
    if first_byte & 0x80 == 0 {
        1
    } else if first_byte & 0xe0 == 0xc0 {
        2
    } else if first_byte & 0xf0 == 0xe0 {
        3
    } else {
        4
    }
}

/// Scalar value of the code point that starts at index 0 of a non-empty
/// valid UTF-8 suffix.
pub fn first_scalar_value(bytes: &[u8]) -> (v: u32)
    requires
        valid_utf8(bytes@),
        bytes@.len() > 0,
    ensures
        v == decode_first_scalar(bytes@),
{
    proof {
        assert(valid_first_scalar(bytes@));
    }
    let b0 = bytes[0];
    if b0 < 0x80 {
        proof {
            assert(b0 & 0x7f == b0) by (bit_vector)
                requires
                    b0 < 0x80,
            ;
        }
        b0 as u32
    } else if b0 < 0xe0 {
        let b1 = bytes[1];
        (((b0 & 0x1f) as u32) << 6) | ((b1 & 0x3f) as u32)
    } else if b0 < 0xf0 {
        let b1 = bytes[1];
        let b2 = bytes[2];
        (((b0 & 0x0f) as u32) << 12) | (((b1 & 0x3f) as u32) << 6) | ((b2 & 0x3f) as u32)
    } else {
        let b1 = bytes[1];
        let b2 = bytes[2];
        let b3 = bytes[3];
        (((b0 & 0x07) as u32) << 18) | (((b1 & 0x3f) as u32) << 12) | (((b2 & 0x3f) as u32) << 6)
            | ((b3 & 0x3f) as u32)
    }
}

/// Splits a suffix of the buffer into the bytes of its first code point
/// and the remaining bytes; "no more input" on an empty suffix.
pub fn next_code_point<'a>(bytes: &'a [u8]) -> (r: Option<(&'a [u8], &'a [u8])>)
    requires
        valid_utf8(bytes@),
    ensures
        r is Some <==> bytes@.len() > 0,
        r matches Some((cp, rest)) ==> {
            &&& cp@ == take_first_scalar(bytes@)
            &&& rest@ == pop_first_scalar(bytes@)
        },
{
    if bytes.is_empty() {
        return None;
    }
    proof {
        lemma_scalar_split(bytes@);
    }
    let len = code_point_len(bytes);
    Some(bytes.split_at(len))
}

} // verus!
