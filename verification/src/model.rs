//! The mathematical model of the scan: which span of a byte sequence the
//! next extended character covers, and the segmentation of a whole buffer.
//!
//! Everything here is stated over `Seq<u8>` and vstd's UTF-8 model
//! (`valid_utf8`, `length_of_first_scalar`, `decode_first_scalar`).
use vstd::prelude::*;
use vstd::utf8::decode_first_scalar;
use vstd::utf8::is_char_boundary_iff_is_leading_byte;
use vstd::utf8::is_leading_byte_width_1;
use vstd::utf8::is_leading_byte_width_2;
use vstd::utf8::is_leading_byte_width_3;
use vstd::utf8::is_leading_byte_width_4;
use vstd::utf8::length_of_first_codepoint;
use vstd::utf8::length_of_first_scalar;
use vstd::utf8::pop_first_scalar;
use vstd::utf8::valid_first_scalar;
use vstd::utf8::valid_utf8;
use vstd::utf8::valid_utf8_split;

use crate::VARIATION_SELECTOR_SCALAR;
use crate::ZERO_WIDTH_JOINER_SCALAR;

verus! {

/// True when the byte has one of the four leading-byte bit patterns of
/// UTF-8, so it can start the encoding of a code point.
pub open spec fn is_utf8_leading_byte(b: u8) -> bool {
    ||| is_leading_byte_width_1(b)
    ||| is_leading_byte_width_2(b)
    ||| is_leading_byte_width_3(b)
    ||| is_leading_byte_width_4(b)
}

/// True when the first code point of the sequence is VARIATION SELECTOR-16.
pub open spec fn starts_with_selector(s: Seq<u8>) -> bool {
    s.len() > 0 && decode_first_scalar(s) == VARIATION_SELECTOR_SCALAR
}

/// True when the first code point of the sequence is ZERO WIDTH JOINER.
pub open spec fn starts_with_joiner(s: Seq<u8>) -> bool {
    s.len() > 0 && decode_first_scalar(s) == ZERO_WIDTH_JOINER_SCALAR
}

/// Byte length of one joiner group at the head of the sequence: the joiner
/// itself together with the code point it joins, or the joiner alone when
/// it is the last thing in the buffer (a tolerated dangling joiner).
pub open spec fn joiner_group_len(s: Seq<u8>) -> int
    recommends
        valid_utf8(s),
        starts_with_joiner(s),
{
    let j = length_of_first_scalar(s);
    if s.len() <= j {
        j
    } else {
        j + length_of_first_scalar(s.skip(j))
    }
}

/// Byte length of the longest run of joiner groups at the head of the
/// sequence: zero when the sequence does not start with a joiner.
///
/// The bounds check mirrors what holds of every valid UTF-8 sequence
/// (see `lemma_joiner_chain`); it only keeps the definition total.
pub open spec fn joiner_chain_len(s: Seq<u8>) -> int
    recommends
        valid_utf8(s),
    decreases s.len(),
{
    if !starts_with_joiner(s) {
        0
    } else {
        let g = joiner_group_len(s);
        if 1 <= g <= s.len() {
            g + joiner_chain_len(s.skip(g))
        } else {
            g
        }
    }
}

/// Byte length of the first extended character of a non-empty sequence:
/// one base code point, then an optional variation selector, then any
/// number of joiner groups.
pub open spec fn extended_char_len(s: Seq<u8>) -> int
    recommends
        valid_utf8(s),
        s.len() > 0,
{
    let base = length_of_first_scalar(s);
    let head = if starts_with_selector(s.skip(base)) {
        base + length_of_first_scalar(s.skip(base))
    } else {
        base
    };
    head + joiner_chain_len(s.skip(head))
}

/// The segmentation of a whole buffer: the byte spans of its extended
/// characters, in buffer order.
///
/// As in `joiner_chain_len`, the bounds check only keeps the definition
/// total; on valid UTF-8 it always holds (see `lemma_extended_char`).
pub open spec fn segments(s: Seq<u8>) -> Seq<Seq<u8>>
    recommends
        valid_utf8(s),
    decreases s.len(),
{
    if s.len() == 0 {
        Seq::empty()
    } else {
        let n = extended_char_len(s);
        if 1 <= n <= s.len() {
            seq![s.take(n)] + segments(s.skip(n))
        } else {
            seq![s]
        }
    }
}

/// The first code point of a non-empty valid sequence occupies between 1
/// and 4 bytes, all present, and what remains after it is valid again.
pub proof fn lemma_scalar_split(s: Seq<u8>)
    requires
        valid_utf8(s),
        s.len() > 0,
    ensures
        is_utf8_leading_byte(s[0]),
        length_of_first_scalar(s) == length_of_first_codepoint(s),
        1 <= length_of_first_scalar(s) <= s.len(),
        valid_utf8(s.skip(length_of_first_scalar(s))),
{
    assert(valid_first_scalar(s));
    assert(s.skip(length_of_first_scalar(s)) =~= pop_first_scalar(s));
}

/// A prefix cut off where a valid tail begins is itself valid UTF-8.
pub proof fn lemma_take_valid(s: Seq<u8>, k: int)
    requires
        valid_utf8(s),
        0 <= k <= s.len(),
        valid_utf8(s.skip(k)),
    ensures
        valid_utf8(s.take(k)),
{
    if k == s.len() {
        assert(s.take(k) =~= s);
    } else {
        assert(valid_first_scalar(s.skip(k)));
        assert(s.skip(k)[0] == s[k]);
        is_char_boundary_iff_is_leading_byte(s, k);
        valid_utf8_split(s, k);
        assert(s.take(k) =~= s.subrange(0, k));
    }
}

/// On valid UTF-8, the run of joiner groups is well bounded: it fits in
/// the sequence, what follows it is valid again, and at a joiner the run
/// is one group followed by the run after that group.
pub proof fn lemma_joiner_chain(s: Seq<u8>)
    requires
        valid_utf8(s),
    ensures
        0 <= joiner_chain_len(s) <= s.len(),
        valid_utf8(s.skip(joiner_chain_len(s))),
        starts_with_joiner(s) ==> {
            &&& 1 <= joiner_group_len(s) <= s.len()
            &&& valid_utf8(s.skip(joiner_group_len(s)))
            &&& joiner_chain_len(s) == joiner_group_len(s) + joiner_chain_len(
                s.skip(joiner_group_len(s)),
            )
        },
    decreases s.len(),
{
    if !starts_with_joiner(s) {
        assert(s.skip(0) =~= s);
    } else {
        lemma_scalar_split(s);
        let j = length_of_first_scalar(s);
        let g = joiner_group_len(s);
        if s.len() <= j {
            assert(g == j == s.len());
            lemma_joiner_chain(s.skip(g));
        } else {
            lemma_scalar_split(s.skip(j));
            let f = length_of_first_scalar(s.skip(j));
            assert(g == j + f);
            assert(s.skip(j).skip(f) =~= s.skip(g));
            lemma_joiner_chain(s.skip(g));
            let c = joiner_chain_len(s.skip(g));
            assert(s.skip(g).skip(c) =~= s.skip(g + c));
        }
    }
}

/// On non-empty valid UTF-8, the first extended character covers between
/// 1 byte and the whole sequence; both the span itself and what remains
/// after it are valid UTF-8.
pub proof fn lemma_extended_char(s: Seq<u8>)
    requires
        valid_utf8(s),
        s.len() > 0,
    ensures
        1 <= extended_char_len(s) <= s.len(),
        valid_utf8(s.take(extended_char_len(s))),
        valid_utf8(s.skip(extended_char_len(s))),
{
    lemma_scalar_split(s);
    let base = length_of_first_scalar(s);
    let head = if starts_with_selector(s.skip(base)) {
        base + length_of_first_scalar(s.skip(base))
    } else {
        base
    };
    if starts_with_selector(s.skip(base)) {
        lemma_scalar_split(s.skip(base));
        let f = length_of_first_scalar(s.skip(base));
        assert(s.skip(base).skip(f) =~= s.skip(head));
    }
    assert(valid_utf8(s.skip(head)));
    lemma_joiner_chain(s.skip(head));
    let c = joiner_chain_len(s.skip(head));
    assert(s.skip(head).skip(c) =~= s.skip(head + c));
    lemma_take_valid(s, head + c);
}

} // verus!
