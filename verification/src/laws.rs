//! The laws of a whole scan, stated over the segmentation model that the
//! contracts of `UTF8Chars::next` and the recognizers use.
use vstd::prelude::*;
use vstd::utf8::valid_utf8;

use crate::model::extended_char_len;
use crate::model::lemma_extended_char;
use crate::model::segments;
use crate::segment::UTF8Chars;

verus! {

/// A non-empty valid buffer segments into its first extended character
/// followed by the segmentation of the rest: exactly the span that one
/// call of `UTF8Chars::next` produces and the suffix it leaves behind.
pub proof fn lemma_segments_step(s: Seq<u8>)
    requires
        valid_utf8(s),
        s.len() > 0,
    ensures
        segments(s).len() >= 1,
        segments(s).first() == s.take(extended_char_len(s)),
        segments(s).drop_first() == segments(s.skip(extended_char_len(s))),
{
    lemma_extended_char(s);
    let n = extended_char_len(s);
    assert(segments(s).drop_first() =~= segments(s.skip(n)));
}

/// Reconstruction: concatenating the extended characters of a valid
/// UTF-8 buffer reproduces the buffer exactly, with no gaps or overlaps.
pub proof fn lemma_reconstruction(s: Seq<u8>)
    requires
        valid_utf8(s),
    ensures
        segments(s).flatten() == s,
    decreases s.len(),
{
    if s.len() == 0 {
        assert(segments(s).flatten() =~= s);
    } else {
        lemma_extended_char(s);
        let n = extended_char_len(s);
        lemma_reconstruction(s.skip(n));
        lemma_segments_step(s);
        assert(segments(s).flatten() == s.take(n) + s.skip(n));
        assert(s.take(n) + s.skip(n) =~= s);
    }
}

/// Re-scanning is deterministic: two segmenters over the same immutable
/// bytes yield the same extended characters in the same order, each pass
/// independent of the other.
pub proof fn lemma_rescan_deterministic(first_pass: UTF8Chars, second_pass: UTF8Chars)
    requires
        first_pass@ == second_pass@,
    ensures
        segments(first_pass@) == segments(second_pass@),
{
}

/// Exhaustion is stable: a segmenter whose remaining input is empty has
/// no further extended characters, and by the contract of
/// `UTF8Chars::next` its input stays empty, so every later call also
/// yields end-of-sequence.
pub proof fn lemma_exhaustion_stable(chars: UTF8Chars)
    requires
        chars@.len() == 0,
    ensures
        segments(chars@) == Seq::<Seq<u8>>::empty(),
{
}

} // verus!
