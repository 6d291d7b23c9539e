//! The segmenter: the recognizers for the two extension rules, the
//! extended-character wrapper, and the iterator-like scan state.
use vstd::prelude::*;
use vstd::slice::slice_subrange;
use vstd::string::StringExecFns;
use vstd::string::StringSliceAdditionalSpecFns;
use vstd::utf8::decode_utf8;
use vstd::utf8::encode_utf8_decode_utf8;
use vstd::utf8::encode_utf8_valid_utf8;
use vstd::utf8::length_of_first_scalar;
use vstd::utf8::pop_first_scalar;
use vstd::utf8::take_first_scalar;
use vstd::utf8::valid_utf8;

use crate::decode::first_scalar_value;
use crate::decode::next_code_point;
use crate::model::extended_char_len;
use crate::model::joiner_chain_len;
use crate::model::joiner_group_len;
use crate::model::lemma_extended_char;
use crate::model::lemma_joiner_chain;
use crate::model::lemma_scalar_split;
use crate::model::starts_with_joiner;
use crate::model::starts_with_selector;
use crate::VARIATION_SELECTOR_SCALAR;
use crate::ZERO_WIDTH_JOINER_SCALAR;

verus! {

/// Compares two byte slices element by element.
fn bytes_eq(a: &[u8], b: &[u8]) -> (r: bool)
    ensures
        r <==> a@ == b@,
{
    if a.len() != b.len() {
        return false;
    }
    let n = a.len();
    let mut i: usize = 0;
    while i < n
        invariant
            n == a@.len() == b@.len(),
            0 <= i <= n,
            forall|k: int| 0 <= k < i ==> a@[k] == b@[k],
        decreases n - i,
    {
        if a[i] != b[i] {
            return false;
        }
        i = i + 1;
    }
    proof {
        assert(a@ =~= b@);
    }
    true
}

/// If the suffix begins with VARIATION SELECTOR-16, splits it into the
/// selector's bytes and the rest; "not present" otherwise, with nothing
/// consumed.
pub fn variation_selector<'a>(bytes: &'a [u8]) -> (r: Option<(&'a [u8], &'a [u8])>)
    requires
        valid_utf8(bytes@),
    ensures
        r is Some <==> starts_with_selector(bytes@),
        r matches Some((sel, rest)) ==> {
            &&& sel@ == take_first_scalar(bytes@)
            &&& rest@ == pop_first_scalar(bytes@)
        },
{
    if bytes.is_empty() {
        return None;
    }
    let v = first_scalar_value(bytes);
    if v == VARIATION_SELECTOR_SCALAR {
        next_code_point(bytes)
    } else {
        None
    }
}

/// If the suffix begins with ZERO WIDTH JOINER, splits it into one joiner
/// group and the rest: the joiner together with the code point it joins,
/// or the joiner alone when nothing follows it (a dangling joiner is
/// tolerated and becomes a closing unit of its own). "Not present"
/// otherwise, with nothing consumed.
pub fn zero_width_joiner<'a>(bytes: &'a [u8]) -> (r: Option<(&'a [u8], &'a [u8])>)
    requires
        valid_utf8(bytes@),
    ensures
        r is Some <==> starts_with_joiner(bytes@),
        r matches Some((grp, rest)) ==> {
            &&& grp@ == bytes@.take(joiner_group_len(bytes@))
            &&& rest@ == bytes@.skip(joiner_group_len(bytes@))
        },
{
    if bytes.is_empty() {
        return None;
    }
    let v = first_scalar_value(bytes);
    if v != ZERO_WIDTH_JOINER_SCALAR {
        return None;
    }
    proof {
        lemma_scalar_split(bytes@);
    }
    let (joiner_bytes, remainder) = match next_code_point(bytes) {
        Some(p) => p,
        None => {
            return None;
        },
    };
    proof {
        assert(remainder@ =~= bytes@.skip(length_of_first_scalar(bytes@)));
    }
    match next_code_point(remainder) {
        Some((join_with_bytes, rest)) => {
            proof {
                lemma_scalar_split(remainder@);
                assert(rest@ =~= bytes@.skip(joiner_group_len(bytes@)));
                assert(bytes@.subrange(
                    0,
                    joiner_group_len(bytes@),
                ) =~= bytes@.take(joiner_group_len(bytes@)));
            }
            let group_len = joiner_bytes.len() + join_with_bytes.len();
            Some((slice_subrange(bytes, 0, group_len), rest))
        },
        None => {
            proof {
                assert(joiner_bytes@ =~= bytes@.take(joiner_group_len(bytes@)));
            }
            Some((joiner_bytes, remainder))
        },
    }
}

#[verifier::external_type_specification]
#[verifier::external_body]
pub struct ExUtf8Error(core::str::Utf8Error);

/// Relies on core::str::from_utf8: it returns `Ok` exactly on valid
/// UTF-8 input, and the string slice it then returns is a view of
/// exactly the given bytes.
pub assume_specification<'a>[ core::str::from_utf8 ](v: &'a [u8]) -> (res: Result<
    &'a str,
    core::str::Utf8Error,
>)
    ensures
        res is Ok <==> valid_utf8(v@),
        res matches Ok(s) ==> s.spec_bytes() == v@,
;

/// One extended user-perceived character: a zero-copy span of the
/// original buffer, always valid UTF-8. Its view is the byte sequence of
/// the span.
#[derive(Debug)]
pub struct UTF8Char<'a> {
    bytes: &'a [u8],
}

impl<'a> View for UTF8Char<'a> {
    type V = Seq<u8>;

    closed spec fn view(&self) -> Seq<u8> {
        self.bytes@
    }
}

impl<'a> UTF8Char<'a> {
    /// Every span wrapped here is valid UTF-8.
    #[verifier::type_invariant]
    spec fn valid_span(self) -> bool {
        valid_utf8(self.bytes@)
    }

    /// The textual view of exactly the wrapped bytes, without copying.
    pub fn as_str(&self) -> (r: &'a str)
        ensures
            r.spec_bytes() == self@,
            r@ == decode_utf8(self@),
    {
        proof {
            use_type_invariant(&*self);
        }
        match core::str::from_utf8(self.bytes) {
            Ok(s) => {
                proof {
                    encode_utf8_decode_utf8(s@);
                }
                s
            },
            Err(_) => {
                proof {
                    assert(false);
                }
                ""
            },
        }
    }

    /// Human-readable representation: the wrapped text delimited by
    /// single quote marks.
    pub fn quoted(&self) -> (r: String)
        ensures
            r@ == seq!['\''] + decode_utf8(self@) + seq!['\''],
    {
        proof {
            reveal_strlit("'");
        }
        let mut out = String::from_str("'");
        out.append(self.as_str());
        out.append("'");
        proof {
            assert(("'")@ =~= seq!['\'']);
            assert(out@ =~= seq!['\''] + decode_utf8(self@) + seq!['\'']);
        }
        out
    }

    /// Compare the `&str` representation against a given string slice.
    pub fn is(&self, right: &str) -> (r: bool)
        ensures
            r <==> self@ == right.spec_bytes(),
    {
        bytes_eq(self.bytes, right.as_bytes())
    }
}

impl<'a> PartialEq for UTF8Char<'a> {
    /// Byte-for-byte (equivalently, text) equality of the two spans.
    fn eq(&self, other: &UTF8Char<'a>) -> (r: bool) {
        bytes_eq(self.bytes, other.bytes)
    }
}

impl<'a> vstd::std_specs::cmp::PartialEqSpecImpl for UTF8Char<'a> {
    open spec fn obeys_eq_spec() -> bool {
        true
    }

    open spec fn eq_spec(&self, other: &UTF8Char<'a>) -> bool {
        self@ == other@
    }
}

impl<'a> Eq for UTF8Char<'a> {}

impl<'a> From<&'a str> for UTF8Char<'a> {
    /// Wraps the value's own byte representation directly, with no
    /// segmentation applied.
    fn from(val: &'a str) -> (r: UTF8Char<'a>)
        ensures
            r@ == val.spec_bytes(),
    {
        proof {
            encode_utf8_valid_utf8(val@);
        }
        UTF8Char { bytes: val.as_bytes() }
    }
}

impl<'a> vstd::std_specs::convert::FromSpecImpl<&'a str> for UTF8Char<'a> {
    open spec fn obeys_from_spec() -> bool {
        false
    }

    open spec fn from_spec(val: &'a str) -> UTF8Char<'a> {
        arbitrary()
    }
}

/// The scan state: the suffix of the buffer that is not yet consumed.
/// Its view is that suffix's byte sequence; the segmenter is exhausted
/// exactly when the view is empty.
#[derive(Debug)]
pub struct UTF8Chars<'a> {
    bytes: &'a [u8],
}

impl<'a> View for UTF8Chars<'a> {
    type V = Seq<u8>;

    closed spec fn view(&self) -> Seq<u8> {
        self.bytes@
    }
}

impl<'a> UTF8Chars<'a> {
    /// The cursor only ever points at valid UTF-8.
    #[verifier::type_invariant]
    spec fn valid_cursor(self) -> bool {
        valid_utf8(self.bytes@)
    }

    /// Produces the next extended character: one base code point, extended
    /// by an optional variation selector and any number of joiner groups,
    /// as a span of the original buffer; `None` once the buffer is
    /// exhausted, on this and on every later call.
    pub fn next(&mut self) -> (r: Option<UTF8Char<'a>>)
        ensures
            r is Some <==> old(self)@.len() > 0,
            old(self)@.len() == 0 ==> final(self)@ == old(self)@,
            old(self)@.len() > 0 ==> {
                &&& r matches Some(c) && c@ == old(self)@.take(extended_char_len(old(self)@))
                &&& final(self)@ == old(self)@.skip(extended_char_len(old(self)@))
            },
    {
        proof {
            use_type_invariant(&*self);
        }
        let buf = self.bytes;
        if buf.is_empty() {
            return None;
        }
        let buf_len = buf.len();
        let ghost orig = buf@;
        let ghost n = extended_char_len(orig);
        proof {
            lemma_extended_char(orig);
            lemma_scalar_split(orig);
        }

        let (cp_bytes, mut remaining_bytes) = match next_code_point(buf) {
            Some(p) => p,
            None => {
                return None;
            },
        };
        let mut utf8_char_len = cp_bytes.len();
        proof {
            assert(remaining_bytes@ =~= orig.skip(utf8_char_len as int));
        }

        // Variation selector
        if let Some((variant_bytes, variant_remaining)) = variation_selector(remaining_bytes) {
            proof {
                lemma_scalar_split(remaining_bytes@);
            }
            utf8_char_len = utf8_char_len + variant_bytes.len();
            remaining_bytes = variant_remaining;
            proof {
                assert(remaining_bytes@ =~= orig.skip(utf8_char_len as int));
            }
        }
        proof {
            assert(n == utf8_char_len + joiner_chain_len(remaining_bytes@));
        }

        // Zero width joiner
        // An extended character can consist of one or more code points
        // joined together.
        loop
            invariant
                valid_utf8(orig),
                valid_utf8(remaining_bytes@),
                utf8_char_len <= orig.len(),
                remaining_bytes@ == orig.skip(utf8_char_len as int),
                n == utf8_char_len + joiner_chain_len(remaining_bytes@),
                1 <= n <= orig.len(),
                buf_len == orig.len(),
                buf@ == orig,
            ensures
                !starts_with_joiner(remaining_bytes@),
                remaining_bytes@ == orig.skip(utf8_char_len as int),
                n == utf8_char_len,
                buf@ == orig,
            decreases remaining_bytes@.len(),
        {
            proof {
                lemma_joiner_chain(remaining_bytes@);
            }
            match zero_width_joiner(remaining_bytes) {
                Some((joined_bytes, join_remaining)) => {
                    proof {
                        lemma_joiner_chain(join_remaining@);
                        assert(join_remaining@ =~= orig.skip(
                            utf8_char_len + joiner_group_len(remaining_bytes@),
                        ));
                        assert(utf8_char_len + joined_bytes@.len() <= n <= buf_len);
                    }
                    utf8_char_len = utf8_char_len + joined_bytes.len();
                    remaining_bytes = join_remaining;
                },
                None => {
                    proof {
                        assert(joiner_chain_len(remaining_bytes@) == 0);
                    }
                    break ;
                },
            }
        }

        let utf8_char = UTF8Char { bytes: slice_subrange(buf, 0, utf8_char_len) };
        proof {
            assert(orig.subrange(0, n) =~= orig.take(n));
        }
        self.bytes = remaining_bytes;
        Some(utf8_char)
    }
}

/// The capability "view this text as a lazy sequence of extended
/// characters". A fresh segmenter starts at the beginning; obtaining a
/// second pass means invoking it again on the same source.
pub trait ToUTF8Chars<'a> {
    /// The bytes the segmenter will scan.
    spec fn source_bytes(&'a self) -> Seq<u8>;

    fn utf8_chars(&'a self) -> (r: UTF8Chars<'a>)
        ensures
            r@ == self.source_bytes(),
    ;
}

impl<'a> ToUTF8Chars<'a> for str {
    open spec fn source_bytes(&'a self) -> Seq<u8> {
        self.spec_bytes()
    }

    fn utf8_chars(&'a self) -> (r: UTF8Chars<'a>) {
        proof {
            encode_utf8_valid_utf8(self@);
        }
        UTF8Chars { bytes: self.as_bytes() }
    }
}

} // verus!
