//! The codepoint guard: slicing of UTF-8 text by byte offsets, refusing any range
//! whose boundary would fall inside a multi-byte codepoint.

use vstd::prelude::*;
use vstd::string::StringSliceAdditionalSpecFns;
use vstd::utf8::*;

use crate::bounds::{half_open_bounds, inclusive_bounds, slice, slice_inclusive, SliceError};
use crate::compare::{is_prefix, is_suffix};

verus! {

broadcast use group_utf8_lib;

/// True when byte offset `o` of `bytes` lies strictly inside a codepoint: it is within
/// the bytes and the byte there is a continuation byte (`10xxxxxx`).
pub open spec fn splits_codepoint(bytes: Seq<u8>, o: nat) -> bool {
    o < bytes.len() && is_continuation_byte(bytes[o as int])
}

/// The byte range that slicing text with bytes `bytes` yields, given the range `b` that
/// the bounds engine computed: the same range when neither of its ends falls inside a
/// codepoint, else `SplitsCodepoint`; a bounds failure passes through unchanged.
pub open spec fn text_bounds(bytes: Seq<u8>, b: Result<(nat, nat), SliceError>) -> Result<(nat, nat), SliceError> {
    match b {
        Ok((start, end)) => if splits_codepoint(bytes, start) || splits_codepoint(bytes, end) {
            Err(SliceError::SplitsCodepoint)
        } else {
            Ok((start, end))
        },
        Err(e) => Err(e),
    }
}

/// What a text slicing function returns for text with bytes `bytes` and a range `b`:
/// text holding the bytes of the range, or the same failure.
pub open spec fn text_result(r: Result<&str, SliceError>, bytes: Seq<u8>, b: Result<(nat, nat), SliceError>) -> bool {
    match b {
        Ok((start, end)) => r is Ok && r->Ok_0.spec_bytes() == bytes.subrange(start as int, end as int),
        Err(e) => r is Err && r->Err_0 == e,
    }
}

/// True when `o` is a position of the text `s` at which no codepoint is cut.
pub open spec fn at_codepoint_boundary(s: &str, o: nat) -> bool {
    o <= s.spec_bytes().len() && !splits_codepoint(s.spec_bytes(), o)
}

pub(crate) proof fn lemma_boundary(s: &str, o: nat)
    requires
        at_codepoint_boundary(s, o),
    ensures
        is_char_boundary(s.spec_bytes(), o as int),
{
    let bytes = s.spec_bytes();
    assert(valid_utf8(bytes));
    if o < bytes.len() {
        assert(!is_continuation_byte(bytes[o as int]));
    }
}

/// The start of any text is not inside a codepoint.
pub(crate) proof fn lemma_start_is_boundary(s: &str)
    ensures
        !splits_codepoint(s.spec_bytes(), 0),
{
    let bytes = s.spec_bytes();
    assert(valid_utf8(bytes));
    if bytes.len() > 0 {
        assert(is_char_boundary(bytes, 0));
    }
}

/// Where the bytes of valid UTF-8 `a` are followed by more bytes and the whole is valid
/// UTF-8, the end of `a` is a codepoint boundary of the whole.
proof fn lemma_valid_prefix_end(a: Seq<u8>, b: Seq<u8>)
    requires
        valid_utf8(a),
        valid_utf8(a + b),
    ensures
        is_char_boundary(a + b, a.len() as int),
    decreases a.len(),
{
    if a.len() > 0 {
        let w = a + b;
        assert(w[0] == a[0]);
        assert(length_of_first_scalar(w) == length_of_first_scalar(a));
        assert(pop_first_scalar(w) =~= pop_first_scalar(a) + b);
        lemma_valid_prefix_end(pop_first_scalar(a), b);
    }
}

/// The end of a prefix of some text, written in whole codepoints, is a boundary of the text.
pub(crate) proof fn lemma_prefix_boundary(s: &str, p: &str)
    requires
        is_prefix(p.spec_bytes(), s.spec_bytes()),
    ensures
        at_codepoint_boundary(s, p.spec_bytes().len()),
{
    let (sb, pb) = (s.spec_bytes(), p.spec_bytes());
    let rest = sb.subrange(pb.len() as int, sb.len() as int);
    assert(sb =~= pb + rest);
    assert(valid_utf8(pb));
    assert(valid_utf8(sb));
    lemma_valid_prefix_end(pb, rest);
    if pb.len() < sb.len() {
        assert(!is_continuation_byte(sb[pb.len() as int]));
    }
}

/// The start of a suffix of some text, written in whole codepoints, is a boundary of the text.
pub(crate) proof fn lemma_suffix_boundary(s: &str, x: &str)
    requires
        is_suffix(x.spec_bytes(), s.spec_bytes()),
    ensures
        at_codepoint_boundary(s, (s.spec_bytes().len() - x.spec_bytes().len()) as nat),
{
    let (sb, xb) = (s.spec_bytes(), x.spec_bytes());
    if xb.len() > 0 {
        assert(valid_utf8(xb));
        assert(is_char_boundary(xb, 0));
        assert(!is_continuation_byte(xb[0]));
        assert(sb[sb.len() - xb.len()] == xb[0]);
    }
}

/// True when byte `b` is a UTF-8 continuation byte.
pub(crate) fn is_continuation(b: u8) -> (r: bool)
    ensures
        r == is_continuation_byte(b),
{
    b & 0xc0 == 0x80
}

/// The part of `s` between byte offsets `start` and `end`, neither of which cuts a codepoint.
fn sub_text<'a>(s: &'a str, start: usize, end: usize) -> (r: &'a str)
    requires
        start <= end,
        at_codepoint_boundary(s, start as nat),
        at_codepoint_boundary(s, end as nat),
    ensures
        r.spec_bytes() == s.spec_bytes().subrange(start as int, end as int),
{
    let ghost bytes = s.spec_bytes();
    proof {
        lemma_boundary(s, start as nat);
    }
    let (_, tail) = s.split_at(start);
    proof {
        let tb = tail.spec_bytes();
        assert(valid_utf8(tb));
        if end < bytes.len() {
            assert(tb[end - start] == bytes[end as int]);
        } else {
            assert(end - start == tb.len());
        }
        lemma_boundary(tail, (end - start) as nat);
    }
    let (mid, _) = tail.split_at(end - start);
    assert(mid.spec_bytes() =~= bytes.subrange(start as int, end as int));
    mid
}

/// Takes the half-open byte range `[start, end)` of the text `s`.
pub fn str_slice(s: &str, start: usize, end: usize) -> (r: Result<&str, SliceError>)
    ensures
        text_result(r, s.spec_bytes(), text_bounds(s.spec_bytes(), half_open_bounds(s.spec_bytes().len(), start as nat, end as nat))),
{
    let bytes = s.as_bytes();
    if let Err(e) = slice(bytes, start, end) {
        return Err(e);
    }
    if (start < bytes.len() && is_continuation(bytes[start])) || (end < bytes.len() && is_continuation(bytes[end])) {
        return Err(SliceError::SplitsCodepoint);
    }
    Ok(sub_text(s, start, end))
}

/// Takes the inclusive byte range `[start, end]` of the text `s`.
pub fn str_slice_inclusive(s: &str, start: usize, end: usize) -> (r: Result<&str, SliceError>)
    ensures
        text_result(r, s.spec_bytes(), text_bounds(s.spec_bytes(), inclusive_bounds(s.spec_bytes().len(), start as nat, end as nat))),
{
    let bytes = s.as_bytes();
    if let Err(e) = slice_inclusive(bytes, start, end) {
        return Err(e);
    }
    if (start < bytes.len() && is_continuation(bytes[start])) || (end + 1 < bytes.len() && is_continuation(bytes[end + 1])) {
        return Err(SliceError::SplitsCodepoint);
    }
    Ok(sub_text(s, start, end + 1))
}

} // verus!
