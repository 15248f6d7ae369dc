//! Properties that hold across the operations of this library, stated over the same
//! spec functions that the operations' contracts use.

use core::cmp::Ordering;

use vstd::prelude::*;
use vstd::string::StringSliceAdditionalSpecFns;

use crate::bounds::{half_open_bounds, inclusive_bounds, slice_result, SliceError};
use crate::compare::{
    first_difference, is_prefix, is_suffix, lemma_agree_without_difference, lemma_first_difference_unique, lemma_lex_cmp_equal,
    lex_cmp, ordering_of, reversed, stripped_prefix, stripped_suffix, Element,
};
use crate::text::{splits_codepoint, text_bounds, text_result};

verus! {

/// Slicing a half-open range `[start, end)` that lies within the source succeeds, with a
/// view of `end - start` elements that are the source's elements at `start..end`.
pub proof fn law_slice_within_bounds<T>(r: Result<&[T], SliceError>, src: Seq<T>, start: nat, end: nat)
    requires
        start <= end <= src.len(),
        slice_result(r, src, half_open_bounds(src.len(), start, end)),
    ensures
        r is Ok,
        r->Ok_0@.len() == end - start,
        forall|i: int| 0 <= i < end - start ==> r->Ok_0@[i] == src[start + i],
{
}

/// Slicing text by a half-open byte range `[start, end)` that lies within it and cuts no
/// codepoint succeeds, with text of `end - start` bytes that are the source's bytes at
/// `start..end`.
pub proof fn law_text_slice_within_bounds(r: Result<&str, SliceError>, bytes: Seq<u8>, start: nat, end: nat)
    requires
        start <= end <= bytes.len(),
        !splits_codepoint(bytes, start),
        !splits_codepoint(bytes, end),
        text_result(r, bytes, text_bounds(bytes, half_open_bounds(bytes.len(), start, end))),
    ensures
        r is Ok,
        r->Ok_0.spec_bytes().len() == end - start,
        forall|i: int| 0 <= i < end - start ==> r->Ok_0.spec_bytes()[i] == bytes[start + i],
{
}

/// A range whose start lies after its end is refused with `StartAfterEnd`, in both
/// forms; otherwise a half-open range that ends past the source, or an inclusive range
/// that ends at or past it, is refused with `OutOfRange`. Text passes these failures on.
pub proof fn law_refused_ranges(bytes: Seq<u8>, len: nat, start: nat, end: nat)
    ensures
        start > end ==> half_open_bounds(len, start, end) == Err::<(nat, nat), _>(SliceError::StartAfterEnd),
        start > end ==> inclusive_bounds(len, start, end) == Err::<(nat, nat), _>(SliceError::StartAfterEnd),
        start <= end && end > len ==> half_open_bounds(len, start, end) == Err::<(nat, nat), _>(SliceError::OutOfRange),
        start <= end && end >= len ==> inclusive_bounds(len, start, end) == Err::<(nat, nat), _>(SliceError::OutOfRange),
        half_open_bounds(len, start, end) is Err ==> text_bounds(bytes, half_open_bounds(len, start, end)) == half_open_bounds(len, start, end),
        inclusive_bounds(len, start, end) is Err ==> text_bounds(bytes, inclusive_bounds(len, start, end)) == inclusive_bounds(len, start, end),
{
}

/// Text refuses with `SplitsCodepoint` every range within its bytes whose start, or
/// whose end boundary, falls on a continuation byte.
pub proof fn law_text_cut_codepoint(bytes: Seq<u8>, start: nat, end: nat)
    requires
        start <= end,
    ensures
        end <= bytes.len() && (splits_codepoint(bytes, start) || splits_codepoint(bytes, end))
            ==> text_bounds(bytes, half_open_bounds(bytes.len(), start, end)) == Err::<(nat, nat), _>(SliceError::SplitsCodepoint),
        end < bytes.len() && (splits_codepoint(bytes, start) || splits_codepoint(bytes, end + 1))
            ==> text_bounds(bytes, inclusive_bounds(bytes.len(), start, end)) == Err::<(nat, nat), _>(SliceError::SplitsCodepoint),
{
}

/// The two parts of a split, the left one followed by the right one, are the source
/// again.
pub proof fn law_split_rejoins<T>(src: Seq<T>, at: nat)
    requires
        at <= src.len(),
    ensures
        src.subrange(0, at as int) + src.subrange(at as int, src.len() as int) == src,
{
    assert(src.subrange(0, at as int) + src.subrange(at as int, src.len() as int) =~= src);
}

/// Comparison finds two sequences equal exactly when they have the same length and the
/// same elements.
pub proof fn law_cmp_equal<T: Element>(a: Seq<T>, b: Seq<T>)
    ensures
        lex_cmp(a, b) == Ordering::Equal <==> (a.len() == b.len() && forall|i: int| 0 <= i < a.len() ==> a[i] == b[i]),
{
    lemma_lex_cmp_equal(a, b);
    if a.len() == b.len() && forall|i: int| 0 <= i < a.len() ==> a[i] == b[i] {
        assert(a =~= b);
    }
}

/// Comparing `b` with `a` gives the reverse of comparing `a` with `b`.
pub proof fn law_cmp_reverses<T: Element>(a: Seq<T>, b: Seq<T>)
    ensures
        lex_cmp(b, a) == reversed(lex_cmp(a, b)),
{
    if exists|i: int| first_difference(a, b, i) {
        let i = choose|i: int| first_difference(a, b, i);
        assert(first_difference(b, a, i));
        let k = choose|k: int| first_difference(b, a, k);
        lemma_first_difference_unique(b, a, i, k);
    } else {
        assert forall|i: int| !first_difference(b, a, i) by {
            if first_difference(b, a, i) {
                assert(first_difference(a, b, i));
            }
        }
    }
}

/// True when `a` comes before `b` at position `i`: they agree before `i`, and either
/// both hold an element at `i` and `a`'s is lower, or `a` ends at `i` and `b` goes on.
pub open spec fn before_at<T: Element>(a: Seq<T>, b: Seq<T>, i: int) -> bool {
    &&& 0 <= i <= a.len()
    &&& i <= b.len()
    &&& forall|j: int| 0 <= j < i ==> a[j] == b[j]
    &&& (i < a.len() && i < b.len() && a[i].rank() < b[i].rank()) || (i == a.len() && i < b.len())
}

proof fn lemma_less_witness<T: Element>(a: Seq<T>, b: Seq<T>)
    ensures
        lex_cmp(a, b) == Ordering::Less <==> exists|i: int| before_at(a, b, i),
{
    if exists|i: int| first_difference(a, b, i) {
        let i = choose|i: int| first_difference(a, b, i);
        if lex_cmp(a, b) == Ordering::Less {
            assert(before_at(a, b, i));
        }
        if exists|k: int| before_at(a, b, k) {
            let k = choose|k: int| before_at(a, b, k);
            if k < i {
                assert(a[k] == b[k]);
                T::lemma_rank_injective(a[k], b[k]);
            } else if k > i {
                assert(a[i] == b[i]);
            }
        }
    } else {
        if a.len() < b.len() {
            lemma_agree_without_difference(a, b, a.len() as int);
            assert(before_at(a, b, a.len() as int));
        }
        if exists|k: int| before_at(a, b, k) {
            let k = choose|k: int| before_at(a, b, k);
            if k < a.len() {
                T::lemma_rank_injective(a[k], b[k]);
                assert(first_difference(a, b, k));
            }
        }
    }
}

/// Comparison is transitive: where `a` comes before `b` and `b` before `c`, `a` comes
/// before `c`.
pub proof fn law_cmp_transitive<T: Element>(a: Seq<T>, b: Seq<T>, c: Seq<T>)
    requires
        lex_cmp(a, b) == Ordering::Less,
        lex_cmp(b, c) == Ordering::Less,
    ensures
        lex_cmp(a, c) == Ordering::Less,
{
    lemma_less_witness(a, b);
    lemma_less_witness(b, c);
    lemma_less_witness(a, c);
    let i = choose|i: int| before_at(a, b, i);
    let j = choose|j: int| before_at(b, c, j);
    let k = if i < j { i } else { j };
    assert forall|m: int| 0 <= m < k implies a[m] == c[m] by {
        assert(a[m] == b[m]);
        assert(b[m] == c[m]);
    }
    if i < j {
        assert(b[i] == c[i]);
        assert(before_at(a, c, i));
    } else if j < i {
        assert(a[j] == b[j]);
        assert(before_at(a, c, j));
    } else {
        assert(before_at(a, c, i));
    }
}

/// Stripping a prefix that a sequence has succeeds, leaving the rest of the sequence,
/// and the prefix followed by that rest is the sequence again.
pub proof fn law_strip_prefix_round_trip<T>(s: Seq<T>, p: Seq<T>)
    requires
        is_prefix(p, s),
    ensures
        stripped_prefix(p, s) == Some(s.subrange(p.len() as int, s.len() as int)),
        p + stripped_prefix(p, s)->0 == s,
{
    assert(p + s.subrange(p.len() as int, s.len() as int) =~= s);
}

/// Stripping a suffix that a sequence has succeeds, leaving the sequence before it,
/// and that part followed by the suffix is the sequence again.
pub proof fn law_strip_suffix_round_trip<T>(s: Seq<T>, x: Seq<T>)
    requires
        is_suffix(x, s),
    ensures
        stripped_suffix(x, s) == Some(s.subrange(0, s.len() - x.len())),
        stripped_suffix(x, s)->0 + x == s,
{
    assert(s.subrange(0, s.len() - x.len()) + x =~= s);
}

} // verus!
