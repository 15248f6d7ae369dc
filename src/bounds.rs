//! The bounds engine: turns a requested range into a validated half-open byte or
//! element range, or into the reason it is refused.

use vstd::prelude::*;

verus! {

/// Why a requested slice could not be taken.
#[derive(Clone, Copy, Debug, PartialEq, Eq, Structural)]
pub enum SliceError {
    /// The start of the range lies after its end.
    StartAfterEnd,
    /// The range reaches past the end of the source.
    OutOfRange,
    /// A boundary of the range falls inside a multi-byte UTF-8 codepoint.
    SplitsCodepoint,
}

impl SliceError {
    /// A human-readable description of the failure.
    pub fn message(&self) -> (r: &'static str)
        ensures
            *self == SliceError::StartAfterEnd ==> r@ == "slice index start is higher than end"@,
            *self == SliceError::OutOfRange ==> r@ == "slice index out of range"@,
            *self == SliceError::SplitsCodepoint ==> r@ == "slice splits utf-8 codepoint"@,
    {
        match self {
            SliceError::StartAfterEnd => "slice index start is higher than end",
            SliceError::OutOfRange => "slice index out of range",
            SliceError::SplitsCodepoint => "slice splits utf-8 codepoint",
        }
    }
}

/// The half-open range `[start, end)` of a source of length `len`, or why it is refused.
pub open spec fn half_open_bounds(len: nat, start: nat, end: nat) -> Result<(nat, nat), SliceError> {
    if start > end {
        Err(SliceError::StartAfterEnd)
    } else if end > len {
        Err(SliceError::OutOfRange)
    } else {
        Ok((start, end))
    }
}

/// The inclusive range `[start, end]` of a source of length `len`, as the half-open
/// range `[start, end + 1)`, or why it is refused.
pub open spec fn inclusive_bounds(len: nat, start: nat, end: nat) -> Result<(nat, nat), SliceError> {
    if start > end {
        Err(SliceError::StartAfterEnd)
    } else if end >= len {
        Err(SliceError::OutOfRange)
    } else {
        Ok((start, end + 1))
    }
}

/// A range of positions in a source, in each of the forms a caller may write it.
#[derive(Clone, Copy, Debug, PartialEq, Eq, Structural)]
pub enum SliceIndex {
    /// `[start, end)`
    Range { start: usize, end: usize },
    /// `[start, end]`
    RangeInclusive { start: usize, end: usize },
    /// `[start, len)`
    RangeFrom { start: usize },
    /// `[0, end)`
    RangeTo { end: usize },
    /// `[0, end]`
    RangeToInclusive { end: usize },
    /// `[0, len)`
    RangeFull,
}

impl SliceIndex {
    /// The half-open range this index selects in a source of length `len`, or why it
    /// selects none.
    pub open spec fn bounds(self, len: nat) -> Result<(nat, nat), SliceError> {
        match self {
            SliceIndex::Range { start, end } => half_open_bounds(len, start as nat, end as nat),
            SliceIndex::RangeInclusive { start, end } => inclusive_bounds(len, start as nat, end as nat),
            SliceIndex::RangeFrom { start } => half_open_bounds(len, start as nat, len),
            SliceIndex::RangeTo { end } => half_open_bounds(len, 0, end as nat),
            SliceIndex::RangeToInclusive { end } => inclusive_bounds(len, 0, end as nat),
            SliceIndex::RangeFull => Ok((0, len)),
        }
    }
}

/// What a slicing function returns for a source `s` and a validated range `b`:
/// the elements of the range, or the same failure.
pub open spec fn slice_result<T>(r: Result<&[T], SliceError>, s: Seq<T>, b: Result<(nat, nat), SliceError>) -> bool {
    match b {
        Ok((start, end)) => r is Ok && r->Ok_0@ == s.subrange(start as int, end as int),
        Err(e) => r is Err && r->Err_0 == e,
    }
}

/// Takes the half-open range `[start, end)` of `s`.
pub fn slice<T>(s: &[T], start: usize, end: usize) -> (r: Result<&[T], SliceError>)
    ensures
        slice_result(r, s@, half_open_bounds(s@.len(), start as nat, end as nat)),
{
    if start > end {
        return Err(SliceError::StartAfterEnd);
    }
    if end > s.len() {
        return Err(SliceError::OutOfRange);
    }
    Ok(&s[start..end])
}

/// Takes the inclusive range `[start, end]` of `s`.
pub fn slice_inclusive<T>(s: &[T], start: usize, end: usize) -> (r: Result<&[T], SliceError>)
    ensures
        slice_result(r, s@, inclusive_bounds(s@.len(), start as nat, end as nat)),
{
    if start > end {
        return Err(SliceError::StartAfterEnd);
    }
    if end >= s.len() {
        return Err(SliceError::OutOfRange);
    }
    Ok(&s[start..end + 1])
}

} // verus!
