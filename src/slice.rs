//! Pending slice operations: a source paired with an index or a split position.

use vstd::prelude::*;
use vstd::string::StringSliceAdditionalSpecFns;

use crate::bounds::{slice, slice_inclusive, slice_result, SliceError, SliceIndex};
use crate::text::{
    at_codepoint_boundary, is_continuation, lemma_boundary, lemma_start_is_boundary, str_slice,
    str_slice_inclusive, text_bounds, text_result,
};

verus! {

/// A pending slice operation: the source `0` to be indexed, sliced or split by `1`.
pub struct Slice<'a, S: ?Sized, Index>(pub &'a S, pub Index);

/// What an index lookup that may fail returns: the elements of the selected range,
/// or nothing when the range is refused.
pub open spec fn option_result<T>(r: Option<&[T]>, s: Seq<T>, b: Result<(nat, nat), SliceError>) -> bool {
    match b {
        Ok((start, end)) => r is Some && r->0@ == s.subrange(start as int, end as int),
        Err(_) => r is None,
    }
}

/// The elements of `s` in the accepted range `b`.
pub open spec fn selected<T>(s: Seq<T>, b: Result<(nat, nat), SliceError>) -> Seq<T>
    recommends
        b is Ok,
{
    s.subrange(b->Ok_0.0 as int, b->Ok_0.1 as int)
}

impl<'a, T> Slice<'a, [T], SliceIndex> {
    /// Evaluates this slice operation, reporting why it fails.
    pub fn eval(&self) -> (r: Result<&'a [T], SliceError>)
        ensures
            slice_result(r, self.0@, self.1.bounds(self.0@.len())),
    {
        match self.1 {
            SliceIndex::Range { start, end } => slice(self.0, start, end),
            SliceIndex::RangeInclusive { start, end } => slice_inclusive(self.0, start, end),
            SliceIndex::RangeFrom { start } => slice(self.0, start, self.0.len()),
            SliceIndex::RangeTo { end } => slice(self.0, 0, end),
            SliceIndex::RangeToInclusive { end } => slice_inclusive(self.0, 0, end),
            SliceIndex::RangeFull => {
                assert(self.0@.subrange(0, self.0@.len() as int) =~= self.0@);
                Ok(self.0)
            },
        }
    }

    /// Evaluates this slice operation, or returns `None` on error.
    pub fn get(&self) -> (r: Option<&'a [T]>)
        ensures
            option_result(r, self.0@, self.1.bounds(self.0@.len())),
    {
        match self.eval() {
            Ok(v) => Some(v),
            Err(_) => None,
        }
    }

    /// Evaluates this slice operation, whose range must be accepted.
    pub fn index(&self) -> (r: &'a [T])
        requires
            self.1.bounds(self.0@.len()) is Ok,
        ensures
            r@ == selected(self.0@, self.1.bounds(self.0@.len())),
    {
        match self.eval() {
            Ok(v) => v,
            // not reached: the range is accepted
            Err(_) => self.0,
        }
    }
}

impl<'a, T> Slice<'a, [T], usize> {
    /// The element at the stored position, or `OutOfRange` when there is none.
    pub fn eval(&self) -> (r: Result<&'a T, SliceError>)
        ensures
            match r {
                Ok(v) => self.1 < self.0@.len() && *v == self.0@[self.1 as int],
                Err(e) => self.1 >= self.0@.len() && e == SliceError::OutOfRange,
            },
    {
        if self.1 < self.0.len() {
            Ok(&self.0[self.1])
        } else {
            Err(SliceError::OutOfRange)
        }
    }

    /// The element at the stored position, or `None` when it is out of range.
    pub fn get(&self) -> (r: Option<&'a T>)
        ensures
            r is Some <==> self.1 < self.0@.len(),
            r is Some ==> *r->0 == self.0@[self.1 as int],
    {
        match self.eval() {
            Ok(v) => Some(v),
            Err(_) => None,
        }
    }

    /// The element at the stored position, which must be in range.
    pub fn index(&self) -> (r: &'a T)
        requires
            self.1 < self.0@.len(),
        ensures
            *r == self.0@[self.1 as int],
    {
        &self.0[self.1]
    }

    /// Splits the slice at the stored position, which must not exceed its length.
    pub fn split(&self) -> (r: (&'a [T], &'a [T]))
        requires
            self.1 <= self.0@.len(),
        ensures
            r.0@ == self.0@.subrange(0, self.1 as int),
            r.1@ == self.0@.subrange(self.1 as int, self.0@.len() as int),
    {
        self.0.split_at(self.1)
    }

    /// Splits the slice at the stored position, or reports `OutOfRange` when it exceeds
    /// the length.
    pub fn checked_split(&self) -> (r: Result<(&'a [T], &'a [T]), SliceError>)
        ensures
            match r {
                Ok((left, right)) => {
                    &&& self.1 <= self.0@.len()
                    &&& left@ == self.0@.subrange(0, self.1 as int)
                    &&& right@ == self.0@.subrange(self.1 as int, self.0@.len() as int)
                },
                Err(e) => self.1 > self.0@.len() && e == SliceError::OutOfRange,
            },
    {
        if self.1 <= self.0.len() {
            Ok(self.split())
        } else {
            Err(SliceError::OutOfRange)
        }
    }

    /// Splits the slice at the stored position, or returns `None` when it exceeds the length.
    pub fn try_split(&self) -> (r: Option<(&'a [T], &'a [T])>)
        ensures
            match r {
                Some((left, right)) => {
                    &&& self.1 <= self.0@.len()
                    &&& left@ == self.0@.subrange(0, self.1 as int)
                    &&& right@ == self.0@.subrange(self.1 as int, self.0@.len() as int)
                },
                None => self.1 > self.0@.len(),
            },
    {
        match self.checked_split() {
            Ok(parts) => Some(parts),
            Err(_) => None,
        }
    }
}

impl<'a, T, const N: usize> Slice<'a, [T; N], SliceIndex> {
    /// Evaluates this slice operation on an array, reporting why it fails.
    pub fn eval(&self) -> (r: Result<&'a [T], SliceError>)
        ensures
            slice_result(r, self.0@, self.1.bounds(N as nat)),
    {
        Slice(self.0.as_slice(), self.1).eval()
    }

    /// Evaluates this slice operation on an array, or returns `None` on error.
    pub fn get(&self) -> (r: Option<&'a [T]>)
        ensures
            option_result(r, self.0@, self.1.bounds(N as nat)),
    {
        Slice(self.0.as_slice(), self.1).get()
    }

    /// Evaluates this slice operation on an array, whose range must be accepted.
    pub fn index(&self) -> (r: &'a [T])
        requires
            self.1.bounds(N as nat) is Ok,
        ensures
            r@ == selected(self.0@, self.1.bounds(N as nat)),
    {
        Slice(self.0.as_slice(), self.1).index()
    }
}

impl<'a, T, const N: usize> Slice<'a, [T; N], usize> {
    /// The element at the stored position, or `OutOfRange` when there is none.
    pub fn eval(&self) -> (r: Result<&'a T, SliceError>)
        ensures
            match r {
                Ok(v) => self.1 < N && *v == self.0@[self.1 as int],
                Err(e) => self.1 >= N && e == SliceError::OutOfRange,
            },
    {
        Slice(self.0.as_slice(), self.1).eval()
    }

    /// Splits the array at the stored position, or reports `OutOfRange` when it exceeds
    /// the length.
    pub fn checked_split(&self) -> (r: Result<(&'a [T], &'a [T]), SliceError>)
        ensures
            match r {
                Ok((left, right)) => {
                    &&& self.1 <= N
                    &&& left@ == self.0@.subrange(0, self.1 as int)
                    &&& right@ == self.0@.subrange(self.1 as int, N as int)
                },
                Err(e) => self.1 > N && e == SliceError::OutOfRange,
            },
    {
        Slice(self.0.as_slice(), self.1).checked_split()
    }

    /// The element at the stored position, or `None` when it is out of range.
    pub fn get(&self) -> (r: Option<&'a T>)
        ensures
            r is Some <==> self.1 < N,
            r is Some ==> *r->0 == self.0@[self.1 as int],
    {
        Slice(self.0.as_slice(), self.1).get()
    }

    /// The element at the stored position, which must be in range.
    pub fn index(&self) -> (r: &'a T)
        requires
            self.1 < N,
        ensures
            *r == self.0@[self.1 as int],
    {
        Slice(self.0.as_slice(), self.1).index()
    }

    /// Splits the array at the stored position, which must not exceed its length.
    pub fn split(&self) -> (r: (&'a [T], &'a [T]))
        requires
            self.1 <= N,
        ensures
            r.0@ == self.0@.subrange(0, self.1 as int),
            r.1@ == self.0@.subrange(self.1 as int, N as int),
    {
        Slice(self.0.as_slice(), self.1).split()
    }

    /// Splits the array at the stored position, or returns `None` when it exceeds the length.
    pub fn try_split(&self) -> (r: Option<(&'a [T], &'a [T])>)
        ensures
            match r {
                Some((left, right)) => {
                    &&& self.1 <= N
                    &&& left@ == self.0@.subrange(0, self.1 as int)
                    &&& right@ == self.0@.subrange(self.1 as int, N as int)
                },
                None => self.1 > N,
            },
    {
        Slice(self.0.as_slice(), self.1).try_split()
    }
}

/// What a text lookup that may fail returns: text holding the bytes of the selected
/// range, or nothing when the range is refused.
pub open spec fn text_option_result(r: Option<&str>, bytes: Seq<u8>, b: Result<(nat, nat), SliceError>) -> bool {
    match b {
        Ok((start, end)) => r is Some && r->0.spec_bytes() == bytes.subrange(start as int, end as int),
        Err(_) => r is None,
    }
}

impl<'a> Slice<'a, str, SliceIndex> {
    /// Evaluates this slice operation on text, reporting why it fails.
    pub fn eval(&self) -> (r: Result<&'a str, SliceError>)
        ensures
            text_result(r, self.0.spec_bytes(), text_bounds(self.0.spec_bytes(), self.1.bounds(self.0.spec_bytes().len()))),
    {
        match self.1 {
            SliceIndex::Range { start, end } => str_slice(self.0, start, end),
            SliceIndex::RangeInclusive { start, end } => str_slice_inclusive(self.0, start, end),
            SliceIndex::RangeFrom { start } => str_slice(self.0, start, self.0.as_bytes().len()),
            SliceIndex::RangeTo { end } => str_slice(self.0, 0, end),
            SliceIndex::RangeToInclusive { end } => str_slice_inclusive(self.0, 0, end),
            SliceIndex::RangeFull => {
                let ghost bytes = self.0.spec_bytes();
                proof {
                    lemma_start_is_boundary(self.0);
                }
                assert(bytes.subrange(0, bytes.len() as int) =~= bytes);
                Ok(self.0)
            },
        }
    }

    /// Evaluates this slice operation on text, or returns `None` on error.
    pub fn get(&self) -> (r: Option<&'a str>)
        ensures
            text_option_result(r, self.0.spec_bytes(), text_bounds(self.0.spec_bytes(), self.1.bounds(self.0.spec_bytes().len()))),
    {
        match self.eval() {
            Ok(v) => Some(v),
            Err(_) => None,
        }
    }

    /// Evaluates this slice operation on text, whose range must be accepted.
    pub fn index(&self) -> (r: &'a str)
        requires
            text_bounds(self.0.spec_bytes(), self.1.bounds(self.0.spec_bytes().len())) is Ok,
        ensures
            r.spec_bytes() == selected(self.0.spec_bytes(), self.1.bounds(self.0.spec_bytes().len())),
    {
        match self.eval() {
            Ok(v) => v,
            // not reached: the range is accepted
            Err(_) => self.0,
        }
    }
}

impl<'a> Slice<'a, str, usize> {
    /// Splits the text at the stored byte position, which must not exceed its length
    /// nor fall inside a codepoint.
    pub fn split(&self) -> (r: (&'a str, &'a str))
        requires
            at_codepoint_boundary(self.0, self.1 as nat),
        ensures
            r.0.spec_bytes() == self.0.spec_bytes().subrange(0, self.1 as int),
            r.1.spec_bytes() == self.0.spec_bytes().subrange(self.1 as int, self.0.spec_bytes().len() as int),
    {
        proof {
            lemma_boundary(self.0, self.1 as nat);
        }
        self.0.split_at(self.1)
    }

    /// Splits the text at the stored byte position, or reports `OutOfRange` when it
    /// exceeds the length and `SplitsCodepoint` when it falls inside a codepoint.
    pub fn checked_split(&self) -> (r: Result<(&'a str, &'a str), SliceError>)
        ensures
            match r {
                Ok((left, right)) => {
                    &&& at_codepoint_boundary(self.0, self.1 as nat)
                    &&& left.spec_bytes() == self.0.spec_bytes().subrange(0, self.1 as int)
                    &&& right.spec_bytes() == self.0.spec_bytes().subrange(self.1 as int, self.0.spec_bytes().len() as int)
                },
                Err(e) => {
                    &&& !at_codepoint_boundary(self.0, self.1 as nat)
                    &&& e == if self.1 > self.0.spec_bytes().len() {
                        SliceError::OutOfRange
                    } else {
                        SliceError::SplitsCodepoint
                    }
                },
            },
    {
        let (_, rest) = match Slice(self.0.as_bytes(), self.1).checked_split() {
            Ok(parts) => parts,
            Err(e) => return Err(e),
        };
        if rest.len() > 0 && is_continuation(rest[0]) {
            Err(SliceError::SplitsCodepoint)
        } else {
            Ok(self.split())
        }
    }

    /// Splits the text at the stored byte position, or returns `None` when it exceeds the
    /// length or falls inside a codepoint.
    pub fn try_split(&self) -> (r: Option<(&'a str, &'a str)>)
        ensures
            match r {
                Some((left, right)) => {
                    &&& at_codepoint_boundary(self.0, self.1 as nat)
                    &&& left.spec_bytes() == self.0.spec_bytes().subrange(0, self.1 as int)
                    &&& right.spec_bytes() == self.0.spec_bytes().subrange(self.1 as int, self.0.spec_bytes().len() as int)
                },
                None => !at_codepoint_boundary(self.0, self.1 as nat),
            },
    {
        match self.checked_split() {
            Ok(parts) => Some(parts),
            Err(_) => None,
        }
    }
}

} // verus!
