//! Lexicographic comparison of element slices and text, and the prefix and suffix
//! operations built on it.

use core::cmp::Ordering;

use vstd::prelude::*;
use vstd::string::StringSliceAdditionalSpecFns;
use vstd::utf8::char_u32_cast;

use crate::slice::Slice;
use crate::text::{lemma_prefix_boundary, lemma_suffix_boundary};

verus! {

/// The ordering of two integers.
pub open spec fn ordering_of(a: int, b: int) -> Ordering {
    if a < b {
        Ordering::Less
    } else if a > b {
        Ordering::Greater
    } else {
        Ordering::Equal
    }
}

/// `o` with `Less` and `Greater` exchanged.
pub open spec fn reversed(o: Ordering) -> Ordering {
    match o {
        Ordering::Less => Ordering::Greater,
        Ordering::Equal => Ordering::Equal,
        Ordering::Greater => Ordering::Less,
    }
}

/// An element type whose values are ordered as integers are.
pub trait Element: Sized {
    /// The integer that this value stands at in the element type's order.
    spec fn rank(self) -> int;

    /// Distinct values have distinct ranks.
    proof fn lemma_rank_injective(a: Self, b: Self)
        ensures
            a.rank() == b.rank() ==> a == b,
    ;

    /// Compares two values by rank.
    fn compare(&self, other: &Self) -> (r: Ordering)
        ensures
            r == ordering_of(self.rank(), other.rank()),
    ;
}

impl Element for u8 {
    open spec fn rank(self) -> int {
        self as int
    }

    proof fn lemma_rank_injective(a: u8, b: u8) {
    }

    fn compare(&self, other: &u8) -> (r: Ordering) {
        if *self < *other {
            Ordering::Less
        } else if *self > *other {
            Ordering::Greater
        } else {
            Ordering::Equal
        }
    }
}

impl Element for i8 {
    open spec fn rank(self) -> int {
        self as int
    }

    proof fn lemma_rank_injective(a: i8, b: i8) {
    }

    fn compare(&self, other: &i8) -> (r: Ordering) {
        if *self < *other {
            Ordering::Less
        } else if *self > *other {
            Ordering::Greater
        } else {
            Ordering::Equal
        }
    }
}

impl Element for i16 {
    open spec fn rank(self) -> int {
        self as int
    }

    proof fn lemma_rank_injective(a: i16, b: i16) {
    }

    fn compare(&self, other: &i16) -> (r: Ordering) {
        if *self < *other {
            Ordering::Less
        } else if *self > *other {
            Ordering::Greater
        } else {
            Ordering::Equal
        }
    }
}

impl Element for i32 {
    open spec fn rank(self) -> int {
        self as int
    }

    proof fn lemma_rank_injective(a: i32, b: i32) {
    }

    fn compare(&self, other: &i32) -> (r: Ordering) {
        if *self < *other {
            Ordering::Less
        } else if *self > *other {
            Ordering::Greater
        } else {
            Ordering::Equal
        }
    }
}

impl Element for i64 {
    open spec fn rank(self) -> int {
        self as int
    }

    proof fn lemma_rank_injective(a: i64, b: i64) {
    }

    fn compare(&self, other: &i64) -> (r: Ordering) {
        if *self < *other {
            Ordering::Less
        } else if *self > *other {
            Ordering::Greater
        } else {
            Ordering::Equal
        }
    }
}

impl Element for i128 {
    open spec fn rank(self) -> int {
        self as int
    }

    proof fn lemma_rank_injective(a: i128, b: i128) {
    }

    fn compare(&self, other: &i128) -> (r: Ordering) {
        if *self < *other {
            Ordering::Less
        } else if *self > *other {
            Ordering::Greater
        } else {
            Ordering::Equal
        }
    }
}

impl Element for isize {
    open spec fn rank(self) -> int {
        self as int
    }

    proof fn lemma_rank_injective(a: isize, b: isize) {
    }

    fn compare(&self, other: &isize) -> (r: Ordering) {
        if *self < *other {
            Ordering::Less
        } else if *self > *other {
            Ordering::Greater
        } else {
            Ordering::Equal
        }
    }
}

impl Element for u16 {
    open spec fn rank(self) -> int {
        self as int
    }

    proof fn lemma_rank_injective(a: u16, b: u16) {
    }

    fn compare(&self, other: &u16) -> (r: Ordering) {
        if *self < *other {
            Ordering::Less
        } else if *self > *other {
            Ordering::Greater
        } else {
            Ordering::Equal
        }
    }
}

impl Element for u32 {
    open spec fn rank(self) -> int {
        self as int
    }

    proof fn lemma_rank_injective(a: u32, b: u32) {
    }

    fn compare(&self, other: &u32) -> (r: Ordering) {
        if *self < *other {
            Ordering::Less
        } else if *self > *other {
            Ordering::Greater
        } else {
            Ordering::Equal
        }
    }
}

impl Element for u64 {
    open spec fn rank(self) -> int {
        self as int
    }

    proof fn lemma_rank_injective(a: u64, b: u64) {
    }

    fn compare(&self, other: &u64) -> (r: Ordering) {
        if *self < *other {
            Ordering::Less
        } else if *self > *other {
            Ordering::Greater
        } else {
            Ordering::Equal
        }
    }
}

impl Element for u128 {
    open spec fn rank(self) -> int {
        self as int
    }

    proof fn lemma_rank_injective(a: u128, b: u128) {
    }

    fn compare(&self, other: &u128) -> (r: Ordering) {
        if *self < *other {
            Ordering::Less
        } else if *self > *other {
            Ordering::Greater
        } else {
            Ordering::Equal
        }
    }
}

impl Element for usize {
    open spec fn rank(self) -> int {
        self as int
    }

    proof fn lemma_rank_injective(a: usize, b: usize) {
    }

    fn compare(&self, other: &usize) -> (r: Ordering) {
        if *self < *other {
            Ordering::Less
        } else if *self > *other {
            Ordering::Greater
        } else {
            Ordering::Equal
        }
    }
}

impl Element for char {
    open spec fn rank(self) -> int {
        self as u32 as int
    }

    proof fn lemma_rank_injective(a: char, b: char) {
        char_u32_cast(a, a as u32);
        char_u32_cast(b, b as u32);
    }

    fn compare(&self, other: &char) -> (r: Ordering) {
        let (a, b) = (*self as u32, *other as u32);
        if a < b {
            Ordering::Less
        } else if a > b {
            Ordering::Greater
        } else {
            Ordering::Equal
        }
    }
}

impl Element for bool {
    open spec fn rank(self) -> int {
        if self {
            1
        } else {
            0
        }
    }

    proof fn lemma_rank_injective(a: bool, b: bool) {
    }

    fn compare(&self, other: &bool) -> (r: Ordering) {
        match (*self, *other) {
            (false, true) => Ordering::Less,
            (true, false) => Ordering::Greater,
            _ => Ordering::Equal,
        }
    }
}

/// True when `i` is the first position, within both `a` and `b`, at which they hold
/// different elements.
pub open spec fn first_difference<T>(a: Seq<T>, b: Seq<T>, i: int) -> bool {
    &&& 0 <= i < a.len()
    &&& i < b.len()
    &&& a[i] != b[i]
    &&& forall|j: int| 0 <= j < i ==> a[j] == b[j]
}

/// Lexicographic order: the first position at which the sequences differ decides by
/// the order of the elements there; where there is none, the shorter sequence comes
/// first, and sequences of equal length are equal.
pub open spec fn lex_cmp<T: Element>(a: Seq<T>, b: Seq<T>) -> Ordering {
    if exists|i: int| first_difference(a, b, i) {
        let i = choose|i: int| first_difference(a, b, i);
        ordering_of(a[i].rank(), b[i].rank())
    } else {
        ordering_of(a.len() as int, b.len() as int)
    }
}

/// True when `p` is a prefix of `s`.
pub open spec fn is_prefix<T>(p: Seq<T>, s: Seq<T>) -> bool {
    p.len() <= s.len() && s.subrange(0, p.len() as int) == p
}

/// True when `p` is a suffix of `s`.
pub open spec fn is_suffix<T>(p: Seq<T>, s: Seq<T>) -> bool {
    p.len() <= s.len() && s.subrange(s.len() - p.len(), s.len() as int) == p
}

/// What is left of `s` once the prefix `p` is taken off, or `None` when `s` does not
/// start with `p`.
pub open spec fn stripped_prefix<T>(p: Seq<T>, s: Seq<T>) -> Option<Seq<T>> {
    if is_prefix(p, s) {
        Some(s.subrange(p.len() as int, s.len() as int))
    } else {
        None
    }
}

/// What is left of `s` once the suffix `x` is taken off, or `None` when `s` does not
/// end with `x`.
pub open spec fn stripped_suffix<T>(x: Seq<T>, s: Seq<T>) -> Option<Seq<T>> {
    if is_suffix(x, s) {
        Some(s.subrange(0, s.len() - x.len()))
    } else {
        None
    }
}

/// The elements of an optional slice.
pub open spec fn slice_view<T>(r: Option<&[T]>) -> Option<Seq<T>> {
    match r {
        Some(v) => Some(v@),
        None => None,
    }
}

/// The bytes of an optional text.
pub open spec fn text_view(r: Option<&str>) -> Option<Seq<u8>> {
    match r {
        Some(v) => Some(v.spec_bytes()),
        None => None,
    }
}

/// A first difference, where there is one, is the only one.
pub proof fn lemma_first_difference_unique<T>(a: Seq<T>, b: Seq<T>, i: int, k: int)
    requires
        first_difference(a, b, i),
        first_difference(a, b, k),
    ensures
        i == k,
{
    if i < k {
        assert(a[i] == b[i]);
    } else if k < i {
        assert(a[k] == b[k]);
    }
}

/// Where `a` and `b` have no first difference, they agree on each of the first `k`
/// positions that both hold.
pub proof fn lemma_agree_without_difference<T>(a: Seq<T>, b: Seq<T>, k: int)
    requires
        !exists|i: int| first_difference(a, b, i),
        0 <= k <= a.len(),
        k <= b.len(),
    ensures
        forall|j: int| 0 <= j < k ==> a[j] == b[j],
    decreases k,
{
    if k > 0 {
        lemma_agree_without_difference(a, b, k - 1);
        if a[k - 1] != b[k - 1] {
            assert(first_difference(a, b, k - 1));
        }
    }
}

/// Lexicographic comparison finds two sequences equal exactly when they are the same.
pub proof fn lemma_lex_cmp_equal<T: Element>(a: Seq<T>, b: Seq<T>)
    ensures
        lex_cmp(a, b) == Ordering::Equal <==> a == b,
{
    if exists|i: int| first_difference(a, b, i) {
        let i = choose|i: int| first_difference(a, b, i);
        T::lemma_rank_injective(a[i], b[i]);
    } else {
        if a.len() == b.len() {
            lemma_agree_without_difference(a, b, a.len() as int);
            assert(a =~= b);
        }
    }
}

/// A borrowed view of a slice or text, for comparison and prefix and suffix tests.
pub struct SliceRef<'a, T: ?Sized>(pub &'a T);

impl<'a, T: ?Sized> Clone for SliceRef<'a, T> {
    fn clone(&self) -> (r: Self)
        ensures
            r == *self,
    {
        *self
    }
}

impl<'a, T: ?Sized> Copy for SliceRef<'a, T> {

}

impl<'a, T: Element> SliceRef<'a, [T]> {
    /// True when the slice holds no element.
    pub fn is_empty(self) -> (r: bool)
        ensures
            r == (self.0@.len() == 0),
    {
        self.0.is_empty()
    }

    /// The number of elements in the slice.
    pub fn len(self) -> (r: usize)
        ensures
            r == self.0@.len(),
    {
        self.0.len()
    }

    /// Compares two slices lexicographically.
    pub fn cmp(self, other: SliceRef<[T]>) -> (r: Ordering)
        ensures
            r == lex_cmp(self.0@, other.0@),
    {
        let a = self.0;
        let b = other.0;
        let n: usize = if a.len() < b.len() {
            a.len()
        } else {
            b.len()
        };
        let mut i: usize = 0;
        while i < n
            invariant
                a == self.0,
                b == other.0,
                n <= a@.len(),
                n <= b@.len(),
                n == a@.len() || n == b@.len(),
                i <= n,
                forall|j: int| 0 <= j < i ==> a@[j] == b@[j],
            decreases n - i,
        {
            let o = a[i].compare(&b[i]);
            proof {
                T::lemma_rank_injective(a@[i as int], b@[i as int]);
            }
            match o {
                Ordering::Equal => {},
                _ => {
                    assert(first_difference(a@, b@, i as int));
                    proof {
                        let k = choose|k: int| first_difference(a@, b@, k);
                        lemma_first_difference_unique(a@, b@, i as int, k);
                        assert(o == ordering_of(a@[k].rank(), b@[k].rank()));
                    }
                    return o;
                },
            }
            i += 1;
        }
        assert(!exists|k: int| first_difference(a@, b@, k));
        if a.len() < b.len() {
            Ordering::Less
        } else if a.len() > b.len() {
            Ordering::Greater
        } else {
            Ordering::Equal
        }
    }

    /// Compares two slices lexicographically; the result is always present.
    pub fn partial_cmp(self, other: SliceRef<[T]>) -> (r: Option<Ordering>)
        ensures
            r == Some(lex_cmp(self.0@, other.0@)),
    {
        Some(self.cmp(other))
    }

    /// True when the two slices hold the same elements.
    pub fn eq(self, other: SliceRef<[T]>) -> (r: bool)
        ensures
            r == (self.0@ == other.0@),
    {
        proof {
            lemma_lex_cmp_equal(self.0@, other.0@);
        }
        match self.partial_cmp(other) {
            Some(Ordering::Equal) => true,
            _ => false,
        }
    }

    /// The rest of the slice after `prefix`, or `None` when the slice does not start
    /// with `prefix`.
    pub fn strip_prefix(self, prefix: SliceRef<[T]>) -> (r: Option<&'a [T]>)
        ensures
            slice_view(r) == stripped_prefix(prefix.0@, self.0@),
    {
        if self.len() >= prefix.len() {
            let (pfx, rest) = Slice(self.0, prefix.len()).split();
            if SliceRef(pfx).eq(prefix) {
                Some(rest)
            } else {
                None
            }
        } else {
            None
        }
    }

    /// The slice before `suffix`, or `None` when the slice does not end with `suffix`.
    pub fn strip_suffix(self, suffix: SliceRef<[T]>) -> (r: Option<&'a [T]>)
        ensures
            slice_view(r) == stripped_suffix(suffix.0@, self.0@),
    {
        if self.len() >= suffix.len() {
            let (rest, suff) = Slice(self.0, self.len() - suffix.len()).split();
            if SliceRef(suff).eq(suffix) {
                Some(rest)
            } else {
                None
            }
        } else {
            None
        }
    }

    /// True when the slice starts with `prefix`.
    pub fn starts_with(self, prefix: SliceRef<[T]>) -> (r: bool)
        ensures
            r == is_prefix(prefix.0@, self.0@),
    {
        self.strip_prefix(prefix).is_some()
    }

    /// True when the slice ends with `suffix`.
    pub fn ends_with(self, suffix: SliceRef<[T]>) -> (r: bool)
        ensures
            r == is_suffix(suffix.0@, self.0@),
    {
        self.strip_suffix(suffix).is_some()
    }
}

impl<'a, T: Element, const N: usize> SliceRef<'a, [T; N]> {
    /// True when the array holds no element.
    pub fn is_empty(self) -> (r: bool)
        ensures
            r == (N == 0),
    {
        N == 0
    }

    /// The number of elements in the array.
    pub fn len(self) -> (r: usize)
        ensures
            r == N,
    {
        N
    }

    /// Compares two arrays lexicographically.
    pub fn cmp<const M: usize>(self, other: SliceRef<[T; M]>) -> (r: Ordering)
        ensures
            r == lex_cmp(self.0@, other.0@),
    {
        SliceRef(self.0.as_slice()).cmp(SliceRef(other.0.as_slice()))
    }

    /// Compares two arrays lexicographically; the result is always present.
    pub fn partial_cmp<const M: usize>(self, other: SliceRef<[T; M]>) -> (r: Option<Ordering>)
        ensures
            r == Some(lex_cmp(self.0@, other.0@)),
    {
        Some(self.cmp(other))
    }
}

impl<'a> SliceRef<'a, str> {
    /// True when the text holds no byte.
    pub fn is_empty(self) -> (r: bool)
        ensures
            r == (self.0.spec_bytes().len() == 0),
    {
        self.len() == 0
    }

    /// The number of bytes in the text.
    pub fn len(self) -> (r: usize)
        ensures
            r == self.0.spec_bytes().len(),
    {
        self.0.as_bytes().len()
    }

    /// Compares two texts lexicographically by their bytes.
    pub fn cmp(self, other: SliceRef<str>) -> (r: Ordering)
        ensures
            r == lex_cmp(self.0.spec_bytes(), other.0.spec_bytes()),
    {
        SliceRef(self.0.as_bytes()).cmp(SliceRef(other.0.as_bytes()))
    }

    /// Compares two texts lexicographically by their bytes; the result is always present.
    pub fn partial_cmp(self, other: SliceRef<str>) -> (r: Option<Ordering>)
        ensures
            r == Some(lex_cmp(self.0.spec_bytes(), other.0.spec_bytes())),
    {
        SliceRef(self.0.as_bytes()).partial_cmp(SliceRef(other.0.as_bytes()))
    }

    /// True when the two texts hold the same bytes.
    pub fn eq(self, other: SliceRef<str>) -> (r: bool)
        ensures
            r == (self.0.spec_bytes() == other.0.spec_bytes()),
    {
        proof {
            lemma_lex_cmp_equal(self.0.spec_bytes(), other.0.spec_bytes());
        }
        match self.partial_cmp(other) {
            Some(Ordering::Equal) => true,
            _ => false,
        }
    }

    /// The rest of the text after `prefix`, or `None` when the text does not start
    /// with `prefix`.
    pub fn strip_prefix(self, prefix: SliceRef<str>) -> (r: Option<&'a str>)
        ensures
            text_view(r) == stripped_prefix(prefix.0.spec_bytes(), self.0.spec_bytes()),
    {
        if self.len() >= prefix.len() {
            match Slice(self.0, prefix.len()).try_split() {
                Some((pfx, rest)) => {
                    if SliceRef(pfx).eq(prefix) {
                        Some(rest)
                    } else {
                        None
                    }
                },
                None => {
                    proof {
                        if is_prefix(prefix.0.spec_bytes(), self.0.spec_bytes()) {
                            lemma_prefix_boundary(self.0, prefix.0);
                        }
                    }
                    None
                },
            }
        } else {
            None
        }
    }

    /// The text before `suffix`, or `None` when the text does not end with `suffix`.
    pub fn strip_suffix(self, suffix: SliceRef<str>) -> (r: Option<&'a str>)
        ensures
            text_view(r) == stripped_suffix(suffix.0.spec_bytes(), self.0.spec_bytes()),
    {
        if self.len() >= suffix.len() {
            match Slice(self.0, self.len() - suffix.len()).try_split() {
                Some((rest, suff)) => {
                    if SliceRef(suff).eq(suffix) {
                        Some(rest)
                    } else {
                        None
                    }
                },
                None => {
                    proof {
                        if is_suffix(suffix.0.spec_bytes(), self.0.spec_bytes()) {
                            lemma_suffix_boundary(self.0, suffix.0);
                        }
                    }
                    None
                },
            }
        } else {
            None
        }
    }

    /// True when the text starts with `prefix`.
    pub fn starts_with(self, prefix: SliceRef<str>) -> (r: bool)
        ensures
            r == is_prefix(prefix.0.spec_bytes(), self.0.spec_bytes()),
    {
        self.strip_prefix(prefix).is_some()
    }

    /// True when the text ends with `suffix`.
    pub fn ends_with(self, suffix: SliceRef<str>) -> (r: bool)
        ensures
            r == is_suffix(suffix.0.spec_bytes(), self.0.spec_bytes()),
    {
        self.strip_suffix(suffix).is_some()
    }
}

} // verus!
