use core::cmp::Ordering;

use slice_it::{slice, slice_inclusive, str_slice, str_slice_inclusive, Slice, SliceError, SliceIndex, SliceRef};

#[test]
fn slice_const_prefix_of_text() {
    assert_eq!(Slice("const slice", SliceIndex::Range { start: 0, end: 5 }).get(), Some("const"));
    assert_eq!(Slice("const slice", SliceIndex::RangeTo { end: 5 }).index(), "const");
}

#[test]
fn slice_inclusive_bytes() {
    let bytes: [u8; 5] = [0, 1, 2, 3, 4];
    let three: &[u8] = &[1, 2, 3];
    let four: &[u8] = &[1, 2, 3, 4];
    assert_eq!(Slice(&bytes, SliceIndex::RangeInclusive { start: 1, end: 3 }).get(), Some(three));
    assert_eq!(Slice(&bytes, SliceIndex::RangeInclusive { start: 1, end: 4 }).get(), Some(four));
    assert_eq!(slice_inclusive(&bytes[..], 1, 4), Ok(four));
}

#[test]
fn split_text_scenarios() {
    assert_eq!(Slice("abcde", 3).try_split(), Some(("abc", "de")));
    assert_eq!(Slice("✨💖", 2).try_split(), None);
    assert_eq!(str_slice("✨💖", 0, 2), Err(SliceError::SplitsCodepoint));
    assert_eq!(Slice("abcde", 5).try_split(), Some(("abcde", "")));
    assert_eq!(Slice("abcde", 0).split(), ("", "abcde"));
    assert_eq!(Slice("abcde", 6).try_split(), None);
}

#[test]
fn cmp_scenarios() {
    assert_eq!(SliceRef("hi").cmp(SliceRef("ho")), Ordering::Less);
    assert_eq!(SliceRef("hi").cmp(SliceRef("h")), Ordering::Greater);
    assert_eq!(SliceRef("").cmp(SliceRef("")), Ordering::Equal);
    assert_eq!(SliceRef("").cmp(SliceRef("a")), Ordering::Less);
    assert_eq!(SliceRef("hi").partial_cmp(SliceRef("ho")), Some(Ordering::Less));
}

#[test]
fn strip_prefix_scenarios() {
    assert_eq!(SliceRef("abcde").strip_prefix(SliceRef("abc")), Some("de"));
    assert_eq!(SliceRef("abcde").strip_prefix(SliceRef("ace")), None);
    assert_eq!(SliceRef("ab").strip_prefix(SliceRef("abc")), None);
    assert_eq!(SliceRef("abc").strip_prefix(SliceRef("")), Some("abc"));
    assert_eq!(SliceRef("✨💖").strip_prefix(SliceRef("✨")), Some("💖"));
    assert_eq!(SliceRef("✨💖").strip_suffix(SliceRef("💖")), Some("✨"));
    assert_eq!(SliceRef("✨💖").strip_suffix(SliceRef("✨")), None);
}

#[test]
fn half_open_slice_in_bounds() {
    let s: &[u32] = &[10, 20, 30, 40, 50];
    let mid: &[u32] = &[20, 30, 40];
    let empty: &[u32] = &[];
    assert_eq!(slice(s, 1, 4), Ok(mid));
    assert_eq!(slice(s, 5, 5), Ok(empty));
    assert_eq!(slice(s, 0, 5), Ok(s));
    assert_eq!(Slice(s, SliceIndex::RangeFrom { start: 5 }).get(), Some(empty));
    assert_eq!(Slice(s, SliceIndex::RangeFull).index(), s);
}

#[test]
fn refused_ranges() {
    let s: &[u32] = &[10, 20, 30, 40, 50];
    assert_eq!(slice(s, 3, 2), Err(SliceError::StartAfterEnd));
    assert_eq!(slice(s, 7, 6), Err(SliceError::StartAfterEnd));
    assert_eq!(slice(s, 0, 6), Err(SliceError::OutOfRange));
    assert_eq!(slice(s, 6, 6), Err(SliceError::OutOfRange));
    assert_eq!(slice_inclusive(s, 3, 2), Err(SliceError::StartAfterEnd));
    assert_eq!(slice_inclusive(s, 0, 5), Err(SliceError::OutOfRange));
    assert_eq!(slice_inclusive(s, 5, 5), Err(SliceError::OutOfRange));
    assert_eq!(Slice(s, SliceIndex::RangeFrom { start: 6 }).get(), None);
    assert_eq!(Slice(s, SliceIndex::RangeToInclusive { end: 5 }).get(), None);
    assert_eq!(str_slice("abc", 2, 1), Err(SliceError::StartAfterEnd));
    assert_eq!(str_slice("abc", 0, 4), Err(SliceError::OutOfRange));
    assert_eq!(str_slice_inclusive("abc", 0, 3), Err(SliceError::OutOfRange));
    assert_eq!(str_slice_inclusive("✨", 2, 1), Err(SliceError::StartAfterEnd));
}

#[test]
fn text_ranges_cutting_codepoints() {
    let t = "✨💖";
    assert_eq!(str_slice(t, 1, 3), Err(SliceError::SplitsCodepoint));
    assert_eq!(str_slice(t, 0, 4), Err(SliceError::SplitsCodepoint));
    assert_eq!(str_slice(t, 3, 5), Err(SliceError::SplitsCodepoint));
    assert_eq!(str_slice(t, 3, 7), Ok("💖"));
    assert_eq!(str_slice_inclusive(t, 0, 3), Err(SliceError::SplitsCodepoint));
    assert_eq!(str_slice_inclusive(t, 0, 2), Ok("✨"));
    assert_eq!(str_slice_inclusive(t, 3, 6), Ok("💖"));
    assert_eq!(Slice(t, SliceIndex::RangeFull).get(), Some(t));
    assert_eq!(Slice("", SliceIndex::RangeFull).get(), Some(""));
}

#[test]
fn split_rejoins() {
    let s: &[i16] = &[5, -3, 8, 0];
    for i in 0..=4 {
        let (left, right) = Slice(s, i).split();
        let mut joined = left.to_vec();
        joined.extend_from_slice(right);
        assert_eq!(joined, s.to_vec());
    }
    let t = "a✨b";
    for i in [0usize, 1, 4, 5] {
        let (left, right) = Slice(t, i).try_split().unwrap();
        assert_eq!(format!("{}{}", left, right), t);
    }
    assert_eq!(Slice(t, 2).try_split(), None);
    assert_eq!(Slice(s, 5).try_split(), None);
}

#[test]
fn comparison_is_lexicographic() {
    let a: &[i32] = &[-1, 2];
    let b: &[i32] = &[-1, 3];
    assert_eq!(SliceRef(a).cmp(SliceRef(b)), Ordering::Less);
    assert_eq!(SliceRef(b).cmp(SliceRef(a)), Ordering::Greater);
    let long: &[i32] = &[1, 5];
    let short: &[i32] = &[2];
    assert_eq!(SliceRef(short).cmp(SliceRef(long)), Ordering::Greater);
    assert_eq!(SliceRef(long).cmp(SliceRef(short)), Ordering::Less);
    assert_eq!(SliceRef(a).cmp(SliceRef(a)), Ordering::Equal);
    assert_eq!(SliceRef(a).eq(SliceRef(b)), false);
    assert_eq!(SliceRef(a).eq(SliceRef(a)), true);
    let c: &[char] = &['a', 'z'];
    let d: &[char] = &['b'];
    assert_eq!(SliceRef(c).cmp(SliceRef(d)), Ordering::Less);
    let e: &[bool] = &[true, false];
    let f: &[bool] = &[true, true];
    assert_eq!(SliceRef(e).cmp(SliceRef(f)), Ordering::Less);
    let g: &[u128] = &[u128::MAX];
    let h: &[u128] = &[0, 0];
    assert_eq!(SliceRef(g).cmp(SliceRef(h)), Ordering::Greater);
    let i: &[i8] = &[i8::MIN];
    let j: &[i8] = &[i8::MAX];
    assert_eq!(SliceRef(i).partial_cmp(SliceRef(j)), Some(Ordering::Less));
}

#[test]
fn array_comparison() {
    let a: [u8; 3] = [1, 2, 3];
    let b: [u8; 2] = [1, 3];
    assert_eq!(SliceRef(&a).cmp(SliceRef(&b)), Ordering::Less);
    assert_eq!(SliceRef(&b).partial_cmp(SliceRef(&a)), Some(Ordering::Greater));
    assert_eq!(SliceRef(&a).len(), 3);
    assert_eq!(SliceRef(&a).is_empty(), false);
    let empty: [u8; 0] = [];
    assert_eq!(SliceRef(&empty).is_empty(), true);
}

#[test]
fn strip_round_trip_on_elements() {
    let v: &[u64] = &[1, 2, 3, 4];
    let p: &[u64] = &[1, 2];
    let rest: &[u64] = &[3, 4];
    let stripped = SliceRef(v).strip_prefix(SliceRef(p)).unwrap();
    assert_eq!(stripped, rest);
    let mut joined = p.to_vec();
    joined.extend_from_slice(stripped);
    assert_eq!(joined, v.to_vec());
    let x: &[u64] = &[3, 4];
    let front: &[u64] = &[1, 2];
    assert_eq!(SliceRef(v).strip_suffix(SliceRef(x)), Some(front));
    assert_eq!(SliceRef(v).starts_with(SliceRef(x)), false);
    assert_eq!(SliceRef(v).ends_with(SliceRef(x)), true);
    assert_eq!(SliceRef(v).strip_prefix(SliceRef(v)), Some(&v[4..]));
    let longer: &[u64] = &[1, 2, 3, 4, 5];
    assert_eq!(SliceRef(v).strip_suffix(SliceRef(longer)), None);
}

#[test]
fn single_index_lookup() {
    let s: &[u16] = &[7, 8, 9];
    assert_eq!(Slice(s, 1).get(), Some(&8));
    assert_eq!(*Slice(s, 2).index(), 9);
    assert_eq!(Slice(s, 3).get(), None);
    let a: [u16; 3] = [7, 8, 9];
    assert_eq!(Slice(&a, 0).get(), Some(&7));
    assert_eq!(Slice(&a, 3).get(), None);
    assert_eq!(Slice(&a, 2).try_split(), Some((&a[..2], &a[2..])));
    assert_eq!(Slice(&a, 4).try_split(), None);
}

#[test]
fn lengths_and_emptiness() {
    assert_eq!(SliceRef("✨").len(), 3);
    assert_eq!(SliceRef("").is_empty(), true);
    assert_eq!(SliceRef("a").is_empty(), false);
    let s: &[usize] = &[1, 2];
    assert_eq!(SliceRef(s).len(), 2);
    assert_eq!(SliceRef(s).is_empty(), false);
}

#[test]
fn error_messages() {
    assert_eq!(SliceError::StartAfterEnd.message(), "slice index start is higher than end");
    assert_eq!(SliceError::OutOfRange.message(), "slice index out of range");
    assert_eq!(SliceError::SplitsCodepoint.message(), "slice splits utf-8 codepoint");
}

#[test]
fn checked_split_reports_failures() {
    assert_eq!(Slice("✨💖", 2).checked_split(), Err(SliceError::SplitsCodepoint));
    assert_eq!(Slice("✨💖", 8).checked_split(), Err(SliceError::OutOfRange));
    assert_eq!(Slice("✨💖", 7).checked_split(), Ok(("✨💖", "")));
    let s: &[u8] = &[1, 2, 3];
    assert_eq!(Slice(s, 4).checked_split(), Err(SliceError::OutOfRange));
    assert_eq!(Slice(s, 1).checked_split(), Ok((&s[..1], &s[1..])));
    let a: [u8; 3] = [1, 2, 3];
    assert_eq!(Slice(&a, 4).checked_split(), Err(SliceError::OutOfRange));
    assert_eq!(Slice(&a, 3).split(), (&a[..], &a[3..]));
}

#[test]
fn eval_reports_failures() {
    let s: &[u8] = &[1, 2, 3];
    assert_eq!(Slice(s, 2).eval(), Ok(&3));
    assert_eq!(Slice(s, 3).eval(), Err(SliceError::OutOfRange));
    assert_eq!(Slice(s, SliceIndex::RangeTo { end: 4 }).eval(), Err(SliceError::OutOfRange));
    let a: [u8; 3] = [1, 2, 3];
    assert_eq!(Slice(&a, 5).eval(), Err(SliceError::OutOfRange));
    assert_eq!(Slice(&a, SliceIndex::Range { start: 2, end: 1 }).eval(), Err(SliceError::StartAfterEnd));
    assert_eq!(Slice("✨", SliceIndex::RangeFrom { start: 1 }).eval(), Err(SliceError::SplitsCodepoint));
    assert_eq!(Slice("✨", SliceIndex::RangeToInclusive { end: 2 }).eval(), Ok("✨"));
    assert_eq!(Slice("✨", SliceIndex::RangeToInclusive { end: 3 }).eval(), Err(SliceError::OutOfRange));
}
