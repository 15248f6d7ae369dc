//! Checked slicing, splitting and comparison of element slices and UTF-8 text.
//!
//! Every operation either returns a borrowed sub-view of its input or reports why it
//! could not: a range whose start lies after its end, a range that runs past the end,
//! or (for text) a boundary that falls inside a multi-byte codepoint.

pub mod bounds;
pub mod compare;
pub mod laws;
pub mod slice;
pub mod text;

pub use bounds::{slice, slice_inclusive, SliceError, SliceIndex};
pub use compare::{Element, SliceRef};
pub use slice::Slice;
pub use text::{str_slice, str_slice_inclusive};
