//! A compact selection language for slicing tabular text.
//!
//! An input is a list of lines, each line a list of whitespace-delimited
//! fields, each field a sequence of characters.  A short expression such as
//! `l0f1:l2f3:l1` selects a subset of lines, of fields within each kept line,
//! and of characters within each kept field, with support for negative
//! (from-the-end) indices, reverse-direction stepping, and single-index
//! "pin" selection.
//!
//! The crate is organised in three layers:
//! - [`slice_range`]: canonical per-axis ranges, their normalization against
//!   a concrete sequence length, and the index membership test;
//! - [`grid_slice_parser`]: the recursive-descent parser that turns an
//!   expression string into a [`grid_slice_parser::GridSliceFilter`];
//! - [`grid_slice`]: the executor that applies a filter to concrete input
//!   lines.

pub mod grid_slice;
pub mod grid_slice_parser;
pub mod slice_range;
pub mod text;
