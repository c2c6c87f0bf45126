//! In-place comparison sorting over any totally ordered element type.
//!
//! The main entry point is [`sort`], a recursive partition sort (first element
//! as pivot, Lomuto partition). [`selection_sort`] is a slow baseline over
//! `i32` and [`check_sorted`] tests the ordering of a vector.

pub mod baseline;
pub mod order;
pub mod quicksort;
pub mod swap;

pub use baseline::selection_sort;
pub use order::check_sorted;
pub use quicksort::sort;
