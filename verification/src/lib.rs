//! A growable contiguous buffer with explicit capacity bookkeeping.
//!
//! `GridArray<T>` keeps a contiguous run of initialized elements together
//! with a slot count (its capacity) that doubles whenever an insertion
//! finds the buffer full.  Converting the buffer into an `IntoIter<T>`
//! hands the elements over to a consuming iterator that yields them in
//! order, by value, exactly once.

pub mod drain;
pub mod grid;
pub mod laws;

pub use drain::IntoIter;
pub use grid::GridArray;
