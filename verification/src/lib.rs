//! A generic doubly linked list with a consuming, double-ended iterator.
//!
//! The nodes of a list live in an arena and link to each other by handle.
//! `list` holds the list and its operations, `into_iterator` the iterator and
//! the conversions from other sequences, and `laws` what holds across
//! several operations.

mod chain;
pub mod into_iterator;
pub mod laws;
pub mod list;
