//! Elementwise combination of two slices under a binary operation, either in
//! one sequential pass or by recursive fork-join over disjoint halves.
//!
//! The operation is any `Fn(T, T) -> T`; what it may be called on and what it
//! may return are taken from its own `requires` and `ensures`.

pub mod chunking;
pub mod elementwise;
pub mod forkjoin;
pub mod laws;
