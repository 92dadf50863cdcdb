//! Overflow-checked summation of `u32` sequences.
//!
//! The sum of a sequence is reported only when it fits in 32 bits; a sum
//! that does not fit is reported as absent instead of wrapping or panicking.

pub mod fold;
pub mod model;
pub mod report;
pub mod sum;
