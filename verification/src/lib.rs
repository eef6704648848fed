//! Terms of the Fibonacci sequence in 128 bits.
//!
//! `sequence` holds the mathematical model and the facts proved of it;
//! `compute` holds the executable functions, whose contracts are stated
//! over that model.

pub mod compute;
pub mod sequence;

pub use compute::{checked_fibonacci, rust_fibonacci, OverflowError};
