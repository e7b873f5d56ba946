//! A small battery of statistical randomness tests for binary sequences:
//! monobit, longest-run, poker, and runs-length-distribution, together with
//! a source of candidate bit sequences.
//!
//! Each test takes a sequence of bits (bytes, where a byte equal to 1 counts
//! as a one and any other byte counts as a zero) and returns `Ok(true)` when
//! the sequence's statistic lies inside a fixed acceptance band calibrated
//! for sequences of 20,000 bits, and `Ok(false)` otherwise. A sequence too
//! short to test meaningfully is turned away with an explicit error rather
//! than a misleading boolean.

use vstd::prelude::*;

pub mod bitmodel;
pub mod longest_run;
pub mod monobit;
pub mod poker;
pub mod series;
pub mod source;

verus! {

/// Error returned when a sequence is too short for a test to be meaningful:
/// an empty sequence for the scanning tests, or fewer than four bits for the
/// poker test (which needs at least one whole 4-bit group).
#[derive(Clone, Copy, Debug, PartialEq, Eq, Structural)]
pub enum TestError {
    /// The sequence has too few bits for the test that was asked of it.
    TooShort,
}

} // verus!
