//! Deterministic checks of the four tests on hand-built sequences: exact
//! boundary counts, crafted runs, permuted frequency tables, and the
//! rejection of sequences too short to test.

use randtests::TestError;
use randtests::longest_run::max_length_series;
use randtests::monobit::mono_bit;
use randtests::poker::poker;
use randtests::series::run_count_in_interval;
use randtests::series::run_length_counts;
use randtests::series::series_length;

/// A sequence of 20,000 bits with exactly `ones` ones, placed first.
fn sequence_with_ones(ones: usize) -> Vec<u8> {
    let mut v = vec![1u8; ones];
    v.resize(20000, 0u8);
    v
}

/// A sequence of `len` strictly alternating bits starting with 1.
fn alternating(len: usize) -> Vec<u8> {
    (0..len).map(|i| (1 - i % 2) as u8).collect()
}

#[test]
fn mono_bit_passes_at_exact_balance() {
    let s = sequence_with_ones(10000);
    assert_eq!(mono_bit(&s), Ok(true));
}

#[test]
fn mono_bit_fails_at_lower_boundary() {
    let s = sequence_with_ones(9654);
    assert_eq!(mono_bit(&s), Ok(false));
}

#[test]
fn mono_bit_passes_just_above_lower_boundary() {
    let s = sequence_with_ones(9655);
    assert_eq!(mono_bit(&s), Ok(true));
}

#[test]
fn all_zeros_fails_longest_run_and_mono_bit() {
    let s = vec![0u8; 20000];
    assert_eq!(max_length_series(&s), Ok(false));
    assert_eq!(mono_bit(&s), Ok(false));
}

#[test]
fn longest_run_passes_without_long_runs() {
    let s = alternating(20000);
    assert_eq!(max_length_series(&s), Ok(true));
}

/// Alternating bits with one run of `run` zeros in the middle, flanked by
/// ones on both sides so the run's length is exactly `run`.
fn with_zero_run(run: usize) -> Vec<u8> {
    let mut s = alternating(5001);
    assert_eq!(*s.last().unwrap(), 1);
    s.extend(std::iter::repeat(0u8).take(run));
    s.extend(alternating(5000));
    s
}

#[test]
fn longest_run_accepts_run_of_exactly_36() {
    let s = with_zero_run(36);
    assert_eq!(max_length_series(&s), Ok(true));
}

#[test]
fn longest_run_fails_on_run_of_37_zeros() {
    let s = with_zero_run(37);
    assert_eq!(max_length_series(&s), Ok(false));
}

#[test]
fn poker_verdict_is_invariant_under_symbol_permutation() {
    // Both sequences have the frequency-table multiset {3, 1, 0 x 14}:
    // three equal groups plus one other, carried by different symbols.
    let s = vec![0, 0, 0, 0, 0, 0, 0, 0, 0, 0, 0, 0, 0, 1, 0, 1u8];
    let t = vec![1, 0, 0, 1, 1, 0, 0, 1, 1, 0, 0, 1, 0, 0, 1, 1u8];
    assert_eq!(poker(&s), poker(&t));
    // With k = 4 and squared counts summing to 10, x3 = 16 * 10 / 4 - 4 = 36.
    assert_eq!(poker(&s), Ok(true));
}

#[test]
fn poker_exact_statistic_inside_band() {
    // Groups 0, 1, 2, 3: each count 1, so x3 = 16 * 4 / 4 - 4 = 12.
    let s = vec![0, 0, 0, 0, 0, 0, 0, 1, 0, 0, 1, 0, 0, 0, 1, 1u8];
    assert_eq!(poker(&s), Ok(true));
}

#[test]
fn poker_exact_statistic_above_band() {
    // Four equal groups: x3 = 16 * 16 / 4 - 4 = 60, above 57.4.
    let s = vec![0u8; 16];
    assert_eq!(poker(&s), Ok(false));
}

#[test]
fn poker_exact_statistic_below_band() {
    // All 16 group values once each: x3 = 16 * 16 / 16 - 16 = 0, below 1.03.
    let mut s = Vec::new();
    for g in 0..16u8 {
        s.push((g >> 3) & 1);
        s.push((g >> 2) & 1);
        s.push((g >> 1) & 1);
        s.push(g & 1);
    }
    assert_eq!(s.len(), 64);
    assert_eq!(poker(&s), Ok(false));
}

#[test]
fn poker_drops_trailing_bits() {
    // 18 bits: the last two do not make a whole group and are ignored, so
    // the verdict equals that of the first 16 bits alone.
    let s16 = vec![0, 0, 0, 0, 0, 0, 0, 1, 0, 0, 1, 0, 0, 0, 1, 1u8];
    let mut s18 = s16.clone();
    s18.push(1);
    s18.push(1);
    assert_eq!(poker(&s18), poker(&s16));
}

#[test]
fn run_length_counts_on_synthetic_runs() {
    // 625 zero-runs of length 3, each closed by a single 1. The final run
    // of ones is still open at the end and is not tallied, so there are
    // only 624 completed one-runs of length 1.
    let mut s = Vec::new();
    for _ in 0..625 {
        s.extend_from_slice(&[0, 0, 0, 1u8]);
    }
    let (zeros, ones) = run_length_counts(&s);
    assert_eq!(zeros, vec![0, 0, 625, 0, 0, 0]);
    assert_eq!(ones, vec![624, 0, 0, 0, 0, 0]);
    // 625 is the midpoint of the open interval (502, 748) for length 3.
    assert!(run_count_in_interval(3, 625));
}

#[test]
fn run_count_boundaries_are_exclusive() {
    assert!(!run_count_in_interval(3, 502));
    assert!(!run_count_in_interval(3, 748));
    assert!(run_count_in_interval(3, 503));
    assert!(run_count_in_interval(3, 747));
}

#[test]
fn series_length_fails_with_empty_buckets() {
    // A single run of ones completes no run at all: every bucket is zero
    // and below its acceptance interval.
    let s = vec![1u8; 100];
    assert_eq!(series_length(&s), Ok(false));
}

#[test]
fn trailing_open_run_is_not_tallied() {
    // The run of ones at the end is in flight when the scan stops.
    let s = vec![0, 1, 1u8];
    let (zeros, ones) = run_length_counts(&s);
    assert_eq!(zeros, vec![1, 0, 0, 0, 0, 0]);
    assert_eq!(ones, vec![0, 0, 0, 0, 0, 0]);
}

#[test]
fn poker_rejects_sequences_shorter_than_four_bits() {
    assert_eq!(poker(&[0, 1, 0u8]), Err(TestError::TooShort));
    assert_eq!(poker(&[1u8]), Err(TestError::TooShort));
    assert_eq!(poker(&[]), Err(TestError::TooShort));
}

#[test]
fn empty_sequences_are_rejected_by_every_test() {
    assert_eq!(mono_bit(&[]), Err(TestError::TooShort));
    assert_eq!(max_length_series(&[]), Err(TestError::TooShort));
    assert_eq!(series_length(&[]), Err(TestError::TooShort));
    assert_eq!(poker(&[]), Err(TestError::TooShort));
}
