//! The longest-run test: no run of either polarity may be longer than 36.

use vstd::prelude::*;

use crate::TestError;
use crate::bitmodel::count_ones;
use crate::bitmodel::lemma_max_run_bounds;
use crate::bitmodel::lemma_run_ending_bounds;
use crate::bitmodel::max_run;
use crate::bitmodel::run_ending;
use crate::monobit::mono_bit_passes;

verus! {

/// Whether the sequence `s` passes the longest-run test: the longest run of
/// ones and the longest run of zeros are both at most 36.
pub open spec fn longest_run_passes(s: Seq<u8>) -> bool {
    max_run(s, true, s.len() as int) <= 36 && max_run(s, false, s.len() as int) <= 36
}

/// Runs the longest-run test on `sequence`. An empty sequence is a caller
/// error and is rejected; otherwise the verdict is whether no run of either
/// polarity exceeds 36 bits.
pub fn max_length_series(sequence: &[u8]) -> (result: Result<bool, TestError>)
    ensures
        sequence@.len() == 0 ==> result == Result::<bool, TestError>::Err(TestError::TooShort),
        sequence@.len() > 0 ==> result == Result::<bool, TestError>::Ok(
            longest_run_passes(sequence@),
        ),
{
    if sequence.len() == 0 {
        return Err(TestError::TooShort);
    }
    let n = sequence.len();
    let mut max_zeros: usize = 0;
    let mut max_ones: usize = 0;
    let mut zeros: usize = 0;
    let mut ones: usize = 0;
    let mut i: usize = 0;
    while i < n
        invariant
            n == sequence@.len(),
            0 <= i <= n,
            ones == run_ending(sequence@, true, i as int),
            zeros == run_ending(sequence@, false, i as int),
            max_ones == max_run(sequence@, true, i as int),
            max_zeros == max_run(sequence@, false, i as int),
            ones <= i && zeros <= i && max_ones <= i && max_zeros <= i,
        decreases n - i,
    {
        if sequence[i] == 1 {
            ones = ones + 1;
            zeros = 0;
            if ones > max_ones {
                max_ones = ones;
            }
        } else {
            zeros = zeros + 1;
            ones = 0;
            if zeros > max_zeros {
                max_zeros = zeros;
            }
        }
        i = i + 1;
    }
    Ok(max_zeros <= 36 && max_ones <= 36)
}

/// In an all-zero sequence the run of zeros in progress spans every prefix.
proof fn lemma_all_zeros_run(s: Seq<u8>, i: int)
    requires
        0 <= i <= s.len(),
        forall|j: int| 0 <= j < s.len() ==> s[j] == 0u8,
    ensures
        run_ending(s, false, i) == i,
    decreases i,
{
    if i > 0 {
        lemma_all_zeros_run(s, i - 1);
    }
}

/// An all-zero sequence of 20,000 bits fails both the longest-run test (its
/// single run of zeros spans the whole sequence, far beyond 36) and the
/// monobit test (it has no ones at all).
pub proof fn lemma_all_zeros_fails(s: Seq<u8>)
    requires
        s.len() == 20000,
        forall|j: int| 0 <= j < s.len() ==> s[j] == 0u8,
    ensures
        !longest_run_passes(s),
        !mono_bit_passes(s),
{
    lemma_all_zeros_run(s, s.len() as int);
    lemma_max_run_bounds(s, false, s.len() as int);
    assert(run_ending(s, false, s.len() as int) == 20000);
    assert(max_run(s, false, s.len() as int) >= 20000);
    assert(count_ones(s) == 0) by {
        lemma_count_ones_zero(s);
    }
}

/// A sequence without a one has no ones to count.
proof fn lemma_count_ones_zero(s: Seq<u8>)
    requires
        forall|j: int| 0 <= j < s.len() ==> s[j] != 1u8,
    ensures
        count_ones(s) == 0,
    decreases s.len(),
{
    if s.len() > 0 {
        lemma_count_ones_zero(s.drop_last());
    }
}

/// If every run in progress stays within a bound, so does the longest run.
proof fn lemma_max_run_le(s: Seq<u8>, one: bool, i: int, bound: int)
    requires
        forall|j: int| 0 <= j <= i ==> run_ending(s, one, j) <= bound,
        0 <= bound,
    ensures
        max_run(s, one, i) <= bound,
    decreases i,
{
    if i > 0 {
        lemma_max_run_le(s, one, i - 1, bound);
    }
}

/// A sequence in which no run of either polarity exceeds 36 bits passes the
/// longest-run test.
pub proof fn lemma_short_runs_pass(s: Seq<u8>)
    requires
        forall|one: bool, j: int| 0 <= j <= s.len() ==> run_ending(s, one, j) <= 36,
    ensures
        longest_run_passes(s),
{
    lemma_max_run_le(s, true, s.len() as int, 36);
    lemma_max_run_le(s, false, s.len() as int, 36);
}

/// A window of 37 consecutive zeros leaves a zero-run of at least 37 in
/// progress at the window's end.
proof fn lemma_zero_window_run(s: Seq<u8>, start: int, i: int)
    requires
        0 <= start,
        start <= i <= start + 37,
        i <= s.len(),
        forall|j: int| start <= j < start + 37 && j < s.len() ==> s[j] == 0u8,
    ensures
        run_ending(s, false, i) >= i - start,
    decreases i - start,
{
    lemma_run_ending_bounds(s, false, i);
    if i > start {
        lemma_zero_window_run(s, start, i - 1);
        assert(s[i - 1] == 0u8);
        assert(run_ending(s, false, i) == run_ending(s, false, i - 1) + 1);
    }
}

/// A sequence containing a run of 37 consecutive zeros fails the
/// longest-run test.
pub proof fn lemma_long_zero_run_fails(s: Seq<u8>, start: int)
    requires
        0 <= start,
        start + 37 <= s.len(),
        forall|j: int| start <= j < start + 37 ==> s[j] == 0u8,
    ensures
        !longest_run_passes(s),
{
    lemma_zero_window_run(s, start, start + 37);
    lemma_max_run_bounds(s, false, s.len() as int);
    assert(run_ending(s, false, start + 37) >= 37);
    assert(max_run(s, false, s.len() as int) >= 37);
}

} // verus!
