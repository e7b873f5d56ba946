//! The mathematical model of a bit sequence and of its runs.
//!
//! A sequence is a `Seq<u8>`; an entry equal to 1 is a one, any other entry
//! is a zero. A run is a maximal contiguous block of entries of one polarity.
//! The spec functions here describe, for a prefix of a sequence, the number
//! of ones, the run in progress at the end of the prefix, the longest run
//! seen so far, and the number of completed runs of each length — the
//! quantities the four statistical tests are stated over.

use vstd::prelude::*;

verus! {

/// Whether the byte `b` has the polarity `one`: a byte equal to 1 is a one,
/// any other byte is a zero.
pub open spec fn bit_is(b: u8, one: bool) -> bool {
    (b == 1) == one
}

/// The number of ones among the entries of `s`.
pub open spec fn count_ones(s: Seq<u8>) -> int
    decreases s.len(),
{
    if s.len() == 0 {
        0
    } else {
        count_ones(s.drop_last()) + if s.last() == 1u8 {
            1int
        } else {
            0int
        }
    }
}

/// The length of the run of polarity `one` in progress at the end of the
/// prefix `s[..i]`: the number of trailing entries of that prefix that all
/// have polarity `one`.
pub open spec fn run_ending(s: Seq<u8>, one: bool, i: int) -> int
    decreases i,
{
    if i <= 0 {
        0
    } else if bit_is(s[i - 1], one) {
        run_ending(s, one, i - 1) + 1
    } else {
        0
    }
}

/// The length of the longest run of polarity `one` within the prefix
/// `s[..i]`.
pub open spec fn max_run(s: Seq<u8>, one: bool, i: int) -> int
    decreases i,
{
    if i <= 0 {
        0
    } else {
        let r = run_ending(s, one, i);
        let m = max_run(s, one, i - 1);
        if r > m {
            r
        } else {
            m
        }
    }
}

/// The number of runs of polarity `one` and length exactly `l` that are
/// completed within the prefix `s[..i]`. A run is completed when an entry of
/// the opposite polarity follows it; the run still open at the end of the
/// prefix is not counted.
pub open spec fn completed_runs(s: Seq<u8>, one: bool, l: int, i: int) -> int
    decreases i,
{
    if i <= 0 {
        0
    } else {
        completed_runs(s, one, l, i - 1) + if bit_is(s[i - 1], !one) && run_ending(s, one, i - 1)
            == l {
            1int
        } else {
            0int
        }
    }
}

/// `count_ones` of a prefix never exceeds the prefix's length, and is never
/// negative.
pub proof fn lemma_count_ones_bounds(s: Seq<u8>)
    ensures
        0 <= count_ones(s) <= s.len(),
    decreases s.len(),
{
    if s.len() > 0 {
        lemma_count_ones_bounds(s.drop_last());
    }
}

/// The run in progress at the end of `s[..i]` fits inside the prefix.
pub proof fn lemma_run_ending_bounds(s: Seq<u8>, one: bool, i: int)
    ensures
        0 <= run_ending(s, one, i) <= if i >= 0 {
            i
        } else {
            0
        },
    decreases i,
{
    if i > 0 {
        lemma_run_ending_bounds(s, one, i - 1);
    }
}

/// The longest run within `s[..i]` fits inside the prefix, and every run in
/// progress along the way is no longer than it.
pub proof fn lemma_max_run_bounds(s: Seq<u8>, one: bool, i: int)
    ensures
        0 <= max_run(s, one, i) <= if i >= 0 {
            i
        } else {
            0
        },
        forall|j: int| 0 <= j <= i ==> run_ending(s, one, j) <= max_run(s, one, i),
    decreases i,
{
    lemma_run_ending_bounds(s, one, i);
    if i > 0 {
        lemma_max_run_bounds(s, one, i - 1);
    }
}

/// No more runs of a given length can be completed than bits have been read.
pub proof fn lemma_completed_runs_bounds(s: Seq<u8>, one: bool, l: int, i: int)
    ensures
        0 <= completed_runs(s, one, l, i) <= if i >= 0 {
            i
        } else {
            0
        },
    decreases i,
{
    if i > 0 {
        lemma_completed_runs_bounds(s, one, l, i - 1);
    }
}

} // verus!
