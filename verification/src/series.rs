//! The runs-length-distribution test: for each run length from 1 to 6, the
//! number of completed runs of zeros and of ones must fall inside a
//! length-specific acceptance interval.

use vstd::prelude::*;

use crate::TestError;
use crate::bitmodel::bit_is;
use crate::bitmodel::completed_runs;
use crate::bitmodel::lemma_completed_runs_bounds;
use crate::bitmodel::run_ending;

verus! {

/// The exclusive lower bound of the acceptance interval for runs of length
/// `l` (lengths 5 and 6 share one interval in these thresholds).
pub open spec fn interval_low(l: int) -> int {
    if l == 1 {
        2267
    } else if l == 2 {
        1079
    } else if l == 3 {
        502
    } else if l == 4 {
        223
    } else {
        90
    }
}

/// The exclusive upper bound of the acceptance interval for runs of length
/// `l`.
pub open spec fn interval_high(l: int) -> int {
    if l == 1 {
        2733
    } else if l == 2 {
        1421
    } else if l == 3 {
        748
    } else if l == 4 {
        402
    } else {
        223
    }
}

/// Whether a count of completed runs of length `l` falls strictly inside
/// that length's acceptance interval.
pub open spec fn count_in_interval(l: int, c: int) -> bool {
    interval_low(l) < c && c < interval_high(l)
}

/// Whether the sequence `s` passes the runs-length-distribution test: for
/// every run length from 1 to 6, both the number of completed runs of zeros
/// and the number of completed runs of ones of that length lie strictly
/// inside the length's acceptance interval. The run still open at the end of
/// the sequence is never counted.
pub open spec fn series_length_passes(s: Seq<u8>) -> bool {
    forall|l: int|
        1 <= l <= 6 ==> #[trigger] count_in_interval(l, completed_runs(s, false, l, s.len() as int))
            && count_in_interval(l, completed_runs(s, true, l, s.len() as int))
}

/// The acceptance interval for runs of length `l`, as executable bounds.
fn interval_bounds(l: usize) -> (b: (usize, usize))
    requires
        1 <= l <= 6,
    ensures
        b.0 == interval_low(l as int),
        b.1 == interval_high(l as int),
{
    if l == 1 {
        (2267, 2733)
    } else if l == 2 {
        (1079, 1421)
    } else if l == 3 {
        (502, 748)
    } else if l == 4 {
        (223, 402)
    } else {
        (90, 223)
    }
}

/// Whether `count` completed runs of length `l` falls strictly inside the
/// acceptance interval for that length.
pub fn run_count_in_interval(l: usize, count: usize) -> (r: bool)
    requires
        1 <= l <= 6,
    ensures
        r == count_in_interval(l as int, count as int),
{
    let b = interval_bounds(l);
    b.0 < count && count < b.1
}

/// Tallies, in one scan, the completed runs of each length from 1 to 6: the
/// first vector holds the counts for runs of zeros, the second for runs of
/// ones, indexed by run length minus one. Runs longer than 6 fall in no
/// bucket, and the run still open at the end of the sequence is not counted.
pub fn run_length_counts(sequence: &[u8]) -> (counts: (Vec<usize>, Vec<usize>))
    ensures
        counts.0@.len() == 6,
        counts.1@.len() == 6,
        forall|l: int|
            1 <= l <= 6 ==> counts.0@[l - 1] == completed_runs(
                sequence@,
                false,
                l,
                sequence@.len() as int,
            ),
        forall|l: int|
            1 <= l <= 6 ==> counts.1@[l - 1] == completed_runs(
                sequence@,
                true,
                l,
                sequence@.len() as int,
            ),
{
    let n = sequence.len();
    let mut zeros_series: Vec<usize> = vec![0, 0, 0, 0, 0, 0];
    let mut ones_series: Vec<usize> = vec![0, 0, 0, 0, 0, 0];
    let mut zeros: usize = 0;
    let mut ones: usize = 0;
    let mut i: usize = 0;
    while i < n
        invariant
            n == sequence@.len(),
            0 <= i <= n,
            zeros == run_ending(sequence@, false, i as int),
            ones == run_ending(sequence@, true, i as int),
            zeros <= i && ones <= i,
            zeros_series@.len() == 6,
            ones_series@.len() == 6,
            forall|l: int|
                1 <= l <= 6 ==> zeros_series@[l - 1] == completed_runs(sequence@, false, l, i as int),
            forall|l: int|
                1 <= l <= 6 ==> ones_series@[l - 1] == completed_runs(sequence@, true, l, i as int),
        decreases n - i,
    {
        if sequence[i] == 1 {
            ones = ones + 1;
            if zeros > 0 && zeros < 7 {
                proof {
                    lemma_completed_runs_bounds(sequence@, false, zeros as int, i as int);
                    assert(zeros_series@[zeros - 1] == completed_runs(
                        sequence@,
                        false,
                        zeros as int,
                        i as int,
                    ));
                }
                let c = zeros_series[zeros - 1];
                zeros_series.set(zeros - 1, c + 1);
            }
            zeros = 0;
        } else {
            zeros = zeros + 1;
            if ones > 0 && ones < 7 {
                proof {
                    lemma_completed_runs_bounds(sequence@, true, ones as int, i as int);
                    assert(ones_series@[ones - 1] == completed_runs(
                        sequence@,
                        true,
                        ones as int,
                        i as int,
                    ));
                }
                let c = ones_series[ones - 1];
                ones_series.set(ones - 1, c + 1);
            }
            ones = 0;
        }
        proof {
            let s = sequence@;
            assert forall|l: int| 1 <= l <= 6 implies zeros_series@[l - 1] == #[trigger] completed_runs(
                s,
                false,
                l,
                i + 1,
            ) by {
                assert(completed_runs(s, false, l, i + 1) == completed_runs(s, false, l, i as int)
                    + (if bit_is(s[i as int], true) && run_ending(s, false, i as int) == l {
                    1int
                } else {
                    0int
                }));
            }
            assert forall|l: int| 1 <= l <= 6 implies ones_series@[l - 1] == #[trigger] completed_runs(
                s,
                true,
                l,
                i + 1,
            ) by {
                assert(completed_runs(s, true, l, i + 1) == completed_runs(s, true, l, i as int)
                    + (if bit_is(s[i as int], false) && run_ending(s, true, i as int) == l {
                    1int
                } else {
                    0int
                }));
            }
        }
        i = i + 1;
    }
    (zeros_series, ones_series)
}

/// Runs the runs-length-distribution test on `sequence`. An empty sequence
/// is a caller error and is rejected; otherwise the verdict is whether all
/// twelve completed-run counts (six lengths, two polarities) fall strictly
/// inside their acceptance intervals.
pub fn series_length(sequence: &[u8]) -> (result: Result<bool, TestError>)
    ensures
        sequence@.len() == 0 ==> result == Result::<bool, TestError>::Err(TestError::TooShort),
        sequence@.len() > 0 ==> result == Result::<bool, TestError>::Ok(
            series_length_passes(sequence@),
        ),
{
    if sequence.len() == 0 {
        return Err(TestError::TooShort);
    }
    let counts = run_length_counts(sequence);
    let zeros_series = counts.0;
    let ones_series = counts.1;
    let mut all_ok = true;
    let mut l: usize = 1;
    while l <= 6
        invariant
            1 <= l <= 7,
            zeros_series@.len() == 6,
            ones_series@.len() == 6,
            forall|m: int|
                1 <= m <= 6 ==> zeros_series@[m - 1] == completed_runs(
                    sequence@,
                    false,
                    m,
                    sequence@.len() as int,
                ),
            forall|m: int|
                1 <= m <= 6 ==> ones_series@[m - 1] == completed_runs(
                    sequence@,
                    true,
                    m,
                    sequence@.len() as int,
                ),
            all_ok <==> (forall|m: int|
                1 <= m < l ==> #[trigger] count_in_interval(
                    m,
                    completed_runs(sequence@, false, m, sequence@.len() as int),
                ) && count_in_interval(
                    m,
                    completed_runs(sequence@, true, m, sequence@.len() as int),
                )),
        decreases 7 - l,
    {
        let zok = run_count_in_interval(l, zeros_series[l - 1]);
        let ook = run_count_in_interval(l, ones_series[l - 1]);
        if !zok {
            all_ok = false;
        }
        if !ook {
            all_ok = false;
        }
        proof {
            let m = l as int;
            assert(zok == count_in_interval(
                m,
                completed_runs(sequence@, false, m, sequence@.len() as int),
            ));
            assert(ook == count_in_interval(
                m,
                completed_runs(sequence@, true, m, sequence@.len() as int),
            ));
        }
        l = l + 1;
    }
    Ok(all_ok)
}

} // verus!
