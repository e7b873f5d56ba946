//! The poker test: the sequence is cut into non-overlapping 4-bit groups,
//! read most significant bit first; the frequencies of the 16 possible group
//! values feed a chi-square-like statistic that must fall inside a fixed
//! band.
//!
//! The statistic is `x3 = (16 / k) * sum of squared frequencies - k`, where
//! `k` is the number of whole groups, and the band is `1.03 < x3 < 57.4`.
//! Everything here is computed in exact integer arithmetic: with `ss` the
//! sum of squared frequencies, `x3 > 1.03` is `1600 * ss > 100 * k * k +
//! 103 * k` and `x3 < 57.4` is `80 * ss < 5 * k * k + 287 * k`, the same
//! inequalities with the denominators cleared.

use vstd::prelude::*;
use vstd::seq_lib::commutative_foldl;
use vstd::seq_lib::lemma_fold_left_permutation;

use crate::TestError;

verus! {

/// The number of whole 4-bit groups in `s`; trailing bits beyond the last
/// whole group are dropped from consideration.
pub open spec fn poker_k(s: Seq<u8>) -> int {
    s.len() as int / 4
}

/// The value of the `i`-th 4-bit group of `s`, read with the group's first
/// bit as the most significant.
pub open spec fn group_value(s: Seq<u8>, i: int) -> int {
    (if s[4 * i] == 1u8 {
        8int
    } else {
        0int
    }) + (if s[4 * i + 1] == 1u8 {
        4int
    } else {
        0int
    }) + (if s[4 * i + 2] == 1u8 {
        2int
    } else {
        0int
    }) + (if s[4 * i + 3] == 1u8 {
        1int
    } else {
        0int
    })
}

/// How many of the first `n` groups of `s` have the value `v`.
pub open spec fn sym_count(s: Seq<u8>, v: int, n: int) -> int
    decreases n,
{
    if n <= 0 {
        0
    } else {
        sym_count(s, v, n - 1) + if group_value(s, n - 1) == v {
            1int
        } else {
            0int
        }
    }
}

/// The frequency table of `s`: for each of the 16 group values, how often it
/// occurs among the whole groups of `s`.
pub open spec fn counts_seq(s: Seq<u8>) -> Seq<int> {
    Seq::new(16, |v: int| sym_count(s, v, poker_k(s)))
}

/// The sum of the frequencies of the first `j` group values over the first
/// `n` groups.
pub open spec fn sum_counts(s: Seq<u8>, j: int, n: int) -> int
    decreases j,
{
    if j <= 0 {
        0
    } else {
        sum_counts(s, j - 1, n) + sym_count(s, j - 1, n)
    }
}

/// The sum of the squared frequencies of the first `j` group values over the
/// first `n` groups.
pub open spec fn sum_squares(s: Seq<u8>, j: int, n: int) -> int
    decreases j,
{
    if j <= 0 {
        0
    } else {
        sum_squares(s, j - 1, n) + sym_count(s, j - 1, n) * sym_count(s, j - 1, n)
    }
}

/// Whether the sequence `s` passes the poker test: with `k` its number of
/// whole 4-bit groups and `ss` the sum of its squared group-value
/// frequencies, the statistic `16 * ss / k - k` lies strictly between 1.03
/// and 57.4. The two inequalities are stated with denominators cleared, so
/// they are exact over the integers.
pub open spec fn poker_passes(s: Seq<u8>) -> bool {
    let k = poker_k(s);
    let ss = sum_squares(s, 16, k);
    1600 * ss > 100 * (k * k) + 103 * k && 80 * ss < 5 * (k * k) + 287 * k
}

/// A frequency is never negative and never exceeds the number of groups.
proof fn lemma_sym_count_bounds(s: Seq<u8>, v: int, n: int)
    requires
        0 <= n,
    ensures
        0 <= sym_count(s, v, n) <= n,
    decreases n,
{
    if n > 0 {
        lemma_sym_count_bounds(s, v, n - 1);
    }
}

/// Every group value lies between 0 and 15.
proof fn lemma_group_value_range(s: Seq<u8>, i: int)
    ensures
        0 <= group_value(s, i) < 16,
{
}

/// Adding one more group to the tally raises exactly one of the frequency
/// sums over a prefix of values: the one whose range covers the new group's
/// value.
proof fn lemma_sum_counts_step(s: Seq<u8>, j: int, n: int)
    requires
        1 <= n,
        0 <= j,
    ensures
        sum_counts(s, j, n) == sum_counts(s, j, n - 1) + if group_value(s, n - 1) < j {
            1int
        } else {
            0int
        },
    decreases j,
{
    lemma_group_value_range(s, n - 1);
    if j > 0 {
        lemma_sum_counts_step(s, j - 1, n);
    }
}

/// The 16 frequencies sum to the number of groups tallied.
proof fn lemma_sum_counts_total(s: Seq<u8>, n: int)
    requires
        0 <= n,
    ensures
        sum_counts(s, 16, n) == n,
    decreases n,
{
    if n == 0 {
        lemma_sum_counts_empty(s, 16, 0);
    } else {
        lemma_sum_counts_total(s, n - 1);
        lemma_sum_counts_step(s, 16, n);
        lemma_group_value_range(s, n - 1);
    }
}

/// With no groups tallied every frequency sum is zero.
proof fn lemma_sum_counts_empty(s: Seq<u8>, j: int, n: int)
    requires
        n <= 0,
    ensures
        sum_counts(s, j, n) == 0,
    decreases j,
{
    if j > 0 {
        lemma_sum_counts_empty(s, j - 1, n);
    }
}

/// Frequency sums over a longer prefix of values are no smaller.
proof fn lemma_sum_counts_mono(s: Seq<u8>, j1: int, j2: int, n: int)
    requires
        0 <= n,
        0 <= j1 <= j2,
    ensures
        sum_counts(s, j1, n) <= sum_counts(s, j2, n),
    decreases j2 - j1,
{
    if j1 < j2 {
        lemma_sum_counts_mono(s, j1, j2 - 1, n);
        lemma_sym_count_bounds(s, j2 - 1, n);
    }
}

/// A frequency sum over a prefix of values is never negative.
proof fn lemma_sum_counts_nonneg(s: Seq<u8>, j: int, n: int)
    requires
        0 <= n,
        0 <= j,
    ensures
        0 <= sum_counts(s, j, n),
    decreases j,
{
    if j > 0 {
        lemma_sum_counts_nonneg(s, j - 1, n);
        lemma_sym_count_bounds(s, j - 1, n);
    }
}

/// A sum of squares of non-negative terms is at most the square of the sum
/// of the terms.
proof fn lemma_sum_squares_le_sq_of_sum(s: Seq<u8>, j: int, n: int)
    requires
        0 <= n,
        0 <= j,
    ensures
        sum_squares(s, j, n) <= sum_counts(s, j, n) * sum_counts(s, j, n),
    decreases j,
{
    if j > 0 {
        lemma_sum_squares_le_sq_of_sum(s, j - 1, n);
        lemma_sym_count_bounds(s, j - 1, n);
        lemma_sum_counts_nonneg(s, j - 1, n);
        let t = sum_counts(s, j - 1, n);
        let c = sym_count(s, j - 1, n);
        assert(sum_squares(s, j - 1, n) + c * c <= (t + c) * (t + c)) by (nonlinear_arith)
            requires
                sum_squares(s, j - 1, n) <= t * t,
                0 <= t,
                0 <= c,
        ;
    }
}

/// The sum of the squared frequencies of any prefix of the 16 group values
/// is at most the square of the number of groups.
proof fn lemma_sum_squares_bound(s: Seq<u8>, j: int, n: int)
    requires
        0 <= n,
        0 <= j <= 16,
    ensures
        0 <= sum_squares(s, j, n) <= n * n,
    decreases j,
{
    lemma_sum_squares_le_sq_of_sum(s, j, n);
    lemma_sum_counts_mono(s, j, 16, n);
    lemma_sum_counts_nonneg(s, j, n);
    lemma_sum_counts_total(s, n);
    let t = sum_counts(s, j, n);
    assert(t * t <= n * n) by (nonlinear_arith)
        requires
            0 <= t <= n,
    ;
    if j > 0 {
        lemma_sum_squares_bound(s, j - 1, n);
        let c = sym_count(s, j - 1, n);
        lemma_sym_count_bounds(s, j - 1, n);
        assert(0 <= c * c) by (nonlinear_arith)
            requires
                0 <= c,
        ;
    }
}

/// Runs the poker test on `sequence`. A sequence of fewer than four bits has
/// no whole group, so the statistic is undefined: that is a caller error and
/// is rejected. Otherwise the verdict is whether the statistic falls
/// strictly inside the acceptance band; trailing bits beyond the last whole
/// 4-bit group are dropped.
pub fn poker(sequence: &[u8]) -> (result: Result<bool, TestError>)
    ensures
        sequence@.len() < 4 ==> result == Result::<bool, TestError>::Err(TestError::TooShort),
        sequence@.len() >= 4 ==> result == Result::<bool, TestError>::Ok(poker_passes(sequence@)),
{
    let n = sequence.len();
    let k = n / 4;
    if k == 0 {
        return Err(TestError::TooShort);
    }
    let mut freq: Vec<usize> = vec![0, 0, 0, 0, 0, 0, 0, 0, 0, 0, 0, 0, 0, 0, 0, 0];
    let mut i: usize = 0;
    while i < k
        invariant
            n == sequence@.len(),
            k == n / 4,
            0 <= i <= k,
            freq@.len() == 16,
            forall|v: int| 0 <= v < 16 ==> freq@[v] == sym_count(sequence@, v, i as int),
        decreases k - i,
    {
        let b0 = sequence[4 * i];
        let b1 = sequence[4 * i + 1];
        let b2 = sequence[4 * i + 2];
        let b3 = sequence[4 * i + 3];
        let value: usize = (if b0 == 1 {
            8
        } else {
            0
        }) + (if b1 == 1 {
            4
        } else {
            0
        }) + (if b2 == 1 {
            2
        } else {
            0
        }) + (if b3 == 1 {
            1
        } else {
            0
        });
        proof {
            assert(value == group_value(sequence@, i as int));
            assert(freq@[value as int] == sym_count(sequence@, value as int, i as int));
            lemma_sym_count_bounds(sequence@, value as int, i as int);
        }
        let c = freq[value];
        freq.set(value, c + 1);
        proof {
            assert forall|v: int| 0 <= v < 16 implies freq@[v] == #[trigger] sym_count(
                sequence@,
                v,
                i + 1,
            ) by {
                assert(sym_count(sequence@, v, i + 1) == sym_count(sequence@, v, i as int) + (
                if group_value(sequence@, i as int) == v {
                    1int
                } else {
                    0int
                }));
            }
        }
        i = i + 1;
    }
    let mut ssum: u128 = 0;
    let mut v: usize = 0;
    proof {
        assert(k as int <= 0x3fff_ffff_ffff_ffff);
    }
    while v < 16
        invariant
            n == sequence@.len(),
            k == n / 4,
            k as int <= 0x3fff_ffff_ffff_ffff,
            freq@.len() == 16,
            forall|w: int| 0 <= w < 16 ==> freq@[w] == sym_count(sequence@, w, k as int),
            0 <= v <= 16,
            ssum == sum_squares(sequence@, v as int, k as int),
        decreases 16 - v,
    {
        proof {
            assert(freq@[v as int] == sym_count(sequence@, v as int, k as int));
            lemma_sym_count_bounds(sequence@, v as int, k as int);
            lemma_sum_squares_bound(sequence@, v + 1, k as int);
            let c = sym_count(sequence@, v as int, k as int);
            assert(c * c <= 0x3fff_ffff_ffff_ffff * 0x3fff_ffff_ffff_ffff) by (nonlinear_arith)
                requires
                    0 <= c <= 0x3fff_ffff_ffff_ffff,
            ;
            let ki = k as int;
            assert(ki * ki <= 0x3fff_ffff_ffff_ffff * 0x3fff_ffff_ffff_ffff) by (nonlinear_arith)
                requires
                    0 <= ki <= 0x3fff_ffff_ffff_ffff,
            ;
            assert(sum_squares(sequence@, v + 1, ki) == sum_squares(sequence@, v as int, ki) + c
                * c);
        }
        let c = freq[v] as u128;
        ssum = ssum + c * c;
        v = v + 1;
    }
    proof {
        lemma_sum_squares_bound(sequence@, 16, k as int);
        let ki = k as int;
        assert(ki * ki <= 0x3fff_ffff_ffff_ffff * 0x3fff_ffff_ffff_ffff) by (nonlinear_arith)
            requires
                0 <= ki <= 0x3fff_ffff_ffff_ffff,
        ;
    }
    let k128 = k as u128;
    let s16 = 16 * ssum;
    let ksq = k128 * k128;
    if s16 < ksq {
        proof {
            let ki = k as int;
            let ss = sum_squares(sequence@, 16, ki);
            assert(1600 * ss <= 100 * (ki * ki) + 103 * ki) by (nonlinear_arith)
                requires
                    16 * ss < ki * ki,
                    0 <= ki,
            ;
        }
        return Ok(false);
    }
    let d = s16 - ksq;
    let c1 = if d > u128::MAX / 100 {
        proof {
            let ki = k as int;
            let ss = sum_squares(sequence@, 16, ki);
            assert(1600 * ss > 100 * (ki * ki) + 103 * ki) by (nonlinear_arith)
                requires
                    16 * ss - ki * ki == d,
                    d > u128::MAX / 100,
                    0 <= ki < 0x4000_0000_0000_0000,
            ;
        }
        true
    } else {
        let r = 100 * d > 103 * k128;
        proof {
            let ki = k as int;
            let ss = sum_squares(sequence@, 16, ki);
            assert(r == (1600 * ss > 100 * (ki * ki) + 103 * ki)) by (nonlinear_arith)
                requires
                    16 * ss - ki * ki == d,
                    r == (100 * d > 103 * ki),
                    0 <= ki,
                    0 <= d,
            ;
        }
        r
    };
    let c2 = if d > u128::MAX / 5 {
        proof {
            let ki = k as int;
            let ss = sum_squares(sequence@, 16, ki);
            assert(!(80 * ss < 5 * (ki * ki) + 287 * ki)) by (nonlinear_arith)
                requires
                    16 * ss - ki * ki == d,
                    d > u128::MAX / 5,
                    0 <= ki < 0x4000_0000_0000_0000,
            ;
        }
        false
    } else {
        let r = 5 * d < 287 * k128;
        proof {
            let ki = k as int;
            let ss = sum_squares(sequence@, 16, ki);
            assert(r == (80 * ss < 5 * (ki * ki) + 287 * ki)) by (nonlinear_arith)
                requires
                    16 * ss - ki * ki == d,
                    r == (5 * d < 287 * ki),
                    0 <= ki,
                    0 <= d,
            ;
        }
        r
    };
    Ok(c1 && c2)
}

/// The sum of squared frequencies is a fold of the squaring step over the
/// frequency table.
proof fn lemma_sum_squares_is_fold(s: Seq<u8>, j: int, f: spec_fn(int, int) -> int)
    requires
        0 <= j <= 16,
        forall|acc: int, c: int| #[trigger] f(acc, c) == acc + c * c,
    ensures
        sum_squares(s, j, poker_k(s)) == counts_seq(s).take(j).fold_left(0, f),
    decreases j,
{
    if j > 0 {
        lemma_sum_squares_is_fold(s, j - 1, f);
        assert(counts_seq(s).take(j).drop_last() =~= counts_seq(s).take(j - 1));
        assert(counts_seq(s).take(j).last() == sym_count(s, j - 1, poker_k(s)));
    }
}

/// The poker verdict depends only on the frequency table's multiset of
/// counts, not on which group value carries which count: two sequences with
/// the same number of whole groups whose frequency tables are permutations
/// of one another receive the same verdict.
pub proof fn lemma_poker_counts_permutation(s: Seq<u8>, t: Seq<u8>)
    requires
        poker_k(s) == poker_k(t),
        counts_seq(s).to_multiset() == counts_seq(t).to_multiset(),
    ensures
        poker_passes(s) == poker_passes(t),
{
    let f = |acc: int, c: int| acc + c * c;
    lemma_sum_squares_is_fold(s, 16, f);
    lemma_sum_squares_is_fold(t, 16, f);
    assert(counts_seq(s).take(16) =~= counts_seq(s));
    assert(counts_seq(t).take(16) =~= counts_seq(t));
    assert(commutative_foldl(f)) by {
        assert(forall|x: int, y: int, v: int| #[trigger] f(f(v, x), y) == f(f(v, y), x));
    }
    lemma_fold_left_permutation(counts_seq(s), counts_seq(t), f, 0);
}

} // verus!
