//! The monobit test: the overall balance of ones and zeros.

use vstd::prelude::*;

use crate::TestError;
use crate::bitmodel::count_ones;
use crate::bitmodel::lemma_count_ones_bounds;

verus! {

/// Whether the sequence `s` passes the monobit test: both the number of ones
/// and the number of zeros lie strictly between 9654 and 10346, a band
/// calibrated for sequences of 20,000 bits.
pub open spec fn mono_bit_passes(s: Seq<u8>) -> bool {
    let ones = count_ones(s);
    let zeros = s.len() - ones;
    ones > 9654 && ones < 10346 && zeros > 9654 && zeros < 10346
}

/// Runs the monobit test on `sequence`. An empty sequence is a caller error
/// and is rejected; otherwise the verdict is whether both the count of ones
/// and the count of zeros fall strictly inside the acceptance band.
pub fn mono_bit(sequence: &[u8]) -> (result: Result<bool, TestError>)
    ensures
        sequence@.len() == 0 ==> result == Result::<bool, TestError>::Err(TestError::TooShort),
        sequence@.len() > 0 ==> result == Result::<bool, TestError>::Ok(
            mono_bit_passes(sequence@),
        ),
{
    if sequence.len() == 0 {
        return Err(TestError::TooShort);
    }
    let n = sequence.len();
    let mut ones: usize = 0;
    let mut i: usize = 0;
    while i < n
        invariant
            n == sequence@.len(),
            0 <= i <= n,
            ones == count_ones(sequence@.take(i as int)),
            ones <= i,
        decreases n - i,
    {
        proof {
            assert(sequence@.take(i + 1).drop_last() =~= sequence@.take(i as int));
            assert(sequence@.take(i + 1).last() == sequence@[i as int]);
        }
        if sequence[i] == 1 {
            ones = ones + 1;
        }
        i = i + 1;
    }
    proof {
        assert(sequence@.take(n as int) =~= sequence@);
        lemma_count_ones_bounds(sequence@);
    }
    let zeros = n - ones;
    Ok(ones > 9654 && ones < 10346 && zeros > 9654 && zeros < 10346)
}

/// With 20,000 bits the monobit verdict is decided by the count of ones
/// alone: exactly 10,000 ones passes, exactly 9654 ones (the exclusive
/// lower bound) fails, and exactly 9655 ones passes.
pub proof fn lemma_mono_bit_boundaries(s: Seq<u8>)
    requires
        s.len() == 20000,
    ensures
        count_ones(s) == 10000 ==> mono_bit_passes(s),
        count_ones(s) == 9654 ==> !mono_bit_passes(s),
        count_ones(s) == 9655 ==> mono_bit_passes(s),
{
}

} // verus!
