//! The sequence source: candidate bit sequences drawn from the ambient
//! random number generator.

use vstd::prelude::*;

verus! {

/// Relies on rand::random_range: the result is drawn from the given range
/// using the thread-local random number generator; here the range is 0..2,
/// so the result is 0 or 1.
#[verifier::external_body]
fn random_bit() -> (b: u8)
    ensures
        b == 0 || b == 1,
{
    rand::random_range(0..2u8)
}

/// Produces a sequence of `length` bits, each drawn from {0, 1} by the
/// ambient random number generator.
pub fn generate_random_sequence(length: usize) -> (sequence: Vec<u8>)
    ensures
        sequence@.len() == length,
        forall|i: int| 0 <= i < length ==> sequence@[i] == 0 || sequence@[i] == 1,
{
    let mut out: Vec<u8> = Vec::new();
    let mut i: usize = 0;
    while i < length
        invariant
            0 <= i <= length,
            out@.len() == i,
            forall|j: int| 0 <= j < i ==> out@[j] == 0 || out@[j] == 1,
        decreases length - i,
    {
        out.push(random_bit());
        i = i + 1;
    }
    out
}

} // verus!
