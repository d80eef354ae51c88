//! The rolling two-accumulator checksum used on each block of the candidate.

use vstd::prelude::*;

verus! {

/// Both accumulators are kept modulo this value.
pub const MODULUS: u32 = 255;

/// The accumulator pair `(x1, x2)` after absorbing `bytes` from `(0, 0)`:
/// each byte `b` turns the pair into `((x1 + b) mod 255, (x2 + x1') mod 255)`
/// where `x1'` is the updated first accumulator.
pub open spec fn running_pair(bytes: Seq<u8>) -> (int, int)
    decreases bytes.len(),
{
    if bytes.len() == 0 {
        (0, 0)
    } else {
        let (x1, x2) = running_pair(bytes.drop_last());
        let y1 = (x1 + bytes.last()) % 255;
        (y1, (x2 + y1) % 255)
    }
}

/// The 16-bit block value: first accumulator in the high byte.
pub open spec fn fletcher_sum(bytes: Seq<u8>) -> int {
    running_pair(bytes).0 * 256 + running_pair(bytes).1
}

/// The plain sum of the bytes.
pub open spec fn byte_sum(bytes: Seq<u8>) -> int
    decreases bytes.len(),
{
    if bytes.len() == 0 {
        0
    } else {
        byte_sum(bytes.drop_last()) + bytes.last()
    }
}

/// The sum in which the byte at distance `d` from the end counts `d + 1` times.
pub open spec fn weighted_sum(bytes: Seq<u8>) -> int
    decreases bytes.len(),
{
    if bytes.len() == 0 {
        0
    } else {
        weighted_sum(bytes.drop_last()) + byte_sum(bytes)
    }
}

/// Both accumulators stay below the modulus.
pub proof fn lemma_running_pair_bounds(bytes: Seq<u8>)
    ensures
        0 <= running_pair(bytes).0 < 255,
        0 <= running_pair(bytes).1 < 255,
        0 <= fletcher_sum(bytes) < 65536,
    decreases bytes.len(),
{
    if bytes.len() > 0 {
        lemma_running_pair_bounds(bytes.drop_last());
    }
}

/// The accumulators are the plain and the weighted byte sums, reduced
/// modulo 255.
pub proof fn lemma_running_pair_closed_form(bytes: Seq<u8>)
    ensures
        running_pair(bytes).0 == byte_sum(bytes) % 255,
        running_pair(bytes).1 == weighted_sum(bytes) % 255,
    decreases bytes.len(),
{
    if bytes.len() > 0 {
        lemma_running_pair_closed_form(bytes.drop_last());
    }
}

/// Computes the block value of `bytes`.
pub fn fletcher16(bytes: &[u8]) -> (sum: u32)
    ensures
        sum == fletcher_sum(bytes@),
{
    let mut x1: u32 = 0;
    let mut x2: u32 = 0;
    let mut i: usize = 0;
    while i < bytes.len()
        invariant
            i <= bytes.len(),
            x1 < 255,
            x2 < 255,
            (x1 as int, x2 as int) == running_pair(bytes@.take(i as int)),
        decreases bytes.len() - i,
    {
        assert(bytes@.take(i + 1).drop_last() =~= bytes@.take(i as int));
        x1 = (x1 + bytes[i] as u32) % MODULUS;
        x2 = (x2 + x1) % MODULUS;
        i += 1;
    }
    assert(bytes@.take(i as int) =~= bytes@);
    x1 * 256 + x2
}

} // verus!
