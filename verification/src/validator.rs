//! The validation routine: a pure predicate on a candidate byte string.

use vstd::prelude::*;
use vstd::slice::slice_subrange;
use crate::accepted::accepted_flag;
use crate::accepted::lemma_accepted_flag_is_unique;
use crate::checksum::fletcher16;
use crate::checksum::fletcher_sum;

verus! {

/// The only length a candidate may have.
pub const FLAG_LEN: usize = 30;

/// Length of one checksummed block.
pub const CHUNK_LEN: usize = 6;

/// Number of checksummed blocks.
pub const CHUNK_COUNT: usize = 5;

/// The value that block `k` must sum to.
pub open spec fn expected_sum(k: int) -> int {
    if k == 0 {
        4206
    } else if k == 1 {
        39207
    } else if k == 2 {
        27243
    } else if k == 3 {
        37899
    } else {
        44301
    }
}

/// Block `k` of a candidate.
pub open spec fn chunk(flag: Seq<u8>, k: int) -> Seq<u8> {
    flag.subrange(6 * k, 6 * k + 6)
}

/// Length and the positions that must hold the same byte.
pub open spec fn basic_shape(flag: Seq<u8>) -> bool {
    &&& flag.len() == 30
    &&& flag[12] == flag[17] && flag[17] == flag[24]
    &&& flag[20] == flag[19]
    &&& flag[8] == flag[10] && flag[10] == flag[14] && flag[14] == flag[15]
    &&& flag[5] == flag[28]
    &&& flag[7] == flag[11] && flag[11] == flag[25]
}

/// The arithmetic and bitwise relations between positions. Byte arithmetic
/// wraps, which the reductions modulo 256 express. The first divisor cannot
/// be zero where its line counts, since it covers the bits of `s`; the
/// second is asked to be nonzero.
pub open spec fn relations(flag: Seq<u8>) -> bool {
    &&& (flag[29] - flag[4]) % 256 == 2
    &&& flag[0] == 'F' as u8 && flag[1] == 'L' as u8 && flag[2] == 'A' as u8 && flag[3] == 'G' as u8
    &&& flag[24] <= '`' as u8
    &&& (flag[14] + flag[19] - 59) % 256 == 150
    &&& (flag[19] - flag[14]) % 256 == 7
    &&& flag[6] == flag[16] && flag[16] == flag[18] && flag[18] == 's' as u8
    &&& flag[18] & !flag[23] == 0
    &&& ((2 * flag[9]) % 256) % (flag[23] as int) == 6
    &&& ((flag[26] + flag[9]) % 256) % 101 == 33
    &&& 3 * flag[22] + 2 * flag[21] + flag[13] == 640
    &&& flag[27] % 35 == 6
    &&& flag[7] != 0 && ((2 * flag[27]) % 256) % (flag[7] as int) == flag[19]
}

/// Every block sums to its expected value.
pub open spec fn chunks_match(flag: Seq<u8>) -> bool {
    forall|k: int| 0 <= k < 5 ==> fletcher_sum(#[trigger] chunk(flag, k)) == expected_sum(k)
}

/// The candidates that the routine accepts.
pub open spec fn valid_flag(flag: Seq<u8>) -> bool {
    basic_shape(flag) && relations(flag) && chunks_match(flag)
}

/// Checks the length and the repeated positions.
pub fn basic_checks(flag: &[u8]) -> (ok: bool)
    ensures
        ok == basic_shape(flag@),
{
    if flag.len() != FLAG_LEN {
        return false;
    }
    if flag[12] != flag[17] || flag[17] != flag[24] {
        return false;
    }
    if flag[20] != flag[19] {
        return false;
    }
    if flag[8] != flag[10] || flag[10] != flag[14] || flag[14] != flag[15] {
        return false;
    }
    if flag[5] != flag[28] {
        return false;
    }
    if flag[7] != flag[11] || flag[11] != flag[25] {
        return false;
    }
    true
}

/// The full routine: the basic checks, then the relations between positions,
/// then the block sums. It stops at the first constraint that fails.
#[verifier::rlimit(60)]
pub fn check_flag(flag: &[u8]) -> (ok: bool)
    ensures
        ok == valid_flag(flag@),
        flag@.len() != 30 ==> !ok,
{
    if !basic_checks(flag) {
        return false;
    }
    if flag[29].wrapping_sub(flag[4]) != 2 {
        return false;
    }
    let offsets: [u8; 4] = [7, 13, 2, 8];
    let mut idx: usize = 0;
    while idx < 4
        invariant
            idx <= 4,
            flag@.len() == 30,
            offsets@ =~= seq![7u8, 13u8, 2u8, 8u8],
            forall|j: int| 0 <= j < idx ==> flag@[j] == 63 + #[trigger] offsets@[j],
        decreases 4 - idx,
    {
        if flag[idx] != 63 + offsets[idx] {
            return false;
        }
        idx += 1;
    }
    assert(flag@[0] == 63 + offsets@[0] && flag@[1] == 63 + offsets@[1] && flag@[2] == 63
        + offsets@[2] && flag@[3] == 63 + offsets@[3]);
    if flag[24] > 96 {
        return false;
    }
    if flag[14].wrapping_add(flag[19]).wrapping_sub(59) != 150 || flag[19].wrapping_sub(flag[14])
        != 7 {
        return false;
    }
    let a: u8 = flag[6];
    let b: u8 = flag[16];
    let c: u8 = flag[18];
    let d: u8 = flag[23];
    assert((a ^ b != 0 || c & !d != 0 || b ^ !c != 255) <==> !(a == b && b == c && c & !d == 0))
        by (bit_vector);
    if a ^ b != 0 || c & !d != 0 || b ^ !c != 255 || c.wrapping_sub(4) != 111 {
        return false;
    }
    assert(d != 0) by (bit_vector)
        requires
            c & !d == 0,
            c == 115,
    ;
    if 2u8.wrapping_mul(flag[9]) % d != 6 {
        return false;
    }
    if flag[26].wrapping_add(flag[9]) % 101 != 33 {
        return false;
    }
    if 3 * (flag[22] as u32) + 2 * (flag[21] as u32) + flag[13] as u32 != 640 {
        return false;
    }
    if flag[27] % 35 != 6 {
        return false;
    }
    match 2u8.wrapping_mul(flag[27]).checked_rem(flag[7]) {
        Some(r) => {
            if r != flag[19] {
                return false;
            }
        },
        None => {
            return false;
        },
    }
    assert(relations(flag@));
    let sums: [u32; 5] = [4206, 39207, 27243, 37899, 44301];
    let mut k: usize = 0;
    while k < CHUNK_COUNT
        invariant
            k <= 5,
            flag@.len() == 30,
            sums@ =~= seq![4206u32, 39207u32, 27243u32, 37899u32, 44301u32],
            forall|j: int| 0 <= j < k ==> fletcher_sum(#[trigger] chunk(flag@, j)) == expected_sum(j),
        decreases 5 - k,
    {
        let block = slice_subrange(flag, k * CHUNK_LEN, k * CHUNK_LEN + CHUNK_LEN);
        assert(block@ == chunk(flag@, k as int));
        if sums[k] != fletcher16(block) {
            return false;
        }
        k += 1;
    }
    true
}

/// Entry point of the routine: tells whether `flag` is the accepted candidate.
pub fn upside_down_ep(flag: &[u8]) -> (ok: bool)
    ensures
        ok == valid_flag(flag@),
        ok == (flag@ == accepted_flag()),
        flag@.len() != 30 ==> !ok,
{
    proof {
        lemma_accepted_flag_is_unique(flag@);
    }
    check_flag(flag)
}

} // verus!
