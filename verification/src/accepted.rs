//! The single accepted candidate, and the proof that there is no other.

use vstd::prelude::*;
use crate::checksum::running_pair;
use crate::checksum::byte_sum;
use crate::checksum::weighted_sum;
use crate::checksum::lemma_running_pair_closed_form;
use crate::checksum::fletcher_sum;
use crate::validator::valid_flag;
use crate::validator::basic_shape;
use crate::validator::relations;
use crate::validator::chunk;
use crate::validator::expected_sum;

verus! {

/// The text of the accepted candidate.
pub open spec fn accepted_text() -> Seq<char> {
    "FLAG{ysrever_mees_slliks_ruoy}"@
}

/// The accepted candidate, byte by byte.
pub open spec fn accepted_flag() -> Seq<u8> {
    Seq::new(30, |i: int| accepted_text()[i] as u8)
}

/// The accumulators of a six-byte block, written out.
pub proof fn lemma_block_pair(c: Seq<u8>)
    requires
        c.len() == 6,
    ensures
        running_pair(c).0 == (c[0] + c[1] + c[2] + c[3] + c[4] + c[5]) % 255,
        running_pair(c).1 == (6 * c[0] + 5 * c[1] + 4 * c[2] + 3 * c[3] + 2 * c[4] + c[5]) % 255,
{
    let c5 = c.drop_last();
    let c4 = c5.drop_last();
    let c3 = c4.drop_last();
    let c2 = c3.drop_last();
    let c1 = c2.drop_last();
    let c0 = c1.drop_last();
    assert(byte_sum(c0) == 0 && weighted_sum(c0) == 0);
    assert(byte_sum(c1) == c[0]);
    assert(byte_sum(c2) == c[0] + c[1]);
    assert(byte_sum(c3) == c[0] + c[1] + c[2]);
    assert(byte_sum(c4) == c[0] + c[1] + c[2] + c[3]);
    assert(byte_sum(c5) == c[0] + c[1] + c[2] + c[3] + c[4]);
    assert(byte_sum(c) == c[0] + c[1] + c[2] + c[3] + c[4] + c[5]);
    assert(weighted_sum(c1) == c[0]);
    assert(weighted_sum(c2) == 2 * c[0] + c[1]);
    assert(weighted_sum(c3) == 3 * c[0] + 2 * c[1] + c[2]);
    assert(weighted_sum(c4) == 4 * c[0] + 3 * c[1] + 2 * c[2] + c[3]);
    assert(weighted_sum(c5) == 5 * c[0] + 4 * c[1] + 3 * c[2] + 2 * c[3] + c[4]);
    lemma_running_pair_closed_form(c);
}

/// What a block sum says of the two accumulators.
proof fn lemma_block_sum(c: Seq<u8>, x1: int, x2: int)
    requires
        c.len() == 6,
        0 <= x1 < 255,
        0 <= x2 < 255,
        fletcher_sum(c) == x1 * 256 + x2,
    ensures
        (c[0] + c[1] + c[2] + c[3] + c[4] + c[5]) % 255 == x1,
        (6 * c[0] + 5 * c[1] + 4 * c[2] + 3 * c[3] + 2 * c[4] + c[5]) % 255 == x2,
{
    lemma_block_pair(c);
}

proof fn lemma_solve_first(a: int, b: int)
    requires
        0 <= a < 256,
        0 <= b < 256,
        (70 + 76 + 65 + 71 + a + b) % 255 == 16,
        (6 * 70 + 5 * 76 + 4 * 65 + 3 * 71 + 2 * a + b) % 255 == 110,
    ensures
        a == 123,
        b == 121,
{
}

proof fn lemma_solve_pair(e: int, l: int)
    requires
        0 <= e < 256,
        0 <= l < 256,
        (e + l - 59) % 256 == 150,
        (l - e) % 256 == 7,
    ensures
        (e == 101 && l == 108) || (e == 229 && l == 236),
{
}

proof fn lemma_solve_third(u: int, m: int, e: int)
    requires
        0 <= u <= 96,
        0 <= m < 256,
        e == 101 || e == 229,
        (u + m + e + e + 115 + u) % 255 == 106,
        (6 * u + 5 * m + 4 * e + 3 * e + 2 * 115 + u) % 255 == 107,
    ensures
        (u == 10 && m == 24 && e == 101) || (u == 52 && m == 194 && e == 229) || (u == 95 && m
            == 109 && e == 101),
{
}

proof fn lemma_solve_fourth(l: int, i: int, k: int, s: int, m: int)
    requires
        0 <= i < 256,
        0 <= k < 256,
        s == 0x73 || s == 0x77 || s == 0x7b || s == 0x7f || s == 0xf3 || s == 0xf7 || s == 0xfb
            || s == 0xff,
        (l == 108 && (m == 24 || m == 109)) || (l == 236 && m == 194),
        (115 + l + l + i + k + s) % 255 == 148,
        (6 * 115 + 5 * l + 4 * l + 3 * i + 2 * k + s) % 255 == 11,
        3 * k + 2 * i + m == 640,
    ensures
        l == 108,
        m == 109,
        i == 105,
        k == 107,
        s == 115,
{
}

proof fn lemma_solve_v(v: int)
    requires
        0 <= v < 256,
        ((2 * v) % 256) % 115 == 6,
    ensures
        v == 3 || v == 131 || v == 118 || v == 246,
{
}

proof fn lemma_solve_second(r: int, v: int)
    requires
        0 <= r < 256,
        v == 3 || v == 131 || v == 118 || v == 246,
        (115 + r + 101 + v + 101 + r) % 255 == 153,
    ensures
        (r == 44 && v == 3) || (r == 235 && v == 131) || (r == 114 && v == 118) || (r == 50 && v
            == 246),
{
}

proof fn lemma_solve_o(o: int, r: int, v: int)
    requires
        0 <= o < 256,
        o % 35 == 6,
        (r == 44 && v == 3) || (r == 235 && v == 131) || (r == 114 && v == 118) || (r == 50 && v
            == 246),
        ((2 * o) % 256) % r == 108,
    ensures
        r == 114,
        v == 118,
        o == 111,
{
    let x = (2 * o) % 256;
    if r == 44 {
        assert(x % 44 < 44);
    } else if r == 50 {
        assert(x % 50 < 50);
    } else if r == 235 {
        assert(x % 235 == 108);
    } else {
        assert(x % 114 == 108);
    }
}

proof fn lemma_solve_fifth(u: int)
    requires
        0 <= u < 256,
        (95 + 114 + u + 111 + 121 + 125) % 255 == 173,
        ((u + 118) % 256) % 101 == 33,
    ensures
        u == 117,
{
}

/// The bytes that have every bit of `s` set.
proof fn lemma_covering_bytes(d: u8)
    by (bit_vector)
    requires
        115u8 & !d == 0,
    ensures
        d == 0x73 || d == 0x77 || d == 0x7b || d == 0x7f || d == 0xf3 || d == 0xf7 || d == 0xfb
            || d == 0xff,
{
}

proof fn lemma_accepted_bytes()
    ensures
        accepted_flag() =~= seq![
            70u8, 76u8, 65u8, 71u8, 123u8, 121u8,
            115u8, 114u8, 101u8, 118u8, 101u8, 114u8,
            95u8, 109u8, 101u8, 101u8, 115u8, 95u8,
            115u8, 108u8, 108u8, 105u8, 107u8, 115u8,
            95u8, 114u8, 117u8, 111u8, 121u8, 125u8,
        ],
{
    reveal_strlit("FLAG{ysrever_mees_slliks_ruoy}");
}

/// Every candidate that the routine accepts is the accepted candidate.
pub proof fn lemma_valid_flag_is_accepted(flag: Seq<u8>)
    requires
        valid_flag(flag),
    ensures
        flag == accepted_flag(),
{
    let c0 = chunk(flag, 0);
    let c1 = chunk(flag, 1);
    let c2 = chunk(flag, 2);
    let c3 = chunk(flag, 3);
    let c4 = chunk(flag, 4);
    assert(fletcher_sum(c0) == expected_sum(0));
    assert(fletcher_sum(c1) == expected_sum(1));
    assert(fletcher_sum(c2) == expected_sum(2));
    assert(fletcher_sum(c3) == expected_sum(3));
    assert(fletcher_sum(c4) == expected_sum(4));
    lemma_block_sum(c0, 16, 110);
    lemma_block_sum(c1, 153, 39);
    lemma_block_sum(c2, 106, 107);
    lemma_block_sum(c3, 148, 11);
    lemma_block_sum(c4, 173, 13);
    lemma_solve_first(flag[4] as int, flag[5] as int);
    lemma_solve_pair(flag[14] as int, flag[19] as int);
    lemma_solve_third(flag[12] as int, flag[13] as int, flag[14] as int);
    lemma_covering_bytes(flag[23]);
    lemma_solve_fourth(
        flag[19] as int,
        flag[21] as int,
        flag[22] as int,
        flag[23] as int,
        flag[13] as int,
    );
    lemma_solve_v(flag[9] as int);
    lemma_solve_second(flag[7] as int, flag[9] as int);
    lemma_solve_o(flag[27] as int, flag[7] as int, flag[9] as int);
    lemma_solve_fifth(flag[26] as int);
    lemma_accepted_bytes();
    assert(flag =~= accepted_flag());
}

/// The accepted candidate meets every constraint.
pub proof fn lemma_accepted_is_valid()
    ensures
        valid_flag(accepted_flag()),
{
    let flag = accepted_flag();
    lemma_accepted_bytes();
    assert(basic_shape(flag));
    assert(115u8 & !115u8 == 0) by (bit_vector);
    assert(relations(flag));
    assert forall|k: int| 0 <= k < 5 implies fletcher_sum(#[trigger] chunk(flag, k))
        == expected_sum(k) by {
        lemma_block_pair(chunk(flag, k));
    }
}

/// The routine accepts exactly one candidate.
pub proof fn lemma_accepted_flag_is_unique(flag: Seq<u8>)
    ensures
        valid_flag(flag) <==> flag == accepted_flag(),
{
    lemma_accepted_is_valid();
    if valid_flag(flag) {
        lemma_valid_flag_is_accepted(flag);
    }
}

/// Changing any single byte of an accepted candidate makes the routine
/// reject it.
pub proof fn lemma_single_byte_change_rejected(flag: Seq<u8>, i: int, b: u8)
    requires
        valid_flag(flag),
        0 <= i < flag.len(),
        b != flag[i],
    ensures
        !valid_flag(flag.update(i, b)),
{
    lemma_accepted_flag_is_unique(flag);
    lemma_accepted_flag_is_unique(flag.update(i, b));
    assert(flag.update(i, b)[i] != flag[i]);
}

/// A candidate whose length is not thirty is rejected whatever it holds.
pub proof fn lemma_wrong_length_rejected(flag: Seq<u8>)
    requires
        flag.len() != 30,
    ensures
        !valid_flag(flag),
{
}

} // verus!
