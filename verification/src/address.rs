//! The address transform applied to the instruction pointer on every
//! single-step trap.

use vstd::prelude::*;

verus! {

/// Instructions of the disguised routine start on multiples of this value.
pub const SLOT: u64 = 16;

/// The transform, stated directly: an address on a slot boundary is left
/// alone; any other address is moved to the start of the slot before the
/// one it lies in.
pub open spec fn transformed(rip: u64) -> int {
    if rip % 16 == 0 {
        rip as int
    } else {
        rip - rip % 16 - 16
    }
}

/// The addresses for which the transform does not fall below zero.
pub open spec fn transformable(rip: u64) -> bool {
    rip % 16 == 0 || rip >= 16
}

/// The four-bit table index that the transform forms from the two low bit
/// pairs of the address.
pub open spec fn table_index(rip: u64) -> u64 {
    (((((rip & 8) >> 2) | (rip & 1)) ^ 2) << 2) | ((((rip & 4) >> 2) | (rip & 2)) ^ 1)
}

/// The table, entry by entry.
pub open spec fn table_entry(idx: u64) -> u64 {
    if idx == 0 {
        12
    } else if idx == 1 {
        8
    } else if idx == 2 {
        14
    } else if idx == 3 {
        10
    } else if idx == 4 {
        13
    } else if idx == 5 {
        9
    } else if idx == 6 {
        15
    } else if idx == 7 {
        11
    } else if idx == 8 {
        4
    } else if idx == 9 {
        0
    } else if idx == 10 {
        6
    } else if idx == 11 {
        2
    } else if idx == 12 {
        5
    } else if idx == 13 {
        1
    } else if idx == 14 {
        7
    } else {
        3
    }
}

/// The index permutation and the table undo each other: the entry found is
/// the low nibble of the address, and the distinguished index 9 is reached
/// exactly from slot boundaries.
pub proof fn lemma_table_finds_low_nibble(rip: u64)
    by (bit_vector)
    ensures
        table_index(rip) < 16,
        table_entry(table_index(rip)) == rip & 15,
        table_index(rip) == 9 <==> rip & 15 == 0,
        rip & 15 == rip % 16,
        rip & !(rip & 15) == rip - rip % 16,
{
}

/// Applies the transform to a trapped instruction pointer.
pub fn calc_rip(rip: u64) -> (out: u64)
    requires
        transformable(rip),
    ensures
        out == transformed(rip),
        rip % 16 == 0 ==> out == rip,
        out % 16 == 0,
{
    let row: u64 = ((rip & (1 << 3)) >> 2) | (rip & 1);
    let col: u64 = ((rip & (1 << 2)) >> 2) | (rip & (1 << 1));
    let idx: u64 = ((row ^ 2) << 2) | (col ^ 1);
    let table: [u64; 16] = [12, 8, 14, 10, 13, 9, 15, 11, 4, 0, 6, 2, 5, 1, 7, 3];
    proof {
        lemma_table_finds_low_nibble(rip);
        assert(1u64 << 3 == 8 && 1u64 << 2 == 4 && 1u64 << 1 == 2) by (bit_vector);
        assert(idx == table_index(rip));
        assert(table@[idx as int] == table_entry(idx));
    }
    if idx == 9 {
        rip
    } else {
        (rip & !table[idx as usize]) - 16
    }
}

/// A slot boundary is a fixed point of the transform.
pub proof fn lemma_boundary_is_fixed_point(rip: u64)
    requires
        rip % 16 == 0,
    ensures
        transformed(rip) == rip,
{
}

/// The transform lands on a slot boundary, so applying it twice gives no
/// more than applying it once.
pub proof fn lemma_transform_idempotent(rip: u64)
    requires
        transformable(rip),
    ensures
        transformed(rip) % 16 == 0,
        transformed(transformed(rip) as u64) == transformed(rip),
{
}

} // verus!
