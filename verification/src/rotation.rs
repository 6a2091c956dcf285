//! Rotation without a table: one 16-bit mask per piece, read under four
//! index permutations of the 4x4 frame.

use vstd::prelude::*;

verus! {

/// The bit of a piece's canonical mask that the cell `(col, row)` of the
/// board-facing frame shows when the piece is turned `rotation` quarter turns.
/// Only `rotation % 4` matters.
pub open spec fn spec_index(col: int, row: int, rotation: int) -> int {
    if rotation % 4 == 1 {
        12 + row - 4 * col
    } else if rotation % 4 == 2 {
        15 - 4 * row - col
    } else if rotation % 4 == 3 {
        3 - row + 4 * col
    } else {
        row * 4 + col
    }
}

/// Computes [`spec_index`]. The result always names one of the sixteen bits.
pub fn index(col: i32, row: i32, rotation: u8) -> (bit: u32)
    requires
        0 <= col < 4,
        0 <= row < 4,
    ensures
        bit == spec_index(col as int, row as int, rotation as int),
        bit < 16,
{
    let turned: i32 = match rotation % 4 {
        0 => row * 4 + col,
        1 => 12 + row - col * 4,
        2 => 15 - row * 4 - col,
        3 => 3 - row + col * 4,
        _ => row * 4 + col,
    };
    turned as u32
}

/// Every cell of the frame reads a bit inside the mask, whatever the rotation.
pub proof fn lemma_index_in_range(col: int, row: int, rotation: int)
    requires
        0 <= col < 4,
        0 <= row < 4,
    ensures
        0 <= spec_index(col, row, rotation) < 16,
{
}

/// Under a fixed rotation no two cells of the frame read the same bit.
pub proof fn lemma_index_injective(c1: int, r1: int, c2: int, r2: int, rotation: int)
    requires
        0 <= c1 < 4,
        0 <= r1 < 4,
        0 <= c2 < 4,
        0 <= r2 < 4,
        spec_index(c1, r1, rotation) == spec_index(c2, r2, rotation),
    ensures
        c1 == c2,
        r1 == r2,
{
}

/// The cell of the frame that reads `bit` under `rotation`, as `(col, row)`.
pub open spec fn spec_cell_of(bit: int, rotation: int) -> (int, int) {
    if rotation % 4 == 1 {
        (3 - bit / 4, bit % 4)
    } else if rotation % 4 == 2 {
        (3 - bit % 4, 3 - bit / 4)
    } else if rotation % 4 == 3 {
        (bit / 4, 3 - bit % 4)
    } else {
        (bit % 4, bit / 4)
    }
}

/// Under a fixed rotation every bit of the mask is read by a cell of the
/// frame: with injectivity, the sixteen cells and the sixteen bits correspond
/// one to one.
pub proof fn lemma_index_onto(bit: int, rotation: int)
    requires
        0 <= bit < 16,
    ensures
        0 <= spec_cell_of(bit, rotation).0 < 4,
        0 <= spec_cell_of(bit, rotation).1 < 4,
        spec_index(spec_cell_of(bit, rotation).0, spec_cell_of(bit, rotation).1, rotation) == bit,
{
}

} // verus!
