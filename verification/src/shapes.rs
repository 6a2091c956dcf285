//! The seven pieces: a colour and a 16-bit occupancy mask over a 4x4 frame.

use vstd::prelude::*;
use crate::rotation::spec_index;

verus! {

/// The colour of an empty cell.
pub const BLACK: u32 = 0x00_00_00;

/// The colour that marks a completed row until it is removed.
pub const GREEN: u32 = 0x00_ff_00;

/// The colour of the walls and the floor.
pub const GREY: u32 = 0xaa_aa_aa;

/// How many pieces the table holds.
pub const PIECES: usize = 7;

/// A piece: its display colour and its shape. Bit `row * 4 + col` of `shape`
/// is set when the cell `(col, row)` of the unrotated frame is occupied.
#[derive(Clone, Copy, Debug, PartialEq, Eq, Structural)]
pub struct Tetromino {
    pub color: u32,
    pub shape: u16,
}

/// Whether `bit` is set in `shape`.
pub open spec fn occupies(shape: u16, bit: u32) -> bool {
    shape & (1u16 << bit) != 0
}

/// Whether a piece of shape `shape`, turned `rotation` quarter turns, occupies
/// the cell `(col, row)` of its frame. Cells outside the frame are never
/// occupied.
pub open spec fn cell_occupied(shape: u16, rotation: int, col: int, row: int) -> bool {
    &&& 0 <= col < 4
    &&& 0 <= row < 4
    &&& occupies(shape, spec_index(col, row, rotation) as u32)
}

/// The occupied cells among the first `upto` cells of the frame, as
/// `(col, row)`, where the frame is walked column by column, each column from
/// the top down.
pub open spec fn cells_upto(shape: u16, rotation: int, upto: int) -> Seq<(i32, i32)>
    decreases upto,
{
    if upto <= 0 {
        Seq::empty()
    } else if cell_occupied(shape, rotation, (upto - 1) / 4, (upto - 1) % 4) {
        cells_upto(shape, rotation, upto - 1).push((((upto - 1) / 4) as i32, ((upto - 1) % 4) as i32))
    } else {
        cells_upto(shape, rotation, upto - 1)
    }
}

/// All occupied cells of the frame, column by column.
pub open spec fn occupied_cells(shape: u16, rotation: int) -> Seq<(i32, i32)> {
    cells_upto(shape, rotation, 16)
}

/// The table of pieces, in the order I, L, J, O, S, Z, T.
pub open spec fn spec_tetromino(which: int) -> Tetromino {
    if which == 0 {
        Tetromino { color: 0x0B_AA_88, shape: 0x2222 }
    } else if which == 1 {
        Tetromino { color: 0x00_CC_99, shape: 0x4460 }
    } else if which == 2 {
        Tetromino { color: 0x00_DD_AA, shape: 0x2260 }
    } else if which == 3 {
        Tetromino { color: 0x00_EE_BB, shape: 0x0660 }
    } else if which == 4 {
        Tetromino { color: 0x00_00_CC, shape: 0x4620 }
    } else if which == 5 {
        Tetromino { color: 0x00_00_DD, shape: 0x2640 }
    } else {
        Tetromino { color: 0x00_00_EE, shape: 0x2620 }
    }
}

/// Looks a piece up in the table.
pub fn tetromino(which: usize) -> (piece: Tetromino)
    requires
        which < PIECES,
    ensures
        piece == spec_tetromino(which as int),
{
    match which {
        0 => Tetromino { color: 0x0B_AA_88, shape: 0b0010_0010_0010_0010 },
        1 => Tetromino { color: 0x00_CC_99, shape: 0b0100_0100_0110_0000 },
        2 => Tetromino { color: 0x00_DD_AA, shape: 0b0010_0010_0110_0000 },
        3 => Tetromino { color: 0x00_EE_BB, shape: 0b0000_0110_0110_0000 },
        4 => Tetromino { color: 0x00_00_CC, shape: 0b0100_0110_0010_0000 },
        5 => Tetromino { color: 0x00_00_DD, shape: 0b0010_0110_0100_0000 },
        _ => Tetromino { color: 0x00_00_EE, shape: 0b0010_0110_0010_0000 },
    }
}

impl Tetromino {
    /// Tests one bit of the mask.
    pub fn has_bit(&self, bit: u32) -> (set: bool)
        requires
            bit < 16,
        ensures
            set == occupies(self.shape, bit),
    {
        self.shape & (1u16 << bit) != 0
    }
}

/// No piece of the table has the colour of an empty cell.
pub proof fn lemma_table_colors(which: int)
    ensures
        spec_tetromino(which).color != BLACK,
{
}

/// The piece keeps to the middle of its frame: it occupies one of the four
/// central cells; where it reaches the left or the right column of the frame
/// it also occupies a cell of the first three rows in the column next to it;
/// and where it reaches the bottom row of the frame it also occupies a
/// central cell of the row above.
pub open spec fn well_shaped(shape: u16, rotation: int) -> bool {
    &&& (cell_occupied(shape, rotation, 1, 1) || cell_occupied(shape, rotation, 2, 1)
        || cell_occupied(shape, rotation, 1, 2) || cell_occupied(shape, rotation, 2, 2))
    &&& (cell_occupied(shape, rotation, 0, 0) || cell_occupied(shape, rotation, 0, 1)
        || cell_occupied(shape, rotation, 0, 2) || cell_occupied(shape, rotation, 0, 3)) ==> (
    cell_occupied(shape, rotation, 1, 0) || cell_occupied(shape, rotation, 1, 1) || cell_occupied(
        shape,
        rotation,
        1,
        2,
    ))
    &&& (cell_occupied(shape, rotation, 3, 0) || cell_occupied(shape, rotation, 3, 1)
        || cell_occupied(shape, rotation, 3, 2) || cell_occupied(shape, rotation, 3, 3)) ==> (
    cell_occupied(shape, rotation, 2, 0) || cell_occupied(shape, rotation, 2, 1) || cell_occupied(
        shape,
        rotation,
        2,
        2,
    ))
    &&& (cell_occupied(shape, rotation, 0, 3) || cell_occupied(shape, rotation, 1, 3)
        || cell_occupied(shape, rotation, 2, 3) || cell_occupied(shape, rotation, 3, 3)) ==> (
    cell_occupied(shape, rotation, 1, 2) || cell_occupied(shape, rotation, 2, 2))
}

/// Which bits each mask of the table has set.
proof fn lemma_table_bits()
    ensures
        forall|b: u32|
            b < 16 ==> (#[trigger] occupies(0x2222u16, b) <==> (b == 1 || b == 5 || b == 9 || b
                == 13)),
        forall|b: u32|
            b < 16 ==> (#[trigger] occupies(0x4460u16, b) <==> (b == 5 || b == 6 || b == 10 || b
                == 14)),
        forall|b: u32|
            b < 16 ==> (#[trigger] occupies(0x2260u16, b) <==> (b == 5 || b == 6 || b == 9 || b
                == 13)),
        forall|b: u32|
            b < 16 ==> (#[trigger] occupies(0x0660u16, b) <==> (b == 5 || b == 6 || b == 9 || b
                == 10)),
        forall|b: u32|
            b < 16 ==> (#[trigger] occupies(0x4620u16, b) <==> (b == 5 || b == 9 || b == 10 || b
                == 14)),
        forall|b: u32|
            b < 16 ==> (#[trigger] occupies(0x2640u16, b) <==> (b == 6 || b == 9 || b == 10 || b
                == 13)),
        forall|b: u32|
            b < 16 ==> (#[trigger] occupies(0x2620u16, b) <==> (b == 5 || b == 9 || b == 10 || b
                == 13)),
{
    assert(forall|b: u32|
        b < 16 ==> ((0x2222u16 & (1u16 << b) != 0) <==> (b == 1 || b == 5 || b == 9 || b == 13)))
        by (bit_vector);
    assert(forall|b: u32|
        b < 16 ==> ((0x4460u16 & (1u16 << b) != 0) <==> (b == 5 || b == 6 || b == 10 || b == 14)))
        by (bit_vector);
    assert(forall|b: u32|
        b < 16 ==> ((0x2260u16 & (1u16 << b) != 0) <==> (b == 5 || b == 6 || b == 9 || b == 13)))
        by (bit_vector);
    assert(forall|b: u32|
        b < 16 ==> ((0x0660u16 & (1u16 << b) != 0) <==> (b == 5 || b == 6 || b == 9 || b == 10)))
        by (bit_vector);
    assert(forall|b: u32|
        b < 16 ==> ((0x4620u16 & (1u16 << b) != 0) <==> (b == 5 || b == 9 || b == 10 || b == 14)))
        by (bit_vector);
    assert(forall|b: u32|
        b < 16 ==> ((0x2640u16 & (1u16 << b) != 0) <==> (b == 6 || b == 9 || b == 10 || b == 13)))
        by (bit_vector);
    assert(forall|b: u32|
        b < 16 ==> ((0x2620u16 & (1u16 << b) != 0) <==> (b == 5 || b == 9 || b == 10 || b == 13)))
        by (bit_vector);
}

/// The first piece of the table, unturned, is the second column of its frame.
pub proof fn lemma_first_piece(col: int, row: int)
    ensures
        cell_occupied(spec_tetromino(0).shape, 0, col, row) <==> (col == 1 && 0 <= row < 4),
{
    lemma_table_bits();
}

/// What `cells_upto` lists: one entry for each occupied cell among the first
/// `upto` cells of the walk, in the order of the walk.
pub proof fn lemma_cells_upto(shape: u16, rotation: int, upto: int)
    requires
        0 <= upto <= 16,
    ensures
        cells_upto(shape, rotation, upto).len() <= upto,
        forall|k: int|
            0 <= k < cells_upto(shape, rotation, upto).len() ==> cell_occupied(
                shape,
                rotation,
                (#[trigger] cells_upto(shape, rotation, upto)[k]).0 as int,
                cells_upto(shape, rotation, upto)[k].1 as int,
            ) && 4 * cells_upto(shape, rotation, upto)[k].0 + cells_upto(shape, rotation, upto)[k].1
                < upto,
        forall|k: int, l: int|
            0 <= k < l < cells_upto(shape, rotation, upto).len() ==> 4 * (#[trigger] cells_upto(
                shape,
                rotation,
                upto,
            )[k]).0 + cells_upto(shape, rotation, upto)[k].1 < 4 * (#[trigger] cells_upto(
                shape,
                rotation,
                upto,
            )[l]).0 + cells_upto(shape, rotation, upto)[l].1,
        forall|col: int, row: int|
            #[trigger] cell_occupied(shape, rotation, col, row) && 4 * col + row < upto
                ==> cells_upto(shape, rotation, upto).contains((col as i32, row as i32)),
    decreases upto,
{
    if upto > 0 {
        lemma_cells_upto(shape, rotation, upto - 1);
        let prev = cells_upto(shape, rotation, upto - 1);
        let all = cells_upto(shape, rotation, upto);
        assert forall|col: int, row: int| #[trigger]
            cell_occupied(shape, rotation, col, row) && 4 * col + row < upto implies all.contains(
            (col as i32, row as i32),
        ) by {
            if 4 * col + row == upto - 1 {
                assert(col == (upto - 1) / 4 && row == (upto - 1) % 4);
                assert(all[all.len() - 1] == (col as i32, row as i32));
            } else {
                assert(prev.contains((col as i32, row as i32)));
                let k = choose|k: int| 0 <= k < prev.len() && prev[k] == (col as i32, row as i32);
                assert(all[k] == (col as i32, row as i32));
            }
        }
    }
}

/// The list of occupied cells holds each occupied cell of the frame once,
/// and nothing else.
pub proof fn lemma_occupied_cells(shape: u16, rotation: int)
    ensures
        forall|k: int|
            0 <= k < occupied_cells(shape, rotation).len() ==> cell_occupied(
                shape,
                rotation,
                (#[trigger] occupied_cells(shape, rotation)[k]).0 as int,
                occupied_cells(shape, rotation)[k].1 as int,
            ),
        forall|col: int, row: int|
            #[trigger] cell_occupied(shape, rotation, col, row) ==> occupied_cells(
                shape,
                rotation,
            ).contains((col as i32, row as i32)),
        forall|k: int, l: int|
            0 <= k < l < occupied_cells(shape, rotation).len() ==> (#[trigger] occupied_cells(
                shape,
                rotation,
            )[k]) != (#[trigger] occupied_cells(shape, rotation)[l]),
{
    lemma_cells_upto(shape, rotation, 16);
}

/// Whether `(col, row)` is among the first `upto` cells of the list.
pub open spec fn listed(cells: Seq<(i32, i32)>, upto: int, col: int, row: int) -> bool {
    exists|m: int|
        0 <= m < upto && m < cells.len() && (#[trigger] cells[m]).0 == col && cells[m].1 == row
}

/// A cell is among the first `upto + 1` cells of a list when it is among the
/// first `upto` or is the next one.
pub proof fn lemma_listed_next(cells: Seq<(i32, i32)>, upto: int, col: int, row: int)
    requires
        0 <= upto < cells.len(),
    ensures
        listed(cells, upto + 1, col, row) == (listed(cells, upto, col, row) || (cells[upto].0
            == col && cells[upto].1 == row)),
{
    if listed(cells, upto + 1, col, row) {
        let m = choose|m: int|
            0 <= m < upto + 1 && m < cells.len() && (#[trigger] cells[m]).0 == col && cells[m].1
                == row;
        if m < upto {
            assert(listed(cells, upto, col, row));
        }
    }
    if listed(cells, upto, col, row) {
        let m = choose|m: int|
            0 <= m < upto && m < cells.len() && (#[trigger] cells[m]).0 == col && cells[m].1
                == row;
        assert(cells[m].0 == col);
    }
    if cells[upto].0 == col && cells[upto].1 == row {
        assert(listed(cells, upto + 1, col, row));
    }
}

/// The cells of the list of occupied cells are the occupied cells of the
/// frame.
pub proof fn lemma_listed_all(shape: u16, rotation: int, col: int, row: int)
    ensures
        listed(
            occupied_cells(shape, rotation),
            occupied_cells(shape, rotation).len() as int,
            col,
            row,
        ) == cell_occupied(shape, rotation, col, row),
{
    let cells = occupied_cells(shape, rotation);
    lemma_occupied_cells(shape, rotation);
    if cell_occupied(shape, rotation, col, row) {
        assert(cells.contains((col as i32, row as i32)));
        let m = choose|m: int| 0 <= m < cells.len() && cells[m] == (col as i32, row as i32);
        assert(cells[m].0 == col && cells[m].1 == row);
    }
    if listed(cells, cells.len() as int, col, row) {
        let m = choose|m: int|
            0 <= m < cells.len() && m < cells.len() && (#[trigger] cells[m]).0 == col
                && cells[m].1 == row;
        assert(cell_occupied(shape, rotation, cells[m].0 as int, cells[m].1 as int));
    }
}

/// Every piece of the table keeps to the middle of its frame under every
/// rotation.
pub proof fn lemma_table_well_shaped(which: int, rotation: int)
    requires
        0 <= which < PIECES,
    ensures
        well_shaped(spec_tetromino(which).shape, rotation),
{
    lemma_table_bits();
}

} // verus!
