//! The board: the field of cells with the rotation of the piece in play, the
//! collision test, locking, and the detection and removal of full rows.

use vstd::prelude::*;
use crate::canvas::Canvas;
use crate::grid::{
    as_ints, lemma_collapse_row_at, lemma_collapse_row_walls, lemma_fresh_at,
    lemma_full_rows_clip, lemma_grid_equal, lemma_locked_at, lemma_locked_walls, lemma_marked_at,
    lemma_no_full_rows, Grid,
};
use crate::rotation::{index, spec_index};
use crate::shapes::{
    cell_occupied, cells_upto, lemma_listed_all, lemma_listed_next, listed, occupied_cells,
    Tetromino, BLACK, GREEN, GREY,
};

verus! {

/// The field and the rotation of the piece in play.
pub struct Tetris {
    field: Canvas,
    current_rotate: u8,
}

impl View for Tetris {
    type V = Grid;

    closed spec fn view(&self) -> Grid {
        self.field@
    }
}

impl Tetris {
    /// The rotation of the piece in play, as stored; only its remainder
    /// modulo four matters.
    pub closed spec fn spec_rotation(&self) -> int {
        self.current_rotate as int
    }

    /// The field is a well-formed grid whose sides fit the coordinate type.
    pub open spec fn wf(&self) -> bool {
        &&& self@.wf()
        &&& self@.width <= i32::MAX
        &&& self@.height <= i32::MAX
    }

    /// A field of `w` by `h` cells with a grey boundary and an empty interior.
    pub fn new(w: usize, h: usize) -> (board: Tetris)
        requires
            1 <= w <= i32::MAX,
            1 <= h <= i32::MAX,
            w * h <= usize::MAX,
        ensures
            board.wf(),
            board@ == Grid::fresh(w as int, h as int),
            board@.walled(),
            board.spec_rotation() == 0,
    {
        let mut board = Tetris { field: Canvas::filled(w, h, BLACK), current_rotate: 0 };
        let mut x: usize = 0;
        while x < w
            invariant
                board.wf(),
                board@.width == w,
                board@.height == h,
                board.current_rotate == 0,
                x <= w,
                forall|i: int, j: int|
                    0 <= i < x && 0 <= j < h ==> #[trigger] board@.at(i, j) == Self::paint(
                        w as int,
                        h as int,
                        i,
                        j,
                    ),
            decreases w - x,
        {
            let mut y: usize = 0;
            while y < h
                invariant
                    board.wf(),
                    board@.width == w,
                    board@.height == h,
                    board.current_rotate == 0,
                    x < w,
                    y <= h,
                    forall|i: int, j: int|
                        0 <= i < x && 0 <= j < h ==> #[trigger] board@.at(i, j) == Self::paint(
                            w as int,
                            h as int,
                            i,
                            j,
                        ),
                    forall|j: int|
                        0 <= j < y ==> #[trigger] board@.at(x as int, j) == Self::paint(
                            w as int,
                            h as int,
                            x as int,
                            j,
                        ),
                decreases h - y,
            {
                let color = if x == 0 || x == w - 1 || y == h - 1 {
                    GREY
                } else {
                    BLACK
                };
                board.put(x, y, color);
                y += 1;
            }
            x += 1;
        }
        proof {
            let fresh = Grid::fresh(w as int, h as int);
            assert forall|i: int, j: int| board@.in_bounds(i, j) implies board@.at(i, j)
                == fresh.at(i, j) by {
                lemma_fresh_at(w as int, h as int, i, j);
            }
            lemma_grid_equal(board@, fresh);
        }
        board
    }

    /// The colour that a fresh field has at `(x, y)`.
    spec fn paint(width: int, height: int, x: int, y: int) -> u32 {
        if x == 0 || x == width - 1 || y == height - 1 {
            GREY
        } else {
            BLACK
        }
    }

    /// The number of columns.
    pub fn width(&self) -> (w: usize)
        ensures
            w == self@.width,
    {
        self.field.width()
    }

    /// The number of rows.
    pub fn height(&self) -> (h: usize)
        ensures
            h == self@.height,
    {
        self.field.height()
    }

    /// The rotation of the piece in play.
    pub fn rotation(&self) -> (r: u8)
        ensures
            r == self.spec_rotation(),
    {
        self.current_rotate
    }

    /// Turns the piece in play to `rotation`; the field is untouched.
    pub fn set_rotation(&mut self, rotation: u8)
        ensures
            final(self)@ == old(self)@,
            final(self).spec_rotation() == rotation,
    {
        self.current_rotate = rotation;
    }

    /// The cells of the field, row by row.
    pub fn cells(&self) -> (cells: &Vec<u32>)
        ensures
            cells@ == self@.cells,
    {
        self.field.cells()
    }

    /// Whether `(x, y)` lies in the leftmost column, the rightmost column or
    /// the bottom row.
    pub fn is_boundary(&self, x: usize, y: usize) -> (b: bool)
        requires
            self.wf(),
        ensures
            b == self@.is_boundary(x as int, y as int),
    {
        x == 0 || x == self.field.width() - 1 || y == self.field.height() - 1
    }

    /// The colour of the cell `(x, y)`; `BLACK` stands for an empty cell.
    pub fn cell_at(&self, x: usize, y: usize) -> (color: u32)
        requires
            self.wf(),
            self@.in_bounds(x as int, y as int),
        ensures
            color == self@.at(x as int, y as int),
    {
        self.field.get(x, y)
    }

    /// The bit of a piece's mask that the cell `(px, py)` of the frame shows
    /// under the rotation of the piece in play.
    pub fn rotate(&self, px: i32, py: i32) -> (bit: u32)
        requires
            0 <= px < 4,
            0 <= py < 4,
        ensures
            bit == spec_index(px as int, py as int, self.spec_rotation()),
            bit < 16,
    {
        index(px, py, self.current_rotate)
    }

    /// Whether `piece`, under the rotation in play, occupies the cell
    /// `(px, py)` of its frame.
    pub fn occupied(&self, piece: &Tetromino, px: i32, py: i32) -> (b: bool)
        requires
            0 <= px < 4,
            0 <= py < 4,
        ensures
            b == cell_occupied(piece.shape, self.spec_rotation(), px as int, py as int),
    {
        let bit = self.rotate(px, py);
        piece.has_bit(bit)
    }

    /// The cells of the frame that `piece` occupies under the rotation in
    /// play, as `(col, row)`, column by column and each column from the top.
    pub fn pos(&self, piece: &Tetromino) -> (cells: Vec<(i32, i32)>)
        ensures
            cells@ == occupied_cells(piece.shape, self.spec_rotation()),
    {
        let mut cells: Vec<(i32, i32)> = Vec::new();
        let mut px: i32 = 0;
        while px < 4
            invariant
                0 <= px <= 4,
                cells@ == cells_upto(piece.shape, self.spec_rotation(), 4 * px),
            decreases 4 - px,
        {
            let mut py: i32 = 0;
            while py < 4
                invariant
                    0 <= px < 4,
                    0 <= py <= 4,
                    cells@ == cells_upto(piece.shape, self.spec_rotation(), 4 * px + py),
                decreases 4 - py,
            {
                if self.occupied(piece, px, py) {
                    cells.push((px, py));
                }
                py += 1;
            }
            px += 1;
        }
        cells
    }

    /// Whether `piece`, under the rotation in play and with its frame's
    /// top-left corner at `(x, y)`, lies on empty cells only. Occupied cells
    /// of the piece that fall outside the field are skipped.
    pub fn does_piece_fit(&self, piece: &Tetromino, x: i32, y: i32) -> (fits: bool)
        requires
            self.wf(),
        ensures
            fits == self@.fits(piece.shape, self.spec_rotation(), x as int, y as int),
    {
        let mut px: i32 = 0;
        while px < 4
            invariant
                self.wf(),
                0 <= px <= 4,
                forall|c: int, r: int|
                    c < px && #[trigger] cell_occupied(piece.shape, self.spec_rotation(), c, r)
                        && self@.in_bounds(x + c, y + r) ==> self@.at(x + c, y + r) == BLACK,
            decreases 4 - px,
        {
            let mut py: i32 = 0;
            while py < 4
                invariant
                    self.wf(),
                    0 <= px < 4,
                    0 <= py <= 4,
                    forall|c: int, r: int|
                        (c < px || (c == px && r < py)) && #[trigger] cell_occupied(
                            piece.shape,
                            self.spec_rotation(),
                            c,
                            r,
                        ) && self@.in_bounds(x + c, y + r) ==> self@.at(x + c, y + r) == BLACK,
                decreases 4 - py,
            {
                let cx: i64 = x as i64 + px as i64;
                let cy: i64 = y as i64 + py as i64;
                if cx >= 0 && cx < self.field.width() as i64 {
                    if cy >= 0 && cy < self.field.height() as i64 {
                        if self.occupied(piece, px, py) && self.cell_at(cx as usize, cy as usize)
                            != BLACK {
                            return false;
                        }
                    }
                }
                py += 1;
            }
            px += 1;
        }
        true
    }

    /// Locks `piece` where it stands: every cell of the field that the piece
    /// occupies takes the piece's colour. Occupied cells of the piece that
    /// fall outside the field are skipped. The walls stay non-empty unless a
    /// piece of the empty colour is locked onto them.
    pub fn lock_piece(&mut self, piece: &Tetromino, x: i32, y: i32)
        requires
            old(self).wf(),
        ensures
            final(self).wf(),
            final(self).spec_rotation() == old(self).spec_rotation(),
            final(self)@ == old(self)@.locked(
                *piece,
                old(self).spec_rotation(),
                x as int,
                y as int,
            ),
            old(self)@.walled() && (piece.color != BLACK || !old(self)@.touches_wall(
                piece.shape,
                old(self).spec_rotation(),
                x as int,
                y as int,
            )) ==> final(self)@.walled(),
    {
        let ghost rot = self.spec_rotation();
        let cells = self.pos(piece);
        let mut k: usize = 0;
        while k < cells.len()
            invariant
                self.wf(),
                self@.width == old(self)@.width,
                self@.height == old(self)@.height,
                self.spec_rotation() == rot,
                rot == old(self).spec_rotation(),
                cells@ == occupied_cells(piece.shape, rot),
                k <= cells@.len(),
                forall|i: int, j: int|
                    self@.in_bounds(i, j) ==> #[trigger] self@.at(i, j) == (if listed(
                        cells@,
                        k as int,
                        i - x,
                        j - y,
                    ) {
                        piece.color
                    } else {
                        old(self)@.at(i, j)
                    }),
            decreases cells@.len() - k,
        {
            let (px, py) = cells[k];
            let cx: i64 = x as i64 + px as i64;
            let cy: i64 = y as i64 + py as i64;
            let ghost mid = self@;
            if cx >= 0 && cx < self.field.width() as i64 && cy >= 0 && cy
                < self.field.height() as i64 {
                self.put(cx as usize, cy as usize, piece.color);
            }
            proof {
                assert forall|i: int, j: int| self@.in_bounds(i, j) implies #[trigger] self@.at(
                    i,
                    j,
                ) == (if listed(cells@, k + 1, i - x, j - y) {
                    piece.color
                } else {
                    old(self)@.at(i, j)
                }) by {
                    lemma_listed_next(cells@, k as int, i - x, j - y);
                    assert(mid.in_bounds(i, j));
                }
            }
            k += 1;
        }
        proof {
            let before = old(self)@;
            let after = before.locked(*piece, rot, x as int, y as int);
            assert forall|i: int, j: int| self@.in_bounds(i, j) implies self@.at(i, j) == after.at(
                i,
                j,
            ) by {
                lemma_locked_at(before, *piece, rot, x as int, y as int, i, j);
                lemma_listed_all(piece.shape, rot, i - x, j - y);
            }
            lemma_grid_equal(self@, after);
            lemma_locked_walls(before, *piece, rot, x as int, y as int);
        }
    }

    /// Looks at the rows `top..bottom` that lie above the floor, from the top
    /// down. Each of them whose interior cells are all non-empty is marked,
    /// its interior cells turning green, and listed. Nothing else changes;
    /// where no row is full the field is as before.
    pub fn detect_full_rows(&mut self, top: usize, bottom: usize) -> (rows: Vec<usize>)
        requires
            old(self).wf(),
        ensures
            final(self).wf(),
            final(self).spec_rotation() == old(self).spec_rotation(),
            as_ints(rows@) == old(self)@.full_rows(top as int, bottom as int),
            final(self)@ == old(self)@.marked(top as int, bottom as int),
            rows@.len() == 0 ==> final(self)@ == old(self)@,
            old(self)@.walled() ==> final(self)@.walled(),
    {
        let ghost before = self@;
        let mut rows: Vec<usize> = Vec::new();
        let mut y: usize = top;
        while y < bottom && y < self.field.height() - 1
            invariant
                self.wf(),
                self@.width == before.width,
                self@.height == before.height,
                self.spec_rotation() == old(self).spec_rotation(),
                before == old(self)@,
                top <= y,
                y <= bottom || y == top,
                as_ints(rows@) == before.full_rows(top as int, y as int),
                forall|i: int, j: int|
                    self@.in_bounds(i, j) ==> #[trigger] self@.at(i, j) == (if top <= j < y
                        && before.clearable(j) && 0 < i < before.width - 1 {
                        GREEN
                    } else {
                        before.at(i, j)
                    }),
            decreases self@.height - y,
        {
            let mut full = true;
            let mut px: usize = 1;
            while px < self.field.width() - 1
                invariant
                    self.wf(),
                    1 <= px,
                    px <= self@.width - 1 || px == 1,
                    y < self@.height - 1,
                    full == (forall|i: int| 0 < i < px ==> #[trigger] self@.at(i, y as int) != BLACK),
                decreases self@.width - px,
            {
                full = full && self.cell_at(px, y) != BLACK;
                px += 1;
            }
            assert(full == before.clearable(y as int)) by {
                if before.clearable(y as int) {
                    assert forall|i: int| 0 < i < px implies #[trigger] self@.at(i, y as int)
                        != BLACK by {
                        assert(before.at(i, y as int) != BLACK);
                    }
                }
                if full {
                    assert forall|i: int| 0 < i < before.width - 1 implies #[trigger] before.at(
                        i,
                        y as int,
                    ) != BLACK by {
                        assert(self@.at(i, y as int) != BLACK);
                    }
                }
            }
            if full {
                let mut px: usize = 1;
                while px < self.field.width() - 1
                    invariant
                        self.wf(),
                        self@.width == before.width,
                        self@.height == before.height,
                        self.spec_rotation() == old(self).spec_rotation(),
                        1 <= px,
                        px <= self@.width - 1 || px == 1,
                        y < self@.height - 1,
                        forall|i: int, j: int|
                            self@.in_bounds(i, j) ==> #[trigger] self@.at(i, j) == (if ((top <= j
                                < y && before.clearable(j) && 0 < i < before.width - 1) || (j == y
                                && 0 < i < px)) {
                                GREEN
                            } else {
                                before.at(i, j)
                            }),
                    decreases self@.width - px,
                {
                    self.put(px, y, GREEN);
                    px += 1;
                }
                rows.push(y);
                assert(as_ints(rows@) =~= before.full_rows(top as int, y as int).push(y as int));
            }
            y += 1;
        }
        proof {
            if y < bottom {
                lemma_full_rows_clip(before, top as int, bottom as int);
                lemma_full_rows_clip(before, top as int, y as int);
            }
            assert(as_ints(rows@).len() == rows@.len());
            let after = before.marked(top as int, bottom as int);
            assert forall|i: int, j: int| self@.in_bounds(i, j) implies self@.at(i, j) == after.at(
                i,
                j,
            ) by {
                lemma_marked_at(before, top as int, bottom as int, i, j);
            }
            lemma_grid_equal(self@, after);
            if rows@.len() == 0 {
                lemma_no_full_rows(before, top as int, bottom as int);
                lemma_grid_equal(self@, before);
            }
        }
        rows
    }

    /// Removes the rows of `rows` one after the other, in the order given.
    /// For each, in every interior column, the cells above the row move down
    /// by one and the top cell becomes empty. Rows above the floor leave the
    /// walls as they were.
    pub fn collapse_rows(&mut self, rows: &Vec<usize>)
        requires
            old(self).wf(),
            forall|k: int| 0 <= k < rows@.len() ==> rows@[k] < old(self)@.height,
        ensures
            final(self).wf(),
            final(self).spec_rotation() == old(self).spec_rotation(),
            final(self)@ == old(self)@.collapse_rows(as_ints(rows@)),
            old(self)@.walled() && (forall|k: int|
                0 <= k < rows@.len() ==> rows@[k] < old(self)@.height - 1)
                ==> final(self)@.walled(),
    {
        let ghost before = self@;
        let ghost target = as_ints(rows@);
        let ghost above_floor = forall|k: int|
            0 <= k < rows@.len() ==> rows@[k] < before.height - 1;
        let mut k: usize = 0;
        assert(target.take(0) =~= Seq::<int>::empty());
        while k < rows.len()
            invariant
                self.wf(),
                self@.width == before.width,
                self@.height == before.height,
                self.spec_rotation() == old(self).spec_rotation(),
                before == old(self)@,
                target == as_ints(rows@),
                above_floor == (forall|k: int|
                    0 <= k < rows@.len() ==> rows@[k] < before.height - 1),
                forall|k: int| 0 <= k < rows@.len() ==> rows@[k] < before.height,
                k <= rows@.len(),
                self@ == before.collapse_rows(target.take(k as int)),
                before.walled() && above_floor ==> self@.walled(),
            decreases rows@.len() - k,
        {
            let row = rows[k];
            let ghost start = self@;
            let mut px: usize = 1;
            while px < self.field.width() - 1
                invariant
                    self.wf(),
                    self@.width == start.width,
                    self@.height == start.height,
                    start.wf(),
                    self.spec_rotation() == old(self).spec_rotation(),
                    row < self@.height,
                    1 <= px,
                    px <= self@.width - 1 || px == 1,
                    forall|i: int, j: int|
                        self@.in_bounds(i, j) ==> #[trigger] self@.at(i, j) == (if 0 < i < px && j
                            <= row {
                            if j == 0 {
                                BLACK
                            } else {
                                start.at(i, j - 1)
                            }
                        } else {
                            start.at(i, j)
                        }),
                decreases self@.width - px,
            {
                let mut py: usize = row;
                while py >= 1
                    invariant
                        self.wf(),
                        self@.width == start.width,
                        self@.height == start.height,
                        start.wf(),
                        self.spec_rotation() == old(self).spec_rotation(),
                        row < self@.height,
                        py <= row,
                        1 <= px < self@.width - 1,
                        forall|i: int, j: int|
                            self@.in_bounds(i, j) ==> #[trigger] self@.at(i, j) == (if (0 < i < px
                                && j <= row) || (i == px && py < j <= row) {
                                if j == 0 {
                                    BLACK
                                } else {
                                    start.at(i, j - 1)
                                }
                            } else {
                                start.at(i, j)
                            }),
                    decreases py,
                {
                    let above = self.cell_at(px, py - 1);
                    self.put(px, py, above);
                    py -= 1;
                }
                self.put(px, 0, BLACK);
                px += 1;
            }
            proof {
                let next = start.collapse_row(row as int);
                assert forall|i: int, j: int| self@.in_bounds(i, j) implies self@.at(i, j)
                    == next.at(i, j) by {
                    lemma_collapse_row_at(start, row as int, i, j);
                }
                lemma_grid_equal(self@, next);
                assert(target.take(k + 1).drop_last() =~= target.take(k as int));
                assert(target.take(k + 1).last() == row as int);
                if before.walled() && above_floor {
                    lemma_collapse_row_walls(start, row as int);
                }
            }
            k += 1;
        }
        proof {
            assert(target.take(k as int) =~= target);
        }
    }

    /// Writes one cell and leaves every other cell as it was.
    fn put(&mut self, x: usize, y: usize, color: u32)
        requires
            old(self).wf(),
            old(self)@.in_bounds(x as int, y as int),
        ensures
            final(self).wf(),
            final(self)@.width == old(self)@.width,
            final(self)@.height == old(self)@.height,
            final(self).spec_rotation() == old(self).spec_rotation(),
            final(self)@.at(x as int, y as int) == color,
            forall|i: int, j: int|
                old(self)@.in_bounds(i, j) && (i != x || j != y) ==> #[trigger] final(self)@.at(i, j)
                    == old(self)@.at(i, j),
    {
        self.field.put(x, y, color);
    }
}

/// The collision test depends on nothing but the field, the rotation in
/// play, the shape and the place: asked again with the same arguments it
/// gives the same answer.
pub proof fn lemma_fit_is_determined(a: Tetris, b: Tetris, piece: Tetromino, x: i32, y: i32)
    requires
        a@ == b@,
        a.spec_rotation() == b.spec_rotation(),
    ensures
        a@.fits(piece.shape, a.spec_rotation(), x as int, y as int) == b@.fits(
            piece.shape,
            b.spec_rotation(),
            x as int,
            y as int,
        ),
{
}

} // verus!
