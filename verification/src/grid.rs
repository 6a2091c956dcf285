//! The mathematical model of the playing field: a `width` by `height` matrix
//! of colours kept row by row, and what the board operations do to it.

use vstd::prelude::*;
use crate::shapes::{cell_occupied, well_shaped, Tetromino, BLACK, GREEN, GREY};

verus! {

/// A field of `width * height` cells; the cell `(x, y)` is `cells[y * width + x]`,
/// with `y` growing downwards.
pub struct Grid {
    pub width: int,
    pub height: int,
    pub cells: Seq<u32>,
}

impl Grid {
    /// The grid has at least one cell and `cells` holds exactly its cells.
    pub open spec fn wf(self) -> bool {
        &&& 1 <= self.width
        &&& 1 <= self.height
        &&& self.cells.len() == self.width * self.height
    }

    pub open spec fn in_bounds(self, x: int, y: int) -> bool {
        0 <= x < self.width && 0 <= y < self.height
    }

    /// The colour of the cell `(x, y)`.
    pub open spec fn at(self, x: int, y: int) -> u32 {
        self.cells[y * self.width + x]
    }

    /// The leftmost column, the rightmost column and the bottom row.
    pub open spec fn is_boundary(self, x: int, y: int) -> bool {
        x == 0 || x == self.width - 1 || y == self.height - 1
    }

    /// The cells that pieces move through: everything in bounds but the boundary.
    pub open spec fn is_interior(self, x: int, y: int) -> bool {
        0 < x < self.width - 1 && 0 <= y < self.height - 1
    }

    /// Every boundary cell is non-empty.
    pub open spec fn walled(self) -> bool {
        forall|x: int, y: int|
            self.in_bounds(x, y) && self.is_boundary(x, y) ==> #[trigger] self.at(x, y) != BLACK
    }

    /// The field at the start of a game: grey boundary, empty interior.
    pub open spec fn fresh(width: int, height: int) -> Grid {
        Grid {
            width,
            height,
            cells: Seq::new(
                (width * height) as nat,
                |i: int|
                    if i % width == 0 || i % width == width - 1 || i / width == height - 1 {
                        GREY
                    } else {
                        BLACK
                    },
            ),
        }
    }

    /// Whether the piece, with its frame's top-left corner at `(ax, ay)`,
    /// occupies the cell `(x, y)` of the field.
    pub open spec fn covers(shape: u16, rotation: int, ax: int, ay: int, x: int, y: int) -> bool {
        cell_occupied(shape, rotation, x - ax, y - ay)
    }

    /// The placement is legal: every occupied cell of the piece that lies on
    /// the field lies on an empty cell. Occupied cells that fall outside the
    /// field are not looked at.
    pub open spec fn fits(self, shape: u16, rotation: int, ax: int, ay: int) -> bool {
        forall|col: int, row: int|
            #[trigger] cell_occupied(shape, rotation, col, row) && self.in_bounds(ax + col, ay + row)
                ==> self.at(ax + col, ay + row) == BLACK
    }

    /// Whether the piece occupies a boundary cell of the field.
    pub open spec fn touches_wall(self, shape: u16, rotation: int, ax: int, ay: int) -> bool {
        exists|col: int, row: int|
            #[trigger] cell_occupied(shape, rotation, col, row) && self.in_bounds(ax + col, ay + row)
                && self.is_boundary(ax + col, ay + row)
    }

    /// Every occupied cell of the piece lies in the interior of the field.
    pub open spec fn inside(self, shape: u16, rotation: int, ax: int, ay: int) -> bool {
        forall|col: int, row: int|
            #[trigger] cell_occupied(shape, rotation, col, row) ==> self.is_interior(
                ax + col,
                ay + row,
            )
    }

    /// The field after the piece was locked: the cells of the field that the
    /// piece occupies take its colour, the others are as before.
    pub open spec fn locked(self, piece: Tetromino, rotation: int, ax: int, ay: int) -> Grid {
        Grid {
            width: self.width,
            height: self.height,
            cells: Seq::new(
                self.cells.len(),
                |i: int|
                    if Self::covers(
                        piece.shape,
                        rotation,
                        ax,
                        ay,
                        i % self.width,
                        i / self.width,
                    ) {
                        piece.color
                    } else {
                        self.cells[i]
                    },
            ),
        }
    }

    /// Every interior cell of row `y` is non-empty.
    pub open spec fn row_full(self, y: int) -> bool {
        forall|x: int| 0 < x < self.width - 1 ==> #[trigger] self.at(x, y) != BLACK
    }

    /// Row `y` is a row above the floor and is full.
    pub open spec fn clearable(self, y: int) -> bool {
        0 <= y < self.height - 1 && self.row_full(y)
    }

    /// The clearable rows among `top..bottom`, from the top down.
    pub open spec fn full_rows(self, top: int, bottom: int) -> Seq<int>
        decreases bottom - top,
    {
        if top >= bottom {
            Seq::empty()
        } else if self.clearable(bottom - 1) {
            self.full_rows(top, bottom - 1).push(bottom - 1)
        } else {
            self.full_rows(top, bottom - 1)
        }
    }

    /// The field after the clearable rows among `top..bottom` were marked:
    /// their interior cells are green, every other cell is as before.
    pub open spec fn marked(self, top: int, bottom: int) -> Grid {
        Grid {
            width: self.width,
            height: self.height,
            cells: Seq::new(
                self.cells.len(),
                |i: int|
                    if top <= i / self.width < bottom && self.clearable(i / self.width) && 0 < i
                        % self.width < self.width - 1 {
                        GREEN
                    } else {
                        self.cells[i]
                    },
            ),
        }
    }

    /// The field after row `row` was removed: in every interior column the
    /// cells of the rows `0..row` move down by one and the top cell is empty.
    /// The boundary columns and the rows below `row` are as before.
    pub open spec fn collapse_row(self, row: int) -> Grid {
        Grid {
            width: self.width,
            height: self.height,
            cells: Seq::new(
                self.cells.len(),
                |i: int|
                    if 0 < i % self.width < self.width - 1 && i / self.width <= row {
                        if i / self.width == 0 {
                            BLACK
                        } else {
                            self.cells[i - self.width]
                        }
                    } else {
                        self.cells[i]
                    },
            ),
        }
    }

    /// The field after the rows of `rows` were removed one after the other,
    /// `rows[0]` first.
    pub open spec fn collapse_rows(self, rows: Seq<int>) -> Grid
        decreases rows.len(),
    {
        if rows.len() == 0 {
            self
        } else {
            self.collapse_rows(rows.drop_last()).collapse_row(rows.last())
        }
    }
}

/// One of the operations that change the field.
pub enum BoardOp {
    /// A piece is locked with its frame's top-left corner at `(x, y)`.
    Lock { piece: Tetromino, rotation: int, x: int, y: int },
    /// The full rows among `top..bottom` are marked.
    Mark { top: int, bottom: int },
    /// The rows of `rows` are removed one after the other.
    Collapse { rows: Seq<int> },
}

impl Grid {
    /// The field after one operation.
    pub open spec fn apply(self, op: BoardOp) -> Grid {
        match op {
            BoardOp::Lock { piece, rotation, x, y } => self.locked(piece, rotation, x, y),
            BoardOp::Mark { top, bottom } => self.marked(top, bottom),
            BoardOp::Collapse { rows } => self.collapse_rows(rows),
        }
    }

    /// The operation is none of the two that can open a wall: it does not
    /// lock a piece of the empty colour onto a boundary cell, and it does not
    /// remove the floor or a row below it.
    pub open spec fn spares_walls(self, op: BoardOp) -> bool {
        match op {
            BoardOp::Lock { piece, rotation, x, y } => piece.color != BLACK || !self.touches_wall(
                piece.shape,
                rotation,
                x,
                y,
            ),
            BoardOp::Mark { top, bottom } => true,
            BoardOp::Collapse { rows } => forall|k: int|
                0 <= k < rows.len() ==> rows[k] < self.height - 1,
        }
    }

    /// The field after the operations of `ops`, `ops[0]` first.
    pub open spec fn run(self, ops: Seq<BoardOp>) -> Grid
        decreases ops.len(),
    {
        if ops.len() == 0 {
            self
        } else {
            self.run(ops.drop_last()).apply(ops.last())
        }
    }

    /// Each operation of `ops` spares the walls of the field that it finds.
    pub open spec fn all_spare_walls(self, ops: Seq<BoardOp>) -> bool
        decreases ops.len(),
    {
        if ops.len() == 0 {
            true
        } else {
            self.all_spare_walls(ops.drop_last()) && self.run(ops.drop_last()).spares_walls(
                ops.last(),
            )
        }
    }
}

/// Whatever pieces are locked and whatever rows are marked and removed, in
/// any order and number, the left wall, the right wall and the floor stay
/// fully non-empty and the field keeps its size, as long as no piece of the
/// empty colour is locked onto a wall and the floor is not removed.
pub proof fn lemma_walls_stand(g: Grid, ops: Seq<BoardOp>)
    requires
        g.wf(),
        g.walled(),
        g.all_spare_walls(ops),
    ensures
        g.run(ops).wf(),
        g.run(ops).width == g.width,
        g.run(ops).height == g.height,
        g.run(ops).walled(),
    decreases ops.len(),
{
    if ops.len() > 0 {
        lemma_walls_stand(g, ops.drop_last());
        let before = g.run(ops.drop_last());
        match ops.last() {
            BoardOp::Lock { piece, rotation, x, y } => {
                lemma_locked_walls(before, piece, rotation, x, y);
            },
            BoardOp::Mark { top, bottom } => {
                lemma_marked_walls(before, top, bottom);
            },
            BoardOp::Collapse { rows } => {
                lemma_collapse_rows_size(before, rows);
                lemma_collapse_rows_walls(before, rows);
            },
        }
    }
}

/// Where the cell `(x, y)` lies in the row-by-row layout.
pub proof fn lemma_offset(width: int, height: int, x: int, y: int)
    requires
        0 <= x < width,
        0 <= y < height,
    ensures
        0 <= y * width + x < width * height,
        (y * width + x) % width == x,
        (y * width + x) / width == y,
{
    assert(y * width + x < width * height) by (nonlinear_arith)
        requires
            0 <= x < width,
            0 <= y < height,
    {
        assert((y + 1) * width <= height * width);
    }
    assert(0 <= y * width) by (nonlinear_arith)
        requires
            0 <= y,
            0 < width,
    ;
    vstd::arithmetic::div_mod::lemma_fundamental_div_mod_converse(y * width + x, width, y, x);
}

/// The cell that the position `i` of the layout holds.
pub proof fn lemma_coords(width: int, height: int, i: int)
    requires
        1 <= width,
        0 <= i < width * height,
    ensures
        0 <= i % width < width,
        0 <= i / width < height,
        (i / width) * width + i % width == i,
{
    vstd::arithmetic::div_mod::lemma_fundamental_div_mod(i, width);
    assert(0 <= i / width < height) by (nonlinear_arith)
        requires
            1 <= width,
            0 <= i < width * height,
            i == width * (i / width) + i % width,
            0 <= i % width < width,
    ;
    assert((i / width) * width == width * (i / width)) by (nonlinear_arith);
}

/// The colour of a cell of a fresh field.
pub proof fn lemma_fresh_at(width: int, height: int, x: int, y: int)
    requires
        0 <= x < width,
        0 <= y < height,
    ensures
        Grid::fresh(width, height).wf(),
        Grid::fresh(width, height).at(x, y) == (if x == 0 || x == width - 1 || y == height - 1 {
            GREY
        } else {
            BLACK
        }),
{
    lemma_offset(width, height, x, y);
}

/// The colour of a cell after a piece was locked.
pub proof fn lemma_locked_at(g: Grid, piece: Tetromino, rotation: int, ax: int, ay: int, x: int, y: int)
    requires
        g.wf(),
        g.in_bounds(x, y),
    ensures
        g.locked(piece, rotation, ax, ay).at(x, y) == (if Grid::covers(
            piece.shape,
            rotation,
            ax,
            ay,
            x,
            y,
        ) {
            piece.color
        } else {
            g.at(x, y)
        }),
{
    lemma_offset(g.width, g.height, x, y);
}

/// The colour of a cell after the full rows among `top..bottom` were marked.
pub proof fn lemma_marked_at(g: Grid, top: int, bottom: int, x: int, y: int)
    requires
        g.wf(),
        g.in_bounds(x, y),
    ensures
        g.marked(top, bottom).at(x, y) == (if top <= y < bottom && g.clearable(y) && 0 < x
            < g.width - 1 {
            GREEN
        } else {
            g.at(x, y)
        }),
{
    lemma_offset(g.width, g.height, x, y);
}

/// The colour of a cell after row `row` was removed.
pub proof fn lemma_collapse_row_at(g: Grid, row: int, x: int, y: int)
    requires
        g.wf(),
        g.in_bounds(x, y),
    ensures
        g.collapse_row(row).at(x, y) == (if 0 < x < g.width - 1 && y <= row {
            if y == 0 {
                BLACK
            } else {
                g.at(x, y - 1)
            }
        } else {
            g.at(x, y)
        }),
{
    lemma_offset(g.width, g.height, x, y);
    assert((y - 1) * g.width + x == y * g.width + x - g.width) by (nonlinear_arith);
}

/// The rows of a list as mathematical integers.
pub open spec fn as_ints(rows: Seq<usize>) -> Seq<int> {
    rows.map_values(|row: usize| row as int)
}

/// Rows at or below the floor are never clearable, so looking further down
/// than the floor finds nothing more.
pub proof fn lemma_full_rows_clip(g: Grid, top: int, bottom: int)
    requires
        g.height - 1 <= bottom,
    ensures
        g.full_rows(top, bottom) == g.full_rows(top, g.height - 1),
    decreases bottom - top,
{
    if top < bottom && g.height - 1 < bottom {
        lemma_full_rows_clip(g, top, bottom - 1);
    } else if top >= bottom && top < g.height - 1 {
    } else if top >= bottom {
        lemma_full_rows_empty(g, top, g.height - 1);
    }
}

/// An empty span of rows holds no full row.
pub proof fn lemma_full_rows_empty(g: Grid, top: int, bottom: int)
    requires
        bottom <= top,
    ensures
        g.full_rows(top, bottom) == Seq::<int>::empty(),
{
}

/// A row is listed among the full rows of a span exactly when it lies in the
/// span and is clearable; the list is strictly ascending.
pub proof fn lemma_full_rows_members(g: Grid, top: int, bottom: int)
    ensures
        forall|k: int|
            0 <= k < g.full_rows(top, bottom).len() ==> top <= #[trigger] g.full_rows(
                top,
                bottom,
            )[k] < bottom && g.clearable(g.full_rows(top, bottom)[k]),
        forall|y: int|
            top <= y < bottom && g.clearable(y) ==> g.full_rows(top, bottom).contains(y),
        forall|k: int, l: int|
            0 <= k < l < g.full_rows(top, bottom).len() ==> g.full_rows(top, bottom)[k]
                < g.full_rows(top, bottom)[l],
    decreases bottom - top,
{
    if top < bottom {
        lemma_full_rows_members(g, top, bottom - 1);
        let prev = g.full_rows(top, bottom - 1);
        let all = g.full_rows(top, bottom);
        assert forall|y: int| top <= y < bottom && g.clearable(y) implies all.contains(y) by {
            if y == bottom - 1 {
                assert(all[all.len() - 1] == y);
            } else {
                let k = choose|k: int| 0 <= k < prev.len() && prev[k] == y;
                assert(all[k] == y);
            }
        }
    }
}

/// Where a span holds no full row, marking it changes nothing.
pub proof fn lemma_no_full_rows(g: Grid, top: int, bottom: int)
    requires
        g.wf(),
        g.full_rows(top, bottom).len() == 0,
    ensures
        forall|y: int| top <= y < bottom ==> !g.clearable(y),
        g.marked(top, bottom) == g,
{
    lemma_full_rows_members(g, top, bottom);
    assert forall|y: int| top <= y < bottom implies !g.clearable(y) by {
        if g.clearable(y) {
            assert(g.full_rows(top, bottom).contains(y));
        }
    }
    assert forall|x: int, y: int| g.in_bounds(x, y) implies g.marked(top, bottom).at(x, y) == g.at(
        x,
        y,
    ) by {
        lemma_marked_at(g, top, bottom, x, y);
    }
    lemma_grid_equal(g.marked(top, bottom), g);
}

/// Removing rows keeps the size of the field.
pub proof fn lemma_collapse_rows_size(g: Grid, rows: Seq<int>)
    requires
        g.wf(),
    ensures
        g.collapse_rows(rows).wf(),
        g.collapse_rows(rows).width == g.width,
        g.collapse_rows(rows).height == g.height,
    decreases rows.len(),
{
    if rows.len() > 0 {
        lemma_collapse_rows_size(g, rows.drop_last());
    }
}

/// Removing a row above the floor leaves every boundary cell as it was.
pub proof fn lemma_collapse_row_walls(g: Grid, row: int)
    requires
        g.wf(),
        row < g.height - 1,
    ensures
        forall|x: int, y: int|
            g.in_bounds(x, y) && g.is_boundary(x, y) ==> #[trigger] g.collapse_row(row).at(x, y)
                == g.at(x, y),
        g.walled() ==> g.collapse_row(row).walled(),
{
    assert forall|x: int, y: int| g.in_bounds(x, y) && g.is_boundary(x, y) implies #[trigger] g.collapse_row(
        row,
    ).at(x, y) == g.at(x, y) by {
        lemma_collapse_row_at(g, row, x, y);
    }
    if g.walled() {
        assert forall|x: int, y: int|
            g.collapse_row(row).in_bounds(x, y) && g.collapse_row(row).is_boundary(
                x,
                y,
            ) implies #[trigger] g.collapse_row(row).at(x, y) != BLACK by {
            assert(g.at(x, y) != BLACK);
        }
    }
}

/// Locking a piece keeps the size of the field, and keeps the walls unless a
/// piece of the empty colour is locked onto them.
pub proof fn lemma_locked_walls(g: Grid, piece: Tetromino, rotation: int, ax: int, ay: int)
    requires
        g.wf(),
    ensures
        g.locked(piece, rotation, ax, ay).wf(),
        g.walled() && (piece.color != BLACK || !g.touches_wall(piece.shape, rotation, ax, ay))
            ==> g.locked(piece, rotation, ax, ay).walled(),
{
    let after = g.locked(piece, rotation, ax, ay);
    if g.walled() && (piece.color != BLACK || !g.touches_wall(piece.shape, rotation, ax, ay)) {
        assert forall|x: int, y: int|
            after.in_bounds(x, y) && after.is_boundary(x, y) implies #[trigger] after.at(x, y)
            != BLACK by {
            lemma_locked_at(g, piece, rotation, ax, ay, x, y);
            assert(g.at(x, y) != BLACK);
            if Grid::covers(piece.shape, rotation, ax, ay, x, y) {
                assert(cell_occupied(piece.shape, rotation, x - ax, y - ay));
                assert(g.in_bounds(ax + (x - ax), ay + (y - ay)));
            }
        }
    }
}

/// Locking a piece leaves every row above its frame as it was.
pub proof fn lemma_locked_above(g: Grid, piece: Tetromino, rotation: int, ax: int, ay: int)
    requires
        g.wf(),
    ensures
        forall|x: int, y: int|
            g.in_bounds(x, y) && y < ay ==> #[trigger] g.locked(piece, rotation, ax, ay).at(x, y)
                == g.at(x, y),
{
    assert forall|x: int, y: int| g.in_bounds(x, y) && y < ay implies #[trigger] g.locked(
        piece,
        rotation,
        ax,
        ay,
    ).at(x, y) == g.at(x, y) by {
        lemma_locked_at(g, piece, rotation, ax, ay, x, y);
    }
}

/// Marking full rows keeps the size of the field and its walls.
pub proof fn lemma_marked_walls(g: Grid, top: int, bottom: int)
    requires
        g.wf(),
    ensures
        g.marked(top, bottom).wf(),
        g.walled() ==> g.marked(top, bottom).walled(),
{
    let after = g.marked(top, bottom);
    if g.walled() {
        assert forall|x: int, y: int|
            after.in_bounds(x, y) && after.is_boundary(x, y) implies #[trigger] after.at(x, y)
            != BLACK by {
            lemma_marked_at(g, top, bottom, x, y);
            assert(g.at(x, y) != BLACK);
        }
    }
}

/// Removing rows that all lie above the floor keeps the walls.
pub proof fn lemma_collapse_rows_walls(g: Grid, rows: Seq<int>)
    requires
        g.wf(),
        g.walled(),
        forall|k: int| 0 <= k < rows.len() ==> rows[k] < g.height - 1,
    ensures
        g.collapse_rows(rows).walled(),
    decreases rows.len(),
{
    if rows.len() > 0 {
        lemma_collapse_rows_walls(g, rows.drop_last());
        lemma_collapse_rows_size(g, rows.drop_last());
        lemma_collapse_row_walls(g.collapse_rows(rows.drop_last()), rows.last());
    }
}

/// A span of rows holds no more full rows than rows.
pub proof fn lemma_full_rows_len(g: Grid, top: int, bottom: int)
    ensures
        g.full_rows(top, bottom).len() <= (if top <= bottom {
            bottom - top
        } else {
            0
        }),
    decreases bottom - top,
{
    if top < bottom {
        lemma_full_rows_len(g, top, bottom - 1);
    }
}

/// A piece that lies wholly in the interior occupies no boundary cell.
pub proof fn lemma_inside_clear_of_walls(g: Grid, shape: u16, rotation: int, ax: int, ay: int)
    requires
        g.inside(shape, rotation, ax, ay),
    ensures
        !g.touches_wall(shape, rotation, ax, ay),
{
}

/// Where a piece that keeps to the middle of its frame lies in the interior,
/// its frame sticks out of the field by one column or one row at most.
pub proof fn lemma_inside_bounds(g: Grid, shape: u16, rotation: int, ax: int, ay: int)
    requires
        g.inside(shape, rotation, ax, ay),
        well_shaped(shape, rotation),
    ensures
        -1 <= ax <= g.width - 3,
        -2 <= ay <= g.height - 3,
{
    assert(cell_occupied(shape, rotation, 1, 1) ==> g.is_interior(ax + 1, ay + 1));
    assert(cell_occupied(shape, rotation, 2, 1) ==> g.is_interior(ax + 2, ay + 1));
    assert(cell_occupied(shape, rotation, 1, 2) ==> g.is_interior(ax + 1, ay + 2));
    assert(cell_occupied(shape, rotation, 2, 2) ==> g.is_interior(ax + 2, ay + 2));
}

/// In a walled field, a piece in the interior that fits one cell to the left,
/// to the right or below lies in the interior there too: a step cannot carry
/// it onto a wall or past one.
pub proof fn lemma_inside_after_move(
    g: Grid,
    shape: u16,
    rotation: int,
    ax: int,
    ay: int,
    dx: int,
    dy: int,
)
    requires
        g.wf(),
        g.walled(),
        g.inside(shape, rotation, ax, ay),
        (dx == -1 && dy == 0) || (dx == 1 && dy == 0) || (dx == 0 && dy == 1),
        g.fits(shape, rotation, ax + dx, ay + dy),
    ensures
        g.inside(shape, rotation, ax + dx, ay + dy),
{
    assert forall|col: int, row: int| #[trigger]
        cell_occupied(shape, rotation, col, row) implies g.is_interior(
        ax + dx + col,
        ay + dy + row,
    ) by {
        assert(g.is_interior(ax + col, ay + row));
        assert(g.in_bounds(ax + dx + col, ay + dy + row));
        assert(g.at(ax + dx + col, ay + dy + row) == BLACK);
    }
}

/// In a walled field, a piece whose frame lies on the field and that fits
/// lies in the interior.
pub proof fn lemma_inside_at_spawn(g: Grid, shape: u16, rotation: int, ax: int, ay: int)
    requires
        g.wf(),
        g.walled(),
        0 <= ax,
        ax + 4 <= g.width,
        0 <= ay,
        ay + 4 <= g.height,
        g.fits(shape, rotation, ax, ay),
    ensures
        g.inside(shape, rotation, ax, ay),
{
    assert forall|col: int, row: int| #[trigger]
        cell_occupied(shape, rotation, col, row) implies g.is_interior(ax + col, ay + row) by {
        assert(g.in_bounds(ax + col, ay + row));
        assert(g.at(ax + col, ay + row) == BLACK);
    }
}

/// In a walled field, a piece in the interior that fits where it stands when
/// turned lies in the interior when turned, provided that it keeps to the
/// middle of its frame before and after: no part of it can get past a wall,
/// though the collision test skips what falls outside the field.
pub proof fn lemma_inside_after_turn(
    g: Grid,
    shape: u16,
    rotation: int,
    turned: int,
    ax: int,
    ay: int,
)
    requires
        g.wf(),
        g.walled(),
        0 <= ay,
        g.inside(shape, rotation, ax, ay),
        well_shaped(shape, rotation),
        well_shaped(shape, turned),
        g.fits(shape, turned, ax, ay),
    ensures
        g.inside(shape, turned, ax, ay),
{
    lemma_inside_bounds(g, shape, rotation, ax, ay);
    // No occupied cell of the turned piece on the field is a wall.
    assert forall|col: int, row: int| #[trigger]
        cell_occupied(shape, turned, col, row) && g.in_bounds(
            ax + col,
            ay + row,
        ) implies g.is_interior(ax + col, ay + row) by {
        assert(g.at(ax + col, ay + row) == BLACK);
    }
    assert forall|col: int, row: int| #[trigger]
        cell_occupied(shape, turned, col, row) implies g.is_interior(ax + col, ay + row) by {
        if ax + col < 0 {
            // The frame's left column is off the field: the next column is the wall.
            assert(col == 0 && ax == -1);
            assert(cell_occupied(shape, turned, 1, 0) ==> g.is_interior(ax + 1, ay + 0));
            assert(cell_occupied(shape, turned, 1, 1) ==> g.is_interior(ax + 1, ay + 1));
            assert(cell_occupied(shape, turned, 1, 2) ==> g.is_interior(ax + 1, ay + 2));
            assert(false);
        } else if ax + col >= g.width {
            assert(col == 3 && ax == g.width - 3);
            assert(cell_occupied(shape, turned, 2, 0) ==> g.is_interior(ax + 2, ay + 0));
            assert(cell_occupied(shape, turned, 2, 1) ==> g.is_interior(ax + 2, ay + 1));
            assert(cell_occupied(shape, turned, 2, 2) ==> g.is_interior(ax + 2, ay + 2));
            assert(false);
        } else if ay + row >= g.height {
            assert(row == 3 && ay == g.height - 3);
            assert(cell_occupied(shape, turned, 1, 2) ==> g.is_interior(ax + 1, ay + 2));
            assert(cell_occupied(shape, turned, 2, 2) ==> g.is_interior(ax + 2, ay + 2));
            assert(false);
        }
    }
}

/// Two well-formed grids of the same size that agree on every cell are equal.
pub proof fn lemma_grid_equal(a: Grid, b: Grid)
    requires
        a.wf(),
        b.wf(),
        a.width == b.width,
        a.height == b.height,
        forall|x: int, y: int| a.in_bounds(x, y) ==> a.at(x, y) == b.at(x, y),
    ensures
        a == b,
{
    assert forall|i: int| 0 <= i < a.cells.len() implies a.cells[i] == b.cells[i] by {
        lemma_coords(a.width, a.height, i);
        assert(a.in_bounds(i % a.width, i / a.width));
        assert(a.at(i % a.width, i / a.width) == b.at(i % a.width, i / a.width));
    }
    assert(a.cells =~= b.cells);
}

} // verus!
