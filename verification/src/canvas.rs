//! A rectangle of colours kept row by row: the storage behind the field and
//! behind the pictures of it.

use vstd::prelude::*;
use crate::grid::{lemma_offset, Grid};

verus! {

/// `w * h` colours; the cell `(x, y)` is kept at `y * w + x`.
pub struct Canvas {
    cells: Vec<u32>,
    w: usize,
    h: usize,
}

impl View for Canvas {
    type V = Grid;

    closed spec fn view(&self) -> Grid {
        Grid { width: self.w as int, height: self.h as int, cells: self.cells@ }
    }
}

impl Canvas {
    /// A canvas of `w` by `h` cells, all of one colour.
    pub fn filled(w: usize, h: usize, color: u32) -> (canvas: Canvas)
        requires
            1 <= w,
            1 <= h,
            w * h <= usize::MAX,
        ensures
            canvas@.wf(),
            canvas@.width == w,
            canvas@.height == h,
            forall|x: int, y: int| canvas@.in_bounds(x, y) ==> #[trigger] canvas@.at(x, y) == color,
    {
        let canvas = Canvas { cells: vec![color; w * h], w, h };
        proof {
            assert forall|x: int, y: int| canvas@.in_bounds(x, y) implies #[trigger] canvas@.at(
                x,
                y,
            ) == color by {
                lemma_offset(w as int, h as int, x, y);
            }
        }
        canvas
    }

    /// The number of columns.
    pub fn width(&self) -> (w: usize)
        ensures
            w == self@.width,
    {
        self.w
    }

    /// The number of rows.
    pub fn height(&self) -> (h: usize)
        ensures
            h == self@.height,
    {
        self.h
    }

    /// The cells, row by row.
    pub fn cells(&self) -> (cells: &Vec<u32>)
        ensures
            cells@ == self@.cells,
    {
        &self.cells
    }

    /// Gives up the canvas for its cells, row by row.
    pub fn into_cells(self) -> (cells: Vec<u32>)
        ensures
            cells@ == self@.cells,
    {
        self.cells
    }

    /// Where the cell `(x, y)` is kept.
    fn offset(&self, x: usize, y: usize) -> (at: usize)
        requires
            self@.wf(),
            self@.in_bounds(x as int, y as int),
        ensures
            at == y * self@.width + x,
            at < self@.cells.len(),
    {
        let cells = self.cells.len();
        proof {
            lemma_offset(self.w as int, self.h as int, x as int, y as int);
            assert(0 <= y * self.w) by (nonlinear_arith);
        }
        y * self.w + x
    }

    /// The colour of the cell `(x, y)`.
    pub fn get(&self, x: usize, y: usize) -> (color: u32)
        requires
            self@.wf(),
            self@.in_bounds(x as int, y as int),
        ensures
            color == self@.at(x as int, y as int),
    {
        let at = self.offset(x, y);
        self.cells[at]
    }

    /// Writes one cell and leaves every other cell as it was.
    pub fn put(&mut self, x: usize, y: usize, color: u32)
        requires
            old(self)@.wf(),
            old(self)@.in_bounds(x as int, y as int),
        ensures
            final(self)@.wf(),
            final(self)@.width == old(self)@.width,
            final(self)@.height == old(self)@.height,
            final(self)@.at(x as int, y as int) == color,
            forall|i: int, j: int|
                old(self)@.in_bounds(i, j) && (i != x || j != y) ==> #[trigger] final(self)@.at(i, j)
                    == old(self)@.at(i, j),
    {
        let at = self.offset(x, y);
        self.cells.set(at, color);
        proof {
            assert forall|i: int, j: int|
                old(self)@.in_bounds(i, j) && (i != x || j != y) implies #[trigger] self@.at(i, j)
                == old(self)@.at(i, j) by {
                lemma_offset(self.w as int, self.h as int, i, j);
                lemma_offset(self.w as int, self.h as int, x as int, y as int);
            }
        }
    }
}

} // verus!
