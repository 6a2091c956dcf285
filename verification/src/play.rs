//! The mathematical model of a game in progress and of one tick of it.

use vstd::prelude::*;
use vstd::arithmetic::power2::{lemma2_to64, lemma_pow2_pos, lemma_pow2_strictly_increases, pow2};
use crate::grid::{
    lemma_collapse_rows_size, lemma_collapse_rows_walls, lemma_full_rows_len,
    lemma_full_rows_members, lemma_inside_after_move, lemma_inside_after_turn,
    lemma_inside_at_spawn, lemma_inside_clear_of_walls, lemma_locked_above, lemma_locked_walls,
    lemma_marked_walls, lemma_no_full_rows, Grid,
};
use crate::shapes::{lemma_table_well_shaped, spec_tetromino, Tetromino, BLACK, PIECES};

verus! {

/// Ticks between forced descents at the start of a game.
pub const START_SPEED: u32 = 20;

/// The fewest ticks between forced descents that the game ramps down to.
pub const FLOOR_SPEED: u32 = 10;

/// After how many locked pieces the descent gets one tick faster.
pub const RAMP_EVERY: u64 = 50;

/// What every locked piece scores.
pub const LOCK_SCORE: u64 = 25;

/// What the bonus for removed rows is a multiple of.
pub const LINE_SCORE: u64 = 100;

/// How many rows of the field a piece in its frame can reach.
pub const SPAN: usize = 4;

/// How many cells of margin a picture shows on each side of the field, which
/// makes it two cells larger than the field in each dimension.
pub const MARGIN: usize = 1;

/// A key that is held down.
#[derive(Clone, Copy, Debug, PartialEq, Eq, Structural)]
pub enum Input {
    MoveLeft,
    MoveRight,
    SoftDrop,
    RotateRequest,
    Exit,
}

/// What a locked piece scores when `lines` rows are removed with it:
/// 25, and `2^lines * 100` on top where there are any.
pub open spec fn gain(lines: nat) -> nat {
    if lines == 0 {
        LOCK_SCORE as nat
    } else {
        LOCK_SCORE as nat + pow2(lines) * LINE_SCORE as nat
    }
}

/// The picture of a field with a piece over it, as a grid that is wider and
/// higher than the field by the margin on each side. A cell shows the piece
/// where the piece occupies it, else the field, and is empty in the margin.
pub open spec fn picture(grid: Grid, piece: Tetromino, rotation: int, x: int, y: int) -> Grid {
    Grid {
        width: grid.width + 2 * MARGIN,
        height: grid.height + 2 * MARGIN,
        cells: Seq::new(
            ((grid.width + 2 * MARGIN) * (grid.height + 2 * MARGIN)) as nat,
            |i: int|
                {
                    let sx = i % (grid.width + 2 * MARGIN);
                    let sy = i / (grid.width + 2 * MARGIN);
                    if Grid::covers(piece.shape, rotation, x + MARGIN, y + MARGIN, sx, sy) {
                        piece.color
                    } else if grid.in_bounds(sx - MARGIN, sy - MARGIN) {
                        grid.at(sx - MARGIN, sy - MARGIN)
                    } else {
                        BLACK
                    }
                },
        ),
    }
}

/// The pictures that one tick hands to the display.
pub struct Pictures {
    /// The field with the full rows marked, where the tick removed rows.
    pub highlight: Option<Seq<u32>>,
    /// The game as the tick left it.
    pub settled: Seq<u32>,
}

/// A game in progress.
pub struct State {
    /// The field.
    pub grid: Grid,
    /// Which piece of the table is in play.
    pub piece: int,
    /// The quarter turns of the piece in play.
    pub rotation: int,
    /// The column of the left edge of the piece's frame.
    pub x: int,
    /// The row of the top edge of the piece's frame.
    pub y: int,
    /// Ticks between forced descents.
    pub speed: int,
    /// Ticks since the last forced descent.
    pub speed_count: int,
    /// Pieces locked so far.
    pub piece_count: int,
    pub score: int,
    /// Whether the rotate key was up at the last tick.
    pub rotate_hold: bool,
    pub game_over: bool,
}

impl State {
    /// The piece in play.
    pub open spec fn tetromino(self) -> Tetromino {
        spec_tetromino(self.piece)
    }

    /// The column in which pieces enter the field.
    pub open spec fn spawn_x(self) -> int {
        self.grid.width / 2
    }

    /// Whether the piece in play could stand at `(x, y)` turned to `rotation`.
    pub open spec fn fits_at(self, rotation: int, x: int, y: int) -> bool {
        self.grid.fits(self.tetromino().shape, rotation, x, y)
    }

    /// What holds of a game between any two steps of a tick: the field is
    /// walled and large enough for a piece to enter; and, unless the game is
    /// over, the piece in play lies on empty cells wholly inside the walls.
    pub open spec fn coherent(self) -> bool {
        &&& self.grid.wf()
        &&& self.grid.walled()
        &&& self.grid.width <= i32::MAX
        &&& self.grid.height <= i32::MAX
        &&& (self.grid.width + 2 * MARGIN) * (self.grid.height + 2 * MARGIN) <= usize::MAX
        &&& self.spawn_x() + SPAN <= self.grid.width
        &&& SPAN <= self.grid.height
        &&& 0 <= self.piece < PIECES
        &&& 0 <= self.rotation < 4
        &&& FLOOR_SPEED <= self.speed <= START_SPEED
        &&& 0 <= self.speed_count <= self.speed
        &&& 0 <= self.piece_count
        &&& 0 <= self.score
        &&& if self.game_over {
            self.rotation == 0 && self.x == self.spawn_x() && self.y == 0
        } else {
            &&& 0 <= self.y
            &&& self.grid.inside(self.tetromino().shape, self.rotation, self.x, self.y)
            &&& self.fits_at(self.rotation, self.x, self.y)
        }
    }

    /// What holds of a game between two ticks.
    pub open spec fn wf(self) -> bool {
        self.coherent() && self.speed_count < self.speed
    }

    /// The score and the count of pieces leave room for one more piece.
    pub open spec fn has_room(self) -> bool {
        self.piece_count < u64::MAX && self.score + gain(SPAN as nat) <= u64::MAX
    }

    /// The game after one key was handled: a move is made where the piece
    /// fits one cell further, and is dropped without a trace where it does
    /// not. The rotate key and the exit key move nothing.
    pub open spec fn moved(self, key: Input) -> State {
        match key {
            Input::MoveLeft => if self.fits_at(self.rotation, self.x - 1, self.y) {
                State { x: self.x - 1, ..self }
            } else {
                self
            },
            Input::MoveRight => if self.fits_at(self.rotation, self.x + 1, self.y) {
                State { x: self.x + 1, ..self }
            } else {
                self
            },
            Input::SoftDrop => if self.fits_at(self.rotation, self.x, self.y + 1) {
                State { y: self.y + 1, ..self }
            } else {
                self
            },
            _ => self,
        }
    }

    /// The game after the keys were handled one after the other.
    pub open spec fn after_keys(self, keys: Seq<Input>) -> State
        decreases keys.len(),
    {
        if keys.len() == 0 {
            self
        } else {
            self.after_keys(keys.drop_last()).moved(keys.last())
        }
    }

    /// The game after the rotate key was looked at. The piece turns by one
    /// quarter only at the first tick at which the key is down after it was
    /// up, and only if the turned piece fits where the piece stands.
    pub open spec fn turned(self, rotate: bool) -> State {
        if !rotate {
            State { rotate_hold: true, ..self }
        } else if self.rotate_hold && self.fits_at((self.rotation + 1) % 4, self.x, self.y) {
            State { rotation: (self.rotation + 1) % 4, rotate_hold: false, ..self }
        } else {
            State { rotate_hold: false, ..self }
        }
    }

    /// The game after the counter ran and the keys were handled.
    pub open spec fn steered(self, keys: Seq<Input>) -> State {
        State { speed_count: self.speed_count + 1, ..self }.after_keys(keys).turned(
            keys.contains(Input::RotateRequest),
        )
    }

    /// Whether this tick forces the piece down.
    pub open spec fn drop_due(self) -> bool {
        !self.game_over && self.speed_count + 1 == self.speed
    }

    /// Whether this tick locks the piece: a descent is due and, after the keys
    /// were handled, the piece does not fit one row lower.
    pub open spec fn locks(self, keys: Seq<Input>) -> bool {
        self.drop_due() && !self.steered(keys).fits_at(
            self.steered(keys).rotation,
            self.steered(keys).x,
            self.steered(keys).y + 1,
        )
    }

    /// The field with the piece in play locked into it.
    pub open spec fn locked_grid(self) -> Grid {
        self.grid.locked(self.tetromino(), self.rotation, self.x, self.y)
    }

    /// The full rows among those that the piece in play reaches, once it is
    /// locked.
    pub open spec fn lines(self) -> Seq<int> {
        self.locked_grid().full_rows(self.y, self.y + SPAN)
    }

    /// The field with the piece in play locked and the full rows marked.
    pub open spec fn marked_grid(self) -> Grid {
        self.locked_grid().marked(self.y, self.y + SPAN)
    }

    /// The game after the piece in play was locked: the full rows that it
    /// reaches are marked and removed, the piece is counted and scored, every
    /// fiftieth piece makes the descent one tick faster down to the floor, and
    /// piece `next` of the table enters at the top. The game is over where
    /// that piece does not fit.
    pub open spec fn settled(self, next: int) -> State {
        let grid = self.marked_grid().collapse_rows(self.lines());
        State {
            grid,
            piece: next,
            rotation: 0,
            x: self.spawn_x(),
            y: 0,
            speed: if (self.piece_count + 1) % (RAMP_EVERY as int) == 0 && self.speed
                > FLOOR_SPEED {
                self.speed - 1
            } else {
                self.speed
            },
            speed_count: self.speed_count,
            piece_count: self.piece_count + 1,
            score: self.score + gain(self.lines().len()),
            rotate_hold: self.rotate_hold,
            game_over: !grid.fits(spec_tetromino(next).shape, 0, self.spawn_x(), 0),
        }
    }

    /// The game after a forced descent: the piece moves one row down where
    /// it fits there, and is locked where it does not.
    pub open spec fn dropped(self, next: int) -> State {
        if self.fits_at(self.rotation, self.x, self.y + 1) {
            State { y: self.y + 1, ..self }
        } else {
            self.settled(next)
        }
    }

    /// The game after one tick with `keys` held down; `next` is the piece
    /// that enters if the tick locks the piece in play. A game that is over
    /// stays as it is.
    pub open spec fn step(self, keys: Seq<Input>, next: int) -> State {
        if self.game_over {
            self
        } else if self.drop_due() {
            State { speed_count: 0, ..self.steered(keys) }.dropped(next)
        } else {
            self.steered(keys)
        }
    }

    /// The picture of the game.
    pub open spec fn frame(self) -> Seq<u32> {
        picture(self.grid, self.tetromino(), self.rotation, self.x, self.y).cells
    }

    /// The pictures that the tick shows: the game as the tick left it and,
    /// before it, where the tick removed rows, the field with those rows
    /// marked and the piece that enters.
    pub open spec fn pictures(self, keys: Seq<Input>, next: int) -> Pictures {
        Pictures {
            highlight: if self.locks(keys) && self.steered(keys).lines().len() > 0 {
                Some(
                    picture(
                        self.steered(keys).marked_grid(),
                        spec_tetromino(next),
                        0,
                        self.spawn_x(),
                        0,
                    ).cells,
                )
            } else {
                None
            },
            settled: self.step(keys, next).frame(),
        }
    }
}

/// What a locked piece scores, by the number of rows removed with it.
pub proof fn lemma_gain_values()
    ensures
        gain(0) == 25,
        gain(1) == 25 + 200,
        gain(2) == 25 + 400,
        gain(3) == 25 + 800,
        gain(4) == 25 + 1600,
{
    lemma2_to64();
}

/// More rows removed at once never score less.
pub proof fn lemma_gain_monotone(fewer: nat, more: nat)
    requires
        fewer <= more,
    ensures
        gain(fewer) <= gain(more),
{
    if 0 < fewer {
        lemma_pow2_pos(fewer);
        if fewer < more {
            lemma_pow2_strictly_increases(fewer, more);
        }
        assert(pow2(fewer) * 100 <= pow2(more) * 100) by (nonlinear_arith)
            requires
                pow2(fewer) <= pow2(more),
        ;
    }
}

/// Handling a key keeps the game coherent and changes nothing but the place
/// of the piece, which never moves up.
pub proof fn lemma_moved(s: State, key: Input)
    requires
        s.coherent(),
        !s.game_over,
    ensures
        s.moved(key).coherent(),
        s.moved(key) == (State { x: s.moved(key).x, y: s.moved(key).y, ..s }),
        s.y <= s.moved(key).y,
{
    let shape = s.tetromino().shape;
    match key {
        Input::MoveLeft => {
            if s.fits_at(s.rotation, s.x - 1, s.y) {
                lemma_inside_after_move(s.grid, shape, s.rotation, s.x, s.y, -1, 0);
            }
        },
        Input::MoveRight => {
            if s.fits_at(s.rotation, s.x + 1, s.y) {
                lemma_inside_after_move(s.grid, shape, s.rotation, s.x, s.y, 1, 0);
            }
        },
        Input::SoftDrop => {
            if s.fits_at(s.rotation, s.x, s.y + 1) {
                lemma_inside_after_move(s.grid, shape, s.rotation, s.x, s.y, 0, 1);
            }
        },
        _ => {},
    }
}

/// Handling any keys keeps the game coherent and changes nothing but the
/// place of the piece.
pub proof fn lemma_after_keys(s: State, keys: Seq<Input>)
    requires
        s.coherent(),
        !s.game_over,
    ensures
        s.after_keys(keys).coherent(),
        s.after_keys(keys) == (State {
            x: s.after_keys(keys).x,
            y: s.after_keys(keys).y,
            ..s
        }),
        s.y <= s.after_keys(keys).y,
    decreases keys.len(),
{
    if keys.len() > 0 {
        lemma_after_keys(s, keys.drop_last());
        lemma_moved(s.after_keys(keys.drop_last()), keys.last());
    }
}

/// Looking at the rotate key keeps the game coherent and changes nothing but
/// the rotation and the latch.
pub proof fn lemma_turned(s: State, rotate: bool)
    requires
        s.coherent(),
        !s.game_over,
    ensures
        s.turned(rotate).coherent(),
        s.turned(rotate) == (State {
            rotation: s.turned(rotate).rotation,
            rotate_hold: !rotate,
            ..s
        }),
{
    if rotate && s.rotate_hold && s.fits_at((s.rotation + 1) % 4, s.x, s.y) {
        let shape = s.tetromino().shape;
        lemma_table_well_shaped(s.piece, s.rotation);
        lemma_table_well_shaped(s.piece, (s.rotation + 1) % 4);
        lemma_inside_after_turn(s.grid, shape, s.rotation, (s.rotation + 1) % 4, s.x, s.y);
    }
}

/// The input phase of a tick keeps the game coherent; it changes the place
/// and the rotation of the piece, the latch and the counter, and nothing
/// else.
pub proof fn lemma_steered(s: State, keys: Seq<Input>)
    requires
        s.wf(),
        !s.game_over,
    ensures
        s.steered(keys).coherent(),
        s.steered(keys) == (State {
            x: s.steered(keys).x,
            y: s.steered(keys).y,
            rotation: s.steered(keys).rotation,
            rotate_hold: !keys.contains(Input::RotateRequest),
            speed_count: s.speed_count + 1,
            ..s
        }),
{
    let counted = State { speed_count: s.speed_count + 1, ..s };
    lemma_after_keys(counted, keys);
    lemma_turned(counted.after_keys(keys), keys.contains(Input::RotateRequest));
}

/// Locking the piece in play leaves a well-formed game: the walls stand, the
/// piece that enters lies inside them unless the game is over, and the score
/// has not gone down.
pub proof fn lemma_settled(s: State, next: int)
    requires
        s.coherent(),
        !s.game_over,
        s.speed_count == 0,
        0 <= next < PIECES,
    ensures
        s.settled(next).wf(),
        s.settled(next).score >= s.score + LOCK_SCORE,
        s.settled(next).score <= s.score + gain(SPAN as nat),
        s.lines().len() <= SPAN,
        forall|k: int| 0 <= k < s.lines().len() ==> 0 <= #[trigger] s.lines()[k] < s.grid.height - 1,
        s.locked_grid().wf(),
        s.locked_grid().walled(),
        s.marked_grid().wf(),
        s.marked_grid().walled(),
{
    let shape = s.tetromino().shape;
    lemma_inside_clear_of_walls(s.grid, shape, s.rotation, s.x, s.y);
    lemma_locked_walls(s.grid, s.tetromino(), s.rotation, s.x, s.y);
    let locked = s.locked_grid();
    lemma_marked_walls(locked, s.y, s.y + SPAN);
    let marked = s.marked_grid();
    let lines = s.lines();
    lemma_full_rows_len(locked, s.y, s.y + SPAN);
    lemma_full_rows_members(locked, s.y, s.y + SPAN);
    lemma_collapse_rows_size(marked, lines);
    lemma_collapse_rows_walls(marked, lines);
    lemma_gain_monotone(lines.len(), SPAN as nat);
    lemma_gain_monotone(0, lines.len());
    let after = s.settled(next);
    if !after.game_over {
        lemma_inside_at_spawn(after.grid, spec_tetromino(next).shape, 0, s.spawn_x(), 0);
    }
}

/// A tick keeps a game well-formed: in particular the left wall, the right
/// wall and the floor stay fully non-empty whatever is locked and removed.
pub proof fn lemma_step_wf(s: State, keys: Seq<Input>, next: int)
    requires
        s.wf(),
        0 <= next < PIECES,
    ensures
        s.step(keys, next).wf(),
        s.step(keys, next).grid.walled(),
{
    if !s.game_over {
        lemma_steered(s, keys);
        if s.drop_due() {
            let t = State { speed_count: 0, ..s.steered(keys) };
            if t.fits_at(t.rotation, t.x, t.y + 1) {
                lemma_inside_after_move(t.grid, t.tetromino().shape, t.rotation, t.x, t.y, 0, 1);
            } else {
                lemma_settled(t, next);
            }
        }
    }
}

/// The score never goes down; a tick that locks a piece adds what the piece
/// and the rows removed with it score, and any other tick adds nothing.
pub proof fn lemma_step_score(s: State, keys: Seq<Input>, next: int)
    requires
        s.wf(),
        0 <= next < PIECES,
    ensures
        s.step(keys, next).score >= s.score,
        s.locks(keys) ==> s.step(keys, next).score == s.score + gain(
            s.steered(keys).lines().len(),
        ),
        !s.locks(keys) ==> s.step(keys, next).score == s.score,
{
    if !s.game_over {
        lemma_steered(s, keys);
    }
}

/// A tick without keys and without a forced descent leaves the piece where
/// it stands, and there it still fits.
pub proof fn lemma_idle_tick(s: State, next: int)
    requires
        s.wf(),
        !s.game_over,
        !s.drop_due(),
    ensures
        s.step(Seq::empty(), next) == (State {
            speed_count: s.speed_count + 1,
            rotate_hold: true,
            ..s
        }),
        s.step(Seq::empty(), next).fits_at(s.rotation, s.x, s.y),
{
    let keys = Seq::<Input>::empty();
    assert(!keys.contains(Input::RotateRequest));
}

/// Where locking the piece in play completes no row, no row is removed: the
/// field is as the lock left it, and every row above the piece's frame is as
/// it was before the lock.
pub proof fn lemma_no_line_no_change(s: State, next: int)
    requires
        s.grid.wf(),
        s.lines().len() == 0,
    ensures
        s.settled(next).grid == s.locked_grid(),
        s.settled(next).score == s.score + LOCK_SCORE,
        forall|x: int, y: int|
            s.grid.in_bounds(x, y) && y < s.y ==> #[trigger] s.settled(next).grid.at(x, y)
                == s.grid.at(x, y),
{
    lemma_locked_walls(s.grid, s.tetromino(), s.rotation, s.x, s.y);
    lemma_no_full_rows(s.locked_grid(), s.y, s.y + SPAN);
    lemma_locked_above(s.grid, s.tetromino(), s.rotation, s.x, s.y);
}

/// A tick that locks no piece does not depend on the piece that would enter.
pub proof fn lemma_step_without_lock(s: State, keys: Seq<Input>, a: int, b: int)
    requires
        !s.locks(keys),
    ensures
        s.step(keys, a) == s.step(keys, b),
        s.pictures(keys, a) == s.pictures(keys, b),
{
}

} // verus!
