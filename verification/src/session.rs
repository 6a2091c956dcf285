//! A game in progress: the board, the piece in play, the timers and the
//! score, advanced one tick at a time.

use vstd::prelude::*;
use vstd::arithmetic::power2::lemma2_to64;
use vstd::bits::lemma_u64_shl_is_mul;
use crate::board::Tetris;
use crate::canvas::Canvas;
use crate::chance::random_below;
use crate::grid::{
    as_ints, lemma_fresh_at, lemma_grid_equal, lemma_inside_after_move, lemma_inside_at_spawn,
    lemma_inside_bounds, lemma_offset, Grid,
};
use crate::play::{
    gain, lemma_after_keys, lemma_settled, lemma_steered, lemma_step_without_lock, picture,
    Input, Pictures, State, FLOOR_SPEED, LINE_SCORE, LOCK_SCORE, MARGIN, RAMP_EVERY, SPAN,
    START_SPEED,
};
use crate::shapes::{
    cell_occupied, lemma_first_piece, lemma_listed_all, lemma_listed_next, lemma_table_well_shaped,
    listed, occupied_cells, spec_tetromino, tetromino, Tetromino, BLACK, PIECES,
};

verus! {

/// The pictures that one tick hands to the display, each row by row.
pub struct Frames {
    /// Where the tick removed rows: the field with those rows still there
    /// and marked. It is to be shown first, and held for a while.
    pub highlight: Option<Vec<u32>>,
    /// The game as the tick left it.
    pub settled: Vec<u32>,
}

impl View for Frames {
    type V = Pictures;

    open spec fn view(&self) -> Pictures {
        Pictures {
            highlight: match self.highlight {
                Some(pixels) => Some(pixels@),
                None => None,
            },
            settled: self.settled@,
        }
    }
}

/// A game in progress.
pub struct Session {
    board: Tetris,
    piece: usize,
    x: i32,
    y: i32,
    speed: u32,
    speed_count: u32,
    piece_count: u64,
    score: u64,
    rotate_hold: bool,
    game_over: bool,
}

impl View for Session {
    type V = State;

    closed spec fn view(&self) -> State {
        State {
            grid: self.board@,
            piece: self.piece as int,
            rotation: self.board.spec_rotation(),
            x: self.x as int,
            y: self.y as int,
            speed: self.speed as int,
            speed_count: self.speed_count as int,
            piece_count: self.piece_count as int,
            score: self.score as int,
            rotate_hold: self.rotate_hold,
            game_over: self.game_over,
        }
    }
}

/// Whether a game can be played on a field of `w` by `h` cells: the frame of
/// a piece that enters lies on the field, the sides fit the coordinate type,
/// and a picture of the field fits in memory.
pub open spec fn playable(w: int, h: int) -> bool {
    &&& w / 2 + SPAN <= w
    &&& SPAN <= h
    &&& w <= i32::MAX
    &&& h <= i32::MAX
    &&& (w + 2 * MARGIN) * (h + 2 * MARGIN) <= usize::MAX
}

/// The game at its start: a fresh field, the first piece of the table at the
/// top, no score. It is over at once where that piece does not fit.
pub open spec fn opening(w: int, h: int) -> State {
    State {
        grid: Grid::fresh(w, h),
        piece: 0,
        rotation: 0,
        x: w / 2,
        y: 0,
        speed: START_SPEED as int,
        speed_count: 0,
        piece_count: 0,
        score: 0,
        rotate_hold: true,
        game_over: !Grid::fresh(w, h).fits(spec_tetromino(0).shape, 0, w / 2, 0),
    }
}

/// On a field on which a game can be played the game starts well-formed. It
/// starts over only on a field of four rows, where the first piece stands on
/// the floor.
pub proof fn lemma_opening(w: int, h: int)
    requires
        playable(w, h),
    ensures
        opening(w, h).wf(),
        opening(w, h).game_over <==> h == SPAN,
{
    let grid = Grid::fresh(w, h);
    let shape = spec_tetromino(0).shape;
    lemma_fresh_at(w, h, 0, 0);
    assert(grid.walled()) by {
        assert forall|x: int, y: int|
            grid.in_bounds(x, y) && grid.is_boundary(x, y) implies #[trigger] grid.at(x, y)
            != BLACK by {
            lemma_fresh_at(w, h, x, y);
        }
    }
    if h == SPAN {
        lemma_first_piece(1, 3);
        lemma_fresh_at(w, h, w / 2 + 1, 3);
        assert(grid.in_bounds(w / 2 + 1, 0int + 3));
    } else {
        assert forall|col: int, row: int| #[trigger]
            cell_occupied(shape, 0, col, row) && grid.in_bounds(
                w / 2 + col,
                0int + row,
            ) implies grid.at(w / 2 + col, 0int + row) == BLACK by {
            lemma_first_piece(col, row);
            lemma_fresh_at(w, h, w / 2 + col, 0int + row);
        }
    }
    if !opening(w, h).game_over {
        lemma_inside_at_spawn(grid, shape, 0, w / 2, 0);
    }
}

/// The colour of a cell of a picture.
pub proof fn lemma_picture_at(
    grid: Grid,
    piece: Tetromino,
    rotation: int,
    x: int,
    y: int,
    sx: int,
    sy: int,
)
    requires
        grid.wf(),
        0 <= sx < grid.width + 2 * MARGIN,
        0 <= sy < grid.height + 2 * MARGIN,
    ensures
        picture(grid, piece, rotation, x, y).wf(),
        picture(grid, piece, rotation, x, y).at(sx, sy) == (if Grid::covers(
            piece.shape,
            rotation,
            x + MARGIN,
            y + MARGIN,
            sx,
            sy,
        ) {
            piece.color
        } else if grid.in_bounds(sx - MARGIN, sy - MARGIN) {
            grid.at(sx - MARGIN, sy - MARGIN)
        } else {
            BLACK
        }),
{
    lemma_offset(grid.width + 2 * MARGIN, grid.height + 2 * MARGIN, sx, sy);
    assert(0 <= (grid.width + 2 * MARGIN) * (grid.height + 2 * MARGIN)) by (nonlinear_arith)
        requires
            0 <= grid.width,
            0 <= grid.height,
    ;
}

/// Paints the picture of `board` with `piece` over it at `(x, y)`.
fn compose(board: &Tetris, piece: &Tetromino, x: i32, y: i32) -> (pixels: Vec<u32>)
    requires
        board.wf(),
        (board@.width + 2 * MARGIN) * (board@.height + 2 * MARGIN) <= usize::MAX,
    ensures
        pixels@ == picture(board@, *piece, board.spec_rotation(), x as int, y as int).cells,
{
    let w = board.width();
    let h = board.height();
    let sw = w + 2 * MARGIN;
    let sh = h + 2 * MARGIN;
    let ghost grid = board@;
    let ghost rot = board.spec_rotation();
    let mut canvas = Canvas::filled(sw, sh, BLACK);
    let mut cx: usize = 0;
    while cx < w
        invariant
            board.wf(),
            grid == board@,
            w == grid.width,
            h == grid.height,
            canvas@.wf(),
            canvas@.width == w + 2 * MARGIN,
            canvas@.height == h + 2 * MARGIN,
            cx <= w,
            forall|i: int, j: int|
                canvas@.in_bounds(i, j) ==> #[trigger] canvas@.at(i, j) == (if grid.in_bounds(
                    i - MARGIN,
                    j - MARGIN,
                ) && i - MARGIN < cx {
                    grid.at(i - MARGIN, j - MARGIN)
                } else {
                    BLACK
                }),
        decreases w - cx,
    {
        let mut cy: usize = 0;
        while cy < h
            invariant
                board.wf(),
                grid == board@,
                w == grid.width,
                h == grid.height,
                canvas@.wf(),
                canvas@.width == w + 2 * MARGIN,
                canvas@.height == h + 2 * MARGIN,
                cx < w,
                cy <= h,
                forall|i: int, j: int|
                    canvas@.in_bounds(i, j) ==> #[trigger] canvas@.at(i, j) == (if grid.in_bounds(
                        i - MARGIN,
                        j - MARGIN,
                    ) && (i - MARGIN < cx || (i - MARGIN == cx && j - MARGIN < cy)) {
                        grid.at(i - MARGIN, j - MARGIN)
                    } else {
                        BLACK
                    }),
            decreases h - cy,
        {
            let color = board.cell_at(cx, cy);
            canvas.put(cx + MARGIN, cy + MARGIN, color);
            cy += 1;
        }
        cx += 1;
    }
    let cells = board.pos(piece);
    let mut k: usize = 0;
    while k < cells.len()
        invariant
            grid.wf(),
            grid.width <= i32::MAX,
            grid.height <= i32::MAX,
            sw == grid.width + 2 * MARGIN,
            sh == grid.height + 2 * MARGIN,
            canvas@.wf(),
            canvas@.width == sw,
            canvas@.height == sh,
            cells@ == occupied_cells(piece.shape, rot),
            k <= cells@.len(),
            forall|i: int, j: int|
                canvas@.in_bounds(i, j) ==> #[trigger] canvas@.at(i, j) == (if listed(
                    cells@,
                    k as int,
                    i - x - MARGIN,
                    j - y - MARGIN,
                ) {
                    piece.color
                } else if grid.in_bounds(i - MARGIN, j - MARGIN) {
                    grid.at(i - MARGIN, j - MARGIN)
                } else {
                    BLACK
                }),
        decreases cells@.len() - k,
    {
        let (px, py) = cells[k];
        let sx: i64 = x as i64 + px as i64 + MARGIN as i64;
        let sy: i64 = y as i64 + py as i64 + MARGIN as i64;
        let ghost mid = canvas@;
        if sx >= 0 && sx < sw as i64 && sy >= 0 && sy < sh as i64 {
            canvas.put(sx as usize, sy as usize, piece.color);
        }
        proof {
            assert forall|i: int, j: int| canvas@.in_bounds(i, j) implies #[trigger] canvas@.at(
                i,
                j,
            ) == (if listed(cells@, k + 1, i - x - MARGIN, j - y - MARGIN) {
                piece.color
            } else if grid.in_bounds(i - MARGIN, j - MARGIN) {
                grid.at(i - MARGIN, j - MARGIN)
            } else {
                BLACK
            }) by {
                lemma_listed_next(cells@, k as int, i - x - MARGIN, j - y - MARGIN);
                assert(mid.in_bounds(i, j));
            }
        }
        k += 1;
    }
    proof {
        let target = picture(grid, *piece, rot, x as int, y as int);
        assert forall|i: int, j: int| canvas@.in_bounds(i, j) implies canvas@.at(i, j)
            == target.at(i, j) by {
            lemma_picture_at(grid, *piece, rot, x as int, y as int, i, j);
            lemma_listed_all(piece.shape, rot, i - x - MARGIN, j - y - MARGIN);
        }
        lemma_picture_at(grid, *piece, rot, x as int, y as int, 0, 0);
        lemma_grid_equal(canvas@, target);
    }
    canvas.into_cells()
}

/// What a locked piece scores when `lines` rows are removed with it.
pub fn reward(lines: usize) -> (points: u64)
    requires
        lines <= SPAN,
    ensures
        points == gain(lines as nat),
{
    if lines == 0 {
        LOCK_SCORE
    } else {
        proof {
            lemma2_to64();
            lemma_u64_shl_is_mul(1u64, lines as u64);
        }
        LOCK_SCORE + (1u64 << (lines as u64)) * LINE_SCORE
    }
}

/// A key is among the first `i + 1` keys when it is among the first `i` or
/// is the next one.
proof fn lemma_held(keys: Seq<Input>, i: int, key: Input)
    requires
        0 <= i < keys.len(),
    ensures
        keys.take(i + 1).contains(key) == (keys.take(i).contains(key) || keys[i] == key),
        keys.take(i + 1).drop_last() == keys.take(i),
        keys.take(i + 1).last() == keys[i],
{
    let shorter = keys.take(i);
    let longer = keys.take(i + 1);
    assert(longer.drop_last() =~= shorter);
    if shorter.contains(key) {
        let k = choose|k: int| 0 <= k < shorter.len() && shorter[k] == key;
        assert(longer[k] == key);
    }
    if keys[i] == key {
        assert(longer[i] == key);
    }
    if longer.contains(key) {
        let k = choose|k: int| 0 <= k < longer.len() && longer[k] == key;
        if k < i {
            assert(shorter[k] == key);
        }
    }
}

impl Session {
    /// What holds of a game between two ticks.
    pub open spec fn wf(&self) -> bool {
        self@.wf()
    }

    /// A game at its start on a field of `w` by `h` cells, where one can be
    /// played on such a field.
    pub fn new(w: usize, h: usize) -> (session: Option<Session>)
        ensures
            session is Some <==> playable(w as int, h as int),
            session matches Some(s) ==> s.wf() && s@ == opening(w as int, h as int),
    {
        if w > i32::MAX as usize || h > i32::MAX as usize || h < SPAN || w / 2 + SPAN > w {
            return None;
        }
        if (w + 2 * MARGIN).checked_mul(h + 2 * MARGIN).is_none() {
            return None;
        }
        proof {
            assert(w * h <= (w + 2 * MARGIN) * (h + 2 * MARGIN)) by (nonlinear_arith);
        }
        let board = Tetris::new(w, h);
        let first = tetromino(0);
        let x = (w / 2) as i32;
        let fits = board.does_piece_fit(&first, x, 0);
        let session = Session {
            board,
            piece: 0,
            x,
            y: 0,
            speed: START_SPEED,
            speed_count: 0,
            piece_count: 0,
            score: 0,
            rotate_hold: true,
            game_over: !fits,
        };
        proof {
            if fits {
                lemma_inside_at_spawn(session@.grid, first.shape, 0, x as int, 0);
            }
        }
        Some(session)
    }

    /// The board.
    pub fn board(&self) -> (board: &Tetris)
        ensures
            board@ == self@.grid,
            board.spec_rotation() == self@.rotation,
    {
        &self.board
    }

    /// Which piece of the table is in play.
    pub fn piece(&self) -> (which: usize)
        ensures
            which == self@.piece,
    {
        self.piece
    }

    /// Where the top-left corner of the frame of the piece in play stands.
    pub fn position(&self) -> (at: (i32, i32))
        ensures
            at.0 == self@.x,
            at.1 == self@.y,
    {
        (self.x, self.y)
    }

    /// The score.
    pub fn score(&self) -> (score: u64)
        ensures
            score == self@.score,
    {
        self.score
    }

    /// How many pieces were locked.
    pub fn piece_count(&self) -> (count: u64)
        ensures
            count == self@.piece_count,
    {
        self.piece_count
    }

    /// Ticks between forced descents.
    pub fn speed(&self) -> (speed: u32)
        ensures
            speed == self@.speed,
    {
        self.speed
    }

    /// Whether the game is over.
    pub fn is_over(&self) -> (over: bool)
        ensures
            over == self@.game_over,
    {
        self.game_over
    }

    /// Whether the score and the count of pieces leave room for one more
    /// piece.
    pub fn has_room(&self) -> (room: bool)
        ensures
            room == self@.has_room(),
    {
        self.piece_count < u64::MAX && self.score <= u64::MAX - reward(SPAN)
    }

    /// Whether the game loop is to end: the game is over or the exit key is
    /// held down.
    pub fn should_stop(&self, keys: &Vec<Input>) -> (stop: bool)
        ensures
            stop == (self@.game_over || keys@.contains(Input::Exit)),
    {
        if self.game_over {
            return true;
        }
        let mut i: usize = 0;
        while i < keys.len()
            invariant
                i <= keys@.len(),
                forall|k: int| 0 <= k < i ==> keys@[k] != Input::Exit,
            decreases keys@.len() - i,
        {
            if keys[i] == Input::Exit {
                return true;
            }
            i += 1;
        }
        false
    }

    /// Locks the piece in play, marks and removes the full rows that it
    /// reaches, counts and scores it, and lets piece `next` of the table
    /// enter. Hands back the picture of the field with the rows marked where
    /// there are any.
    fn settle(&mut self, next: usize) -> (highlight: Option<Vec<u32>>)
        requires
            old(self)@.coherent(),
            !old(self)@.game_over,
            old(self)@.speed_count == 0,
            old(self)@.has_room(),
            next < PIECES,
        ensures
            final(self).wf(),
            final(self)@ == old(self)@.settled(next as int),
            highlight is Some <==> old(self)@.lines().len() > 0,
            highlight matches Some(pixels) ==> pixels@ == picture(
                old(self)@.marked_grid(),
                spec_tetromino(next as int),
                0,
                old(self)@.spawn_x(),
                0,
            ).cells,
    {
        let ghost start = self@;
        proof {
            lemma_settled(start, next as int);
            lemma_table_well_shaped(start.piece, start.rotation);
            lemma_inside_bounds(
                start.grid,
                start.tetromino().shape,
                start.rotation,
                start.x,
                start.y,
            );
        }
        let piece = tetromino(self.piece);
        self.board.lock_piece(&piece, self.x, self.y);
        self.piece_count = self.piece_count + 1;
        if self.piece_count % RAMP_EVERY == 0 && self.speed > FLOOR_SPEED {
            self.speed = self.speed - 1;
        }
        let top = self.y as usize;
        let rows = self.board.detect_full_rows(top, top + SPAN);
        proof {
            assert(as_ints(rows@).len() == rows@.len());
            assert forall|k: int| 0 <= k < rows@.len() implies rows@[k] < start.grid.height
                - 1 by {
                assert(as_ints(rows@)[k] == rows@[k] as int);
                assert(start.lines()[k] < start.grid.height - 1);
            }
        }
        self.score = self.score + reward(rows.len());
        let entering = tetromino(next);
        self.piece = next;
        self.x = (self.board.width() / 2) as i32;
        self.y = 0;
        self.board.set_rotation(0);
        let highlight = if rows.len() > 0 {
            Some(compose(&self.board, &entering, self.x, self.y))
        } else {
            None
        };
        self.board.collapse_rows(&rows);
        self.game_over = !self.board.does_piece_fit(&entering, self.x, self.y);
        highlight
    }

    /// One tick, with the piece that enters either given or drawn when the
    /// tick comes to lock the piece in play. Hands back the pictures and the
    /// piece that was used.
    fn advance(&mut self, keys: &Vec<Input>, given: Option<usize>) -> (out: (Frames, usize))
        requires
            old(self).wf(),
            old(self)@.has_room(),
            given matches Some(n) ==> n < PIECES,
        ensures
            final(self).wf(),
            out.1 < PIECES,
            given matches Some(n) ==> out.1 == n,
            final(self)@ == old(self)@.step(keys@, out.1 as int),
            out.0@ == old(self)@.pictures(keys@, out.1 as int),
    {
        let mut next: usize = match given {
            Some(n) => n,
            None => 0,
        };
        if self.game_over {
            let settled = self.frame();
            return (Frames { highlight: None, settled }, next);
        }
        let ghost start = self@;
        let piece = tetromino(self.piece);
        self.speed_count = self.speed_count + 1;
        let force = self.speed_count == self.speed;
        let ghost counted = self@;
        let mut rotate = false;
        let mut i: usize = 0;
        proof {
            assert(keys@.take(0) =~= Seq::<Input>::empty());
        }
        while i < keys.len()
            invariant
                i <= keys@.len(),
                counted.coherent(),
                !counted.game_over,
                piece == counted.tetromino(),
                self@ == counted.after_keys(keys@.take(i as int)),
                rotate == keys@.take(i as int).contains(Input::RotateRequest),
            decreases keys@.len() - i,
        {
            proof {
                lemma_after_keys(counted, keys@.take(i as int));
                lemma_table_well_shaped(self@.piece, self@.rotation);
                lemma_inside_bounds(self@.grid, piece.shape, self@.rotation, self@.x, self@.y);
                lemma_held(keys@, i as int, Input::RotateRequest);
            }
            match keys[i] {
                Input::MoveLeft => {
                    if self.board.does_piece_fit(&piece, self.x - 1, self.y) {
                        self.x = self.x - 1;
                    }
                },
                Input::MoveRight => {
                    if self.board.does_piece_fit(&piece, self.x + 1, self.y) {
                        self.x = self.x + 1;
                    }
                },
                Input::SoftDrop => {
                    if self.board.does_piece_fit(&piece, self.x, self.y + 1) {
                        self.y = self.y + 1;
                    }
                },
                Input::RotateRequest => {
                    rotate = true;
                },
                Input::Exit => {},
            }
            i += 1;
        }
        proof {
            assert(keys@.take(i as int) =~= keys@);
            lemma_after_keys(counted, keys@);
            lemma_steered(start, keys@);
        }
        if rotate {
            if self.rotate_hold {
                let current = self.board.rotation();
                self.board.set_rotation((current + 1) % 4);
                if !self.board.does_piece_fit(&piece, self.x, self.y) {
                    self.board.set_rotation(current);
                }
            }
            self.rotate_hold = false;
        } else {
            self.rotate_hold = true;
        }
        assert(self@ == start.steered(keys@));
        let mut highlight: Option<Vec<u32>> = None;
        if force {
            self.speed_count = 0;
            proof {
                lemma_table_well_shaped(self@.piece, self@.rotation);
                lemma_inside_bounds(self@.grid, piece.shape, self@.rotation, self@.x, self@.y);
            }
            if self.board.does_piece_fit(&piece, self.x, self.y + 1) {
                proof {
                    lemma_inside_after_move(
                        self@.grid,
                        piece.shape,
                        self@.rotation,
                        self@.x,
                        self@.y,
                        0,
                        1,
                    );
                }
                self.y = self.y + 1;
            } else {
                if given.is_none() {
                    next = random_below(PIECES);
                }
                highlight = self.settle(next);
            }
        }
        let settled = self.frame();
        (Frames { highlight, settled }, next)
    }

    /// One tick with `keys` held down, in the order in which they are to be
    /// handled; `next` is the piece of the table that enters if the tick
    /// locks the piece in play.
    pub fn tick_with(&mut self, keys: &Vec<Input>, next: usize) -> (frames: Frames)
        requires
            old(self).wf(),
            old(self)@.has_room(),
            next < PIECES,
        ensures
            final(self).wf(),
            final(self)@ == old(self)@.step(keys@, next as int),
            frames@ == old(self)@.pictures(keys@, next as int),
    {
        self.advance(keys, Some(next)).0
    }

    /// One tick with `keys` held down, in the order in which they are to be
    /// handled. If the tick locks the piece in play, the piece that enters
    /// is drawn at random from the table; else nothing is drawn.
    pub fn tick(&mut self, keys: &Vec<Input>) -> (frames: Frames)
        requires
            old(self).wf(),
            old(self)@.has_room(),
        ensures
            final(self).wf(),
            exists|next: int|
                0 <= next < PIECES && final(self)@ == #[trigger] old(self)@.step(keys@, next)
                    && frames@ == old(self)@.pictures(keys@, next),
            !old(self)@.locks(keys@) ==> final(self)@ == old(self)@.step(keys@, 0) && frames@
                == old(self)@.pictures(keys@, 0),
    {
        let ghost start = self@;
        let out = self.advance(keys, None);
        proof {
            if !start.locks(keys@) {
                lemma_step_without_lock(start, keys@, out.1 as int, 0);
            }
            assert(self@ == start.step(keys@, out.1 as int));
        }
        out.0
    }

    /// The picture of the game, row by row: the field with the piece in
    /// play over it and a margin around it.
    pub fn frame(&self) -> (pixels: Vec<u32>)
        requires
            self.wf(),
        ensures
            pixels@ == self@.frame(),
    {
        let piece = tetromino(self.piece);
        compose(&self.board, &piece, self.x, self.y)
    }
}

} // verus!
