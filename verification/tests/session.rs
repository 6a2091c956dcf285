use tetris::play::Input;
use tetris::session::{reward, Frames, Session};
use tetris::shapes::{tetromino, BLACK, GREEN, GREY};

const I: usize = 0;
const O: usize = 3;
const SCREEN_WIDTH: usize = 14;
const SCREEN_HEIGHT: usize = 20;

fn start() -> Session {
    Session::new(12, 18).unwrap()
}

fn pixel(frame: &Vec<u32>, x: usize, y: usize) -> u32 {
    frame[(y + 1) * SCREEN_WIDTH + (x + 1)]
}

fn keys(key: Input) -> Vec<Input> {
    vec![key]
}

/// Steers the piece in play to column `target` after `turns` quarter turns,
/// drops it, and hands back the pictures of the tick that locked it.
fn play_piece(session: &mut Session, target: i32, turns: u32, next: usize) -> Frames {
    let count = session.piece_count();
    for _ in 0..turns {
        let frames = session.tick_with(&keys(Input::RotateRequest), next);
        if session.piece_count() != count {
            return frames;
        }
        let frames = session.tick_with(&vec![], next);
        if session.piece_count() != count {
            return frames;
        }
    }
    for _ in 0..1000 {
        let (x, _) = session.position();
        let held = if x > target {
            keys(Input::MoveLeft)
        } else if x < target {
            keys(Input::MoveRight)
        } else {
            keys(Input::SoftDrop)
        };
        let frames = session.tick_with(&held, next);
        if session.piece_count() != count {
            return frames;
        }
    }
    panic!("the piece was never locked");
}

fn assert_walls(session: &Session) {
    let board = session.board();
    for y in 0..board.height() {
        assert_ne!(board.cell_at(0, y), BLACK);
        assert_ne!(board.cell_at(board.width() - 1, y), BLACK);
    }
    for x in 0..board.width() {
        assert_ne!(board.cell_at(x, board.height() - 1), BLACK);
    }
}

#[test]
fn game_starts_with_the_first_piece_at_the_top() {
    let session = start();
    assert_eq!(session.piece(), I);
    assert_eq!(session.position(), (6, 0));
    assert_eq!(session.score(), 0);
    assert_eq!(session.piece_count(), 0);
    assert_eq!(session.speed(), 20);
    assert!(!session.is_over());
    assert!(session.has_room());
    assert_eq!(session.board().rotation(), 0);
    assert_eq!(session.board().width(), 12);
    assert_eq!(session.board().height(), 18);
    assert!(session.board().does_piece_fit(&tetromino(I), 6, 0));
}

#[test]
fn game_needs_a_board_that_holds_the_entering_frame() {
    assert!(Session::new(12, 18).is_some());
    assert!(Session::new(7, 4).is_some());
    assert!(Session::new(8, 5).is_some());
    assert!(Session::new(6, 18).is_none());
    assert!(Session::new(0, 0).is_none());
    assert!(Session::new(1, 1).is_none());
    assert!(Session::new(12, 3).is_none());
    assert!(Session::new(usize::MAX, 18).is_none());
    assert!(Session::new(12, usize::MAX).is_none());
    assert!(Session::new(i32::MAX as usize + 1, 18).is_none());
}

#[test]
fn game_on_four_rows_is_over_at_once() {
    let session = Session::new(12, 4).unwrap();
    assert!(session.is_over());
    let playable = Session::new(12, 5).unwrap();
    assert!(!playable.is_over());
    let narrow = Session::new(7, 5).unwrap();
    assert!(!narrow.is_over());
    assert_eq!(narrow.position(), (3, 0));
}

#[test]
fn moves_are_made_where_the_piece_fits() {
    let mut session = start();
    session.tick_with(&keys(Input::MoveLeft), I);
    assert_eq!(session.position(), (5, 0));
    session.tick_with(&keys(Input::MoveRight), I);
    session.tick_with(&keys(Input::MoveRight), I);
    assert_eq!(session.position(), (7, 0));
    session.tick_with(&keys(Input::SoftDrop), I);
    assert_eq!(session.position(), (7, 1));
    session.tick_with(&keys(Input::Exit), I);
    assert_eq!(session.position(), (7, 1));
    assert_eq!(session.score(), 0);
}

#[test]
fn blocked_moves_do_nothing() {
    let mut session = start();
    for _ in 0..10 {
        session.tick_with(&keys(Input::MoveLeft), I);
    }
    assert_eq!(session.position(), (0, 0));
    let mut session = start();
    for _ in 0..10 {
        session.tick_with(&keys(Input::MoveRight), I);
    }
    assert_eq!(session.position(), (9, 0));
    let mut session = start();
    for _ in 0..19 {
        session.tick_with(&keys(Input::SoftDrop), I);
    }
    assert_eq!(session.position(), (6, 13));
    assert_eq!(session.piece_count(), 0);
}

#[test]
fn keys_are_handled_in_the_order_given() {
    let mut session = start();
    session.tick_with(&vec![Input::SoftDrop, Input::MoveLeft, Input::MoveLeft], I);
    assert_eq!(session.position(), (4, 1));
    session.tick_with(&vec![Input::MoveLeft, Input::MoveRight], I);
    assert_eq!(session.position(), (4, 1));
    let mut session = start();
    for _ in 0..6 {
        session.tick_with(&keys(Input::MoveLeft), I);
    }
    session.tick_with(&vec![Input::MoveLeft, Input::MoveRight], I);
    assert_eq!(session.position(), (1, 0));
    session.tick_with(&keys(Input::MoveLeft), I);
    session.tick_with(&vec![Input::MoveRight, Input::MoveLeft], I);
    assert_eq!(session.position(), (0, 0));
}

#[test]
fn held_rotate_key_turns_the_piece_once() {
    let mut session = start();
    session.tick_with(&keys(Input::RotateRequest), I);
    assert_eq!(session.board().rotation(), 1);
    session.tick_with(&keys(Input::RotateRequest), I);
    session.tick_with(&keys(Input::RotateRequest), I);
    assert_eq!(session.board().rotation(), 1);
    session.tick_with(&vec![], I);
    session.tick_with(&keys(Input::RotateRequest), I);
    assert_eq!(session.board().rotation(), 2);
    session.tick_with(&vec![], I);
    session.tick_with(&keys(Input::RotateRequest), I);
    assert_eq!(session.board().rotation(), 3);
    session.tick_with(&vec![], I);
    session.tick_with(&keys(Input::RotateRequest), I);
    assert_eq!(session.board().rotation(), 0);
    assert_eq!(session.position(), (6, 0));
}

#[test]
fn rotation_that_does_not_fit_is_taken_back() {
    let mut session = start();
    for _ in 0..6 {
        session.tick_with(&keys(Input::MoveLeft), I);
    }
    assert_eq!(session.position(), (0, 0));
    session.tick_with(&keys(Input::RotateRequest), I);
    assert_eq!(session.board().rotation(), 0);
    assert_eq!(session.position(), (0, 0));
    session.tick_with(&keys(Input::MoveRight), I);
    session.tick_with(&keys(Input::RotateRequest), I);
    assert_eq!(session.board().rotation(), 1);
}

#[test]
fn move_and_rotate_in_one_tick_moves_first() {
    let mut session = start();
    for _ in 0..6 {
        session.tick_with(&keys(Input::MoveLeft), I);
    }
    session.tick_with(&vec![Input::RotateRequest, Input::MoveRight], I);
    assert_eq!(session.position(), (1, 0));
    assert_eq!(session.board().rotation(), 1);
}

#[test]
fn piece_is_forced_down_every_twenty_ticks() {
    let mut session = start();
    for _ in 0..19 {
        session.tick_with(&vec![], I);
        assert_eq!(session.position(), (6, 0));
    }
    session.tick_with(&vec![], I);
    assert_eq!(session.position(), (6, 1));
    for _ in 0..19 {
        session.tick_with(&vec![], I);
        assert_eq!(session.position(), (6, 1));
    }
    session.tick_with(&vec![], I);
    assert_eq!(session.position(), (6, 2));
}

#[test]
fn piece_locks_one_row_above_the_floor() {
    let mut session = start();
    let mut ticks = 0;
    while session.piece_count() == 0 {
        let (_, y) = session.position();
        assert!(y <= 13);
        session.tick_with(&vec![], O);
        ticks += 1;
    }
    assert_eq!(ticks, 280);
    let board = session.board();
    for y in 0..17 {
        let expected = if y >= 13 { 0x0B_AA_88 } else { BLACK };
        assert_eq!(board.cell_at(7, y), expected);
    }
    for x in 0..12 {
        assert_eq!(board.cell_at(x, 17), GREY);
    }
    assert_eq!(session.score(), 25);
    assert_eq!(session.piece(), O);
    assert_eq!(session.position(), (6, 0));
    assert!(!session.is_over());
}

#[test]
fn game_ends_when_the_entering_piece_does_not_fit() {
    let mut session = start();
    for locked in 1..=4 {
        assert!(!session.is_over());
        play_piece(&mut session, 6, 0, I);
        assert_eq!(session.piece_count(), locked);
    }
    assert!(session.is_over());
    assert_eq!(session.score(), 100);
    assert_eq!(session.position(), (6, 0));
    let board = session.board().cells().clone();
    let frame = session.frame();
    for _ in 0..50 {
        let frames = session.tick_with(&vec![Input::MoveLeft, Input::RotateRequest], O);
        assert!(frames.highlight.is_none());
        assert_eq!(frames.settled, frame);
        assert!(session.is_over());
        assert_eq!(session.board().cells(), &board);
        assert_eq!(session.score(), 100);
        assert_eq!(session.piece_count(), 4);
        assert_eq!(session.position(), (6, 0));
        assert_eq!(session.piece(), I);
    }
    assert!(session.should_stop(&vec![]));
}

#[test]
fn reward_is_twenty_five_and_a_bonus_that_doubles() {
    assert_eq!(reward(0), 25);
    assert_eq!(reward(1), 25 + 200);
    assert_eq!(reward(2), 25 + 400);
    assert_eq!(reward(3), 25 + 800);
    assert_eq!(reward(4), 25 + 1600);
}

#[test]
fn single_line_clear_adds_225() {
    let mut session = start();
    play_piece(&mut session, 1, 1, I);
    assert_eq!(session.score(), 25);
    play_piece(&mut session, 5, 1, O);
    assert_eq!(session.score(), 50);
    let frames = play_piece(&mut session, 8, 0, I);
    assert_eq!(session.score(), 50 + 225);
    assert_eq!(session.piece_count(), 3);
    let board = session.board();
    for x in 1..11 {
        let expected = if x >= 9 { 0x00_EE_BB } else { BLACK };
        assert_eq!(board.cell_at(x, 16), expected);
        assert_eq!(board.cell_at(x, 15), BLACK);
    }
    assert_walls(&session);
    let highlight = frames.highlight.unwrap();
    for x in 1..11 {
        assert_eq!(pixel(&highlight, x, 16), GREEN);
        assert_eq!(pixel(&frames.settled, x, 16), if x >= 9 { 0x00_EE_BB } else { BLACK });
    }
    assert_eq!(pixel(&highlight, 9, 15), 0x00_EE_BB);
    assert_eq!(pixel(&highlight, 7, 0), 0x0B_AA_88);
    assert_eq!(pixel(&frames.settled, 7, 0), 0x0B_AA_88);
}

#[test]
fn double_line_clear_adds_425() {
    let mut session = start();
    play_piece(&mut session, 0, 0, O);
    for x in [1, 3, 5] {
        play_piece(&mut session, x, 0, O);
    }
    play_piece(&mut session, 7, 0, I);
    assert_eq!(session.score(), 125);
    let frames = play_piece(&mut session, 9, 0, O);
    assert_eq!(session.score(), 125 + 425);
    assert_eq!(session.piece_count(), 6);
    let board = session.board();
    for y in 0..17 {
        for x in 1..11 {
            let expected = if y >= 15 && (x == 1 || x == 10) { 0x0B_AA_88 } else { BLACK };
            assert_eq!(board.cell_at(x, y), expected);
        }
    }
    assert_walls(&session);
    let highlight = frames.highlight.unwrap();
    for x in 1..11 {
        assert_eq!(pixel(&highlight, x, 15), GREEN);
        assert_eq!(pixel(&highlight, x, 16), GREEN);
    }
    assert_eq!(pixel(&highlight, 1, 14), 0x0B_AA_88);
    assert_eq!(pixel(&highlight, 10, 13), 0x0B_AA_88);
}

#[test]
fn tick_without_a_lock_shows_no_highlight_and_scores_nothing() {
    let mut session = start();
    for _ in 0..100 {
        let frames = session.tick_with(&keys(Input::MoveLeft), O);
        assert!(frames.highlight.is_none());
        assert_eq!(session.score(), 0);
    }
    let frames = play_piece(&mut session, 6, 0, O);
    assert!(frames.highlight.is_none());
    assert_eq!(session.score(), 25);
}

#[test]
fn score_never_goes_down() {
    let mut session = start();
    let mut last = 0;
    let plan = [(0, I), (1, O), (3, O), (5, O), (7, O), (9, I)];
    for round in 0..30 {
        let (x, _) = plan[round % plan.len()];
        let (_, next) = plan[(round + 1) % plan.len()];
        play_piece(&mut session, x, 0, next);
        assert!(session.score() >= last + 25);
        last = session.score();
        assert_walls(&session);
        if session.is_over() {
            break;
        }
    }
    assert!(last > 0);
}

/// Plays rounds that leave the board as they found it: six pieces that
/// clear two rows, then four that clear the two rows that were left.
fn play_rounds(session: &mut Session, pieces: u64) {
    let plan = [
        (0, I),
        (1, O),
        (3, O),
        (5, O),
        (7, O),
        (9, I),
        (1, O),
        (3, O),
        (5, O),
        (7, O),
    ];
    while session.piece_count() < pieces {
        let step = session.piece_count() as usize;
        let (x, which) = plan[step % plan.len()];
        let (_, next) = plan[(step + 1) % plan.len()];
        assert_eq!(session.piece(), which);
        play_piece(session, x, 0, next);
        assert!(!session.is_over());
    }
}

#[test]
fn descent_gets_faster_every_fifty_pieces() {
    let mut session = start();
    play_rounds(&mut session, 49);
    assert_eq!(session.speed(), 20);
    play_rounds(&mut session, 50);
    assert_eq!(session.speed(), 19);
    play_rounds(&mut session, 99);
    assert_eq!(session.speed(), 19);
    play_rounds(&mut session, 100);
    assert_eq!(session.speed(), 18);
    for _ in 0..17 {
        session.tick_with(&vec![], O);
    }
    assert_eq!(session.position(), (6, 0));
    session.tick_with(&vec![], O);
    assert_eq!(session.position(), (6, 1));
}

#[test]
fn descent_does_not_get_faster_than_the_floor() {
    let mut session = start();
    play_rounds(&mut session, 499);
    assert_eq!(session.speed(), 11);
    play_rounds(&mut session, 500);
    assert_eq!(session.speed(), 10);
    play_rounds(&mut session, 700);
    assert_eq!(session.speed(), 10);
    assert_eq!(session.score(), 700 * 25 + 140 * 400);
}

#[test]
fn frame_shows_the_board_with_the_piece_and_a_margin() {
    let mut session = start();
    session.tick_with(&keys(Input::SoftDrop), I);
    let frame = session.frame();
    assert_eq!(frame.len(), SCREEN_WIDTH * SCREEN_HEIGHT);
    for sy in 0..SCREEN_HEIGHT {
        for sx in 0..SCREEN_WIDTH {
            let on_board = sx >= 1 && sx < 13 && sy >= 1 && sy < 19;
            let expected = if !on_board {
                BLACK
            } else if sx - 1 == 7 && sy - 1 >= 1 && sy - 1 <= 4 {
                0x0B_AA_88
            } else if sx - 1 == 0 || sx - 1 == 11 || sy - 1 == 17 {
                GREY
            } else {
                BLACK
            };
            assert_eq!(frame[sy * SCREEN_WIDTH + sx], expected);
        }
    }
}

#[test]
fn tick_hands_back_the_frame_of_the_game_it_left() {
    let mut session = start();
    for round in 0..400 {
        let held = if round % 3 == 0 { keys(Input::MoveLeft) } else { keys(Input::RotateRequest) };
        let frames = session.tick_with(&held, (round % 7) as usize);
        assert_eq!(frames.settled, session.frame());
    }
}

#[test]
fn random_tick_lets_a_piece_of_the_table_enter() {
    let mut session = start();
    let mut seen = [false; 7];
    let mut locked = 0;
    for _ in 0..60_000 {
        if session.is_over() {
            session = start();
        }
        let count = session.piece_count();
        let (x, _) = session.position();
        let target = (locked % 9) as i32;
        let held = if x > target {
            keys(Input::MoveLeft)
        } else if x < target {
            keys(Input::MoveRight)
        } else {
            keys(Input::SoftDrop)
        };
        let frames = session.tick(&held);
        assert_eq!(frames.settled, session.frame());
        assert!(session.piece() < 7);
        if session.piece_count() != count {
            locked += 1;
            seen[session.piece()] = true;
            assert_eq!(session.position(), (6, 0));
        }
        assert_walls(&session);
    }
    assert!(locked > 500);
    assert!(seen.iter().all(|s| *s));
}

#[test]
fn should_stop_on_the_exit_key_or_when_the_game_is_over() {
    let session = start();
    assert!(!session.should_stop(&vec![]));
    assert!(!session.should_stop(&vec![Input::MoveLeft, Input::RotateRequest]));
    assert!(session.should_stop(&vec![Input::Exit]));
    assert!(session.should_stop(&vec![Input::SoftDrop, Input::Exit, Input::MoveLeft]));
    let over = Session::new(12, 4).unwrap();
    assert!(over.should_stop(&vec![]));
}
