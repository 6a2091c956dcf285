use tetris::board::Tetris;
use tetris::shapes::{tetromino, Tetromino, BLACK, GREEN, GREY};

fn dot(color: u32) -> Tetromino {
    Tetromino { color, shape: 0b0000_0000_0000_0001 }
}

fn interior_row(board: &Tetris, y: usize) -> Vec<u32> {
    (1..board.width() - 1).map(|x| board.cell_at(x, y)).collect()
}

fn assert_walls(board: &Tetris) {
    for y in 0..board.height() {
        assert_ne!(board.cell_at(0, y), BLACK);
        assert_ne!(board.cell_at(board.width() - 1, y), BLACK);
    }
    for x in 0..board.width() {
        assert_ne!(board.cell_at(x, board.height() - 1), BLACK);
    }
}

#[test]
fn new_board_has_grey_walls_and_an_empty_interior() {
    let board = Tetris::new(12, 18);
    assert_eq!(board.width(), 12);
    assert_eq!(board.height(), 18);
    assert_eq!(board.rotation(), 0);
    assert_eq!(board.cells().len(), 216);
    for y in 0..18 {
        for x in 0..12 {
            let expected = if x == 0 || x == 11 || y == 17 { GREY } else { BLACK };
            assert_eq!(board.cell_at(x, y), expected);
            assert_eq!(board.cells()[y * 12 + x], expected);
            assert_eq!(board.is_boundary(x, y), x == 0 || x == 11 || y == 17);
        }
    }
}

#[test]
fn smallest_board_is_all_wall() {
    let board = Tetris::new(1, 1);
    assert_eq!(board.cells(), &vec![GREY]);
    let narrow = Tetris::new(2, 3);
    assert_eq!(narrow.cells(), &vec![GREY; 6]);
}

#[test]
fn rotate_uses_the_rotation_in_play() {
    let mut board = Tetris::new(12, 18);
    assert_eq!(board.rotate(1, 2), 9);
    board.set_rotation(1);
    assert_eq!(board.rotation(), 1);
    assert_eq!(board.rotate(1, 2), 10);
    board.set_rotation(2);
    assert_eq!(board.rotate(1, 2), 6);
    board.set_rotation(3);
    assert_eq!(board.rotate(1, 2), 5);
    board.set_rotation(4);
    assert_eq!(board.rotate(1, 2), 9);
    board.set_rotation(255);
    assert_eq!(board.rotate(1, 2), 5);
}

#[test]
fn pos_lists_the_occupied_cells_column_by_column() {
    let mut board = Tetris::new(12, 18);
    let piece = tetromino(0);
    assert_eq!(board.pos(&piece), vec![(1, 0), (1, 1), (1, 2), (1, 3)]);
    board.set_rotation(1);
    assert_eq!(board.pos(&piece), vec![(0, 1), (1, 1), (2, 1), (3, 1)]);
    board.set_rotation(2);
    assert_eq!(board.pos(&piece), vec![(2, 0), (2, 1), (2, 2), (2, 3)]);
    board.set_rotation(3);
    assert_eq!(board.pos(&piece), vec![(0, 2), (1, 2), (2, 2), (3, 2)]);
    board.set_rotation(0);
    assert_eq!(board.pos(&tetromino(1)), vec![(1, 1), (2, 1), (2, 2), (2, 3)]);
    assert_eq!(board.pos(&tetromino(3)), vec![(1, 1), (1, 2), (2, 1), (2, 2)]);
    assert_eq!(board.pos(&Tetromino { color: 1, shape: 0 }), vec![]);
}

#[test]
fn pos_agrees_with_occupied() {
    let mut board = Tetris::new(12, 18);
    for which in 0..7 {
        let piece = tetromino(which);
        for rotation in 0..4u8 {
            board.set_rotation(rotation);
            let cells = board.pos(&piece);
            assert_eq!(cells.len(), 4);
            for px in 0..4 {
                for py in 0..4 {
                    assert_eq!(board.occupied(&piece, px, py), cells.contains(&(px, py)));
                }
            }
        }
    }
}

#[test]
fn first_piece_fits_at_the_top_of_an_empty_board() {
    let board = Tetris::new(12, 18);
    assert!(board.does_piece_fit(&tetromino(0), 6, 0));
}

#[test]
fn piece_does_not_fit_on_a_wall_or_the_floor() {
    let board = Tetris::new(12, 18);
    let piece = tetromino(0);
    assert!(board.does_piece_fit(&piece, 0, 0));
    assert!(!board.does_piece_fit(&piece, -1, 0));
    assert!(board.does_piece_fit(&piece, 9, 0));
    assert!(!board.does_piece_fit(&piece, 10, 0));
    assert!(board.does_piece_fit(&piece, 6, 13));
    assert!(!board.does_piece_fit(&piece, 6, 14));
}

#[test]
fn cells_off_the_board_are_skipped() {
    let board = Tetris::new(12, 18);
    let piece = tetromino(0);
    assert!(board.does_piece_fit(&piece, -2, 0));
    assert!(board.does_piece_fit(&piece, -100, 5));
    assert!(board.does_piece_fit(&piece, 11, 0));
    assert!(board.does_piece_fit(&piece, 6, -2));
    assert!(board.does_piece_fit(&piece, 6, 18));
    assert!(!board.does_piece_fit(&piece, 6, 17));
    assert!(board.does_piece_fit(&piece, i32::MAX, i32::MAX));
    assert!(board.does_piece_fit(&piece, i32::MIN, i32::MIN));
}

#[test]
fn fit_depends_on_the_rotation_in_play() {
    let mut board = Tetris::new(12, 18);
    let piece = tetromino(0);
    assert!(board.does_piece_fit(&piece, 0, 0));
    board.set_rotation(1);
    assert!(!board.does_piece_fit(&piece, 0, 0));
    assert!(board.does_piece_fit(&piece, 1, 0));
    assert!(board.does_piece_fit(&piece, 1, 15));
    assert!(!board.does_piece_fit(&piece, 1, 16));
}

#[test]
fn fit_gives_the_same_answer_when_asked_again() {
    let mut board = Tetris::new(12, 18);
    board.lock_piece(&tetromino(4), 3, 10);
    for which in 0..7 {
        let piece = tetromino(which);
        for x in -3..14 {
            for y in -3..20 {
                let first = board.does_piece_fit(&piece, x, y);
                assert_eq!(board.does_piece_fit(&piece, x, y), first);
            }
        }
    }
}

#[test]
fn lock_writes_the_colour_into_the_occupied_cells() {
    let mut board = Tetris::new(12, 18);
    let before = board.cells().clone();
    let piece = tetromino(1);
    board.lock_piece(&piece, 4, 10);
    for y in 0..18usize {
        for x in 0..12usize {
            let covered = [(5, 11), (6, 11), (6, 12), (6, 13)].contains(&(x, y));
            let expected = if covered { piece.color } else { before[y * 12 + x] };
            assert_eq!(board.cell_at(x, y), expected);
        }
    }
    assert!(!board.does_piece_fit(&piece, 4, 10));
    assert_walls(&board);
}

#[test]
fn lock_skips_cells_off_the_board() {
    let mut board = Tetris::new(12, 18);
    let before = board.cells().clone();
    board.lock_piece(&tetromino(0), -5, 3);
    assert_eq!(board.cells(), &before);
    board.lock_piece(&tetromino(0), 6, -2);
    for y in 0..18usize {
        for x in 0..12usize {
            let expected = if x == 7 && y < 2 { 0x0B_AA_88 } else { before[y * 12 + x] };
            assert_eq!(board.cell_at(x, y), expected);
        }
    }
}

#[test]
fn detect_finds_nothing_on_a_board_without_full_rows() {
    let mut board = Tetris::new(12, 18);
    board.lock_piece(&tetromino(0), 6, 13);
    let before = board.cells().clone();
    assert_eq!(board.detect_full_rows(13, 17), Vec::<usize>::new());
    assert_eq!(board.cells(), &before);
    assert_eq!(board.detect_full_rows(0, 100), Vec::<usize>::new());
    assert_eq!(board.detect_full_rows(9, 3), Vec::<usize>::new());
    assert_eq!(board.cells(), &before);
}

#[test]
fn detect_never_takes_the_floor_for_a_full_row() {
    let mut board = Tetris::new(12, 18);
    let before = board.cells().clone();
    assert_eq!(board.detect_full_rows(14, 18), Vec::<usize>::new());
    assert_eq!(board.detect_full_rows(17, usize::MAX), Vec::<usize>::new());
    assert_eq!(board.cells(), &before);
}

#[test]
fn completed_row_is_detected_marked_and_collapsed() {
    let mut board = Tetris::new(12, 18);
    for x in 1..11 {
        if x != 5 {
            board.lock_piece(&dot(0x10 + x as u32), x, 16);
        }
    }
    board.lock_piece(&dot(0x77), 3, 15);
    board.lock_piece(&dot(0x78), 8, 15);
    board.lock_piece(&dot(0x79), 8, 0);
    assert_eq!(board.detect_full_rows(16, 20), Vec::<usize>::new());
    board.lock_piece(&dot(0x99), 5, 16);
    let above = interior_row(&board, 15);
    let higher = interior_row(&board, 14);
    let rows = board.detect_full_rows(16, 20);
    assert_eq!(rows, vec![16]);
    assert_eq!(interior_row(&board, 16), vec![GREEN; 10]);
    assert_eq!(interior_row(&board, 15), above);
    assert_walls(&board);
    board.collapse_rows(&rows);
    assert_eq!(interior_row(&board, 16), above);
    assert_eq!(interior_row(&board, 15), higher);
    assert_eq!(interior_row(&board, 0), vec![BLACK; 10]);
    assert_eq!(board.cell_at(8, 1), 0x79);
    assert_walls(&board);
    assert_eq!(board.cell_at(0, 16), GREY);
    assert_eq!(board.cell_at(11, 16), GREY);
}

#[test]
fn detect_lists_full_rows_from_the_top_down_within_the_span() {
    let mut board = Tetris::new(6, 8);
    for y in [2usize, 4, 5, 6] {
        for x in 1..5 {
            board.lock_piece(&dot(0x40), x, y as i32);
        }
    }
    let mut probe = Tetris::new(6, 8);
    for y in [2usize, 4, 5, 6] {
        for x in 1..5 {
            probe.lock_piece(&dot(0x40), x, y as i32);
        }
    }
    assert_eq!(probe.detect_full_rows(0, 8), vec![2, 4, 5, 6]);
    let rows = board.detect_full_rows(3, 6);
    assert_eq!(rows, vec![4, 5]);
    assert_eq!(interior_row(&board, 2), vec![0x40; 4]);
    assert_eq!(interior_row(&board, 4), vec![GREEN; 4]);
    assert_eq!(interior_row(&board, 5), vec![GREEN; 4]);
    assert_eq!(interior_row(&board, 6), vec![0x40; 4]);
}

#[test]
fn rows_are_removed_one_after_the_other() {
    let mut board = Tetris::new(12, 18);
    for y in 2..9 {
        board.lock_piece(&dot(0x100 + y as u32), 3, y);
    }
    board.collapse_rows(&vec![5, 7]);
    let column: Vec<u32> = (0..10).map(|y| board.cell_at(3, y)).collect();
    assert_eq!(column, vec![0, 0, 0, 0, 0x102, 0x103, 0x104, 0x106, 0x108, 0]);
    assert_walls(&board);
}

#[test]
fn removing_the_same_row_twice_shifts_twice() {
    let mut board = Tetris::new(12, 18);
    for y in 2..9 {
        board.lock_piece(&dot(0x100 + y as u32), 3, y);
    }
    board.collapse_rows(&vec![7, 7]);
    let column: Vec<u32> = (0..10).map(|y| board.cell_at(3, y)).collect();
    assert_eq!(column, vec![0, 0, 0, 0, 0x102, 0x103, 0x104, 0x105, 0x108, 0]);
}

#[test]
fn removing_the_top_row_empties_it() {
    let mut board = Tetris::new(12, 18);
    board.lock_piece(&dot(0x55), 4, 0);
    board.lock_piece(&dot(0x56), 4, 1);
    board.collapse_rows(&vec![0]);
    assert_eq!(board.cell_at(4, 0), BLACK);
    assert_eq!(board.cell_at(4, 1), 0x56);
    assert_eq!(board.cell_at(0, 0), GREY);
}

#[test]
fn removing_no_row_changes_nothing() {
    let mut board = Tetris::new(12, 18);
    board.lock_piece(&tetromino(5), 2, 9);
    let before = board.cells().clone();
    board.collapse_rows(&vec![]);
    assert_eq!(board.cells(), &before);
}

#[test]
fn walls_stand_after_many_locks_and_clears() {
    let mut board = Tetris::new(12, 18);
    for round in 0..40i32 {
        let piece = tetromino((round % 7) as usize);
        board.set_rotation((round % 4) as u8);
        let x = (round * 5) % 14 - 2;
        let y = (round * 3) % 19 - 1;
        board.lock_piece(&piece, x, y);
        let top = if y < 0 { 0 } else { y as usize };
        let rows = board.detect_full_rows(top, top + 4);
        board.collapse_rows(&rows);
        assert_walls(&board);
    }
}
