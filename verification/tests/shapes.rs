use tetris::shapes::{tetromino, Tetromino, BLACK, GREEN, GREY, PIECES};

#[test]
fn table_holds_the_seven_pieces() {
    assert_eq!(PIECES, 7);
    let expected: [(u32, u16); 7] = [
        (0x0B_AA_88, 0b0010_0010_0010_0010),
        (0x00_CC_99, 0b0100_0100_0110_0000),
        (0x00_DD_AA, 0b0010_0010_0110_0000),
        (0x00_EE_BB, 0b0000_0110_0110_0000),
        (0x00_00_CC, 0b0100_0110_0010_0000),
        (0x00_00_DD, 0b0010_0110_0100_0000),
        (0x00_00_EE, 0b0010_0110_0010_0000),
    ];
    for which in 0..PIECES {
        let piece = tetromino(which);
        assert_eq!(piece, Tetromino { color: expected[which].0, shape: expected[which].1 });
    }
}

#[test]
fn every_piece_has_four_cells_and_a_colour() {
    for which in 0..PIECES {
        let piece = tetromino(which);
        assert_eq!(piece.shape.count_ones(), 4);
        assert_ne!(piece.color, BLACK);
    }
}

#[test]
fn colours_are_the_documented_ones() {
    assert_eq!(BLACK, 0x000000);
    assert_eq!(GREEN, 0x00ff00);
    assert_eq!(GREY, 0xaaaaaa);
}

#[test]
fn has_bit_reads_the_mask() {
    let piece = Tetromino { color: 1, shape: 0b1000_0000_0000_0101 };
    for bit in 0..16u32 {
        assert_eq!(piece.has_bit(bit), bit == 0 || bit == 2 || bit == 15);
    }
}

#[test]
fn first_piece_is_the_second_column() {
    let piece = tetromino(0);
    for row in 0..4u32 {
        for col in 0..4u32 {
            assert_eq!(piece.has_bit(row * 4 + col), col == 1);
        }
    }
}
