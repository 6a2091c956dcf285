use tetris::rotation::index;

#[test]
fn index_follows_the_four_formulas() {
    for col in 0..4 {
        for row in 0..4 {
            assert_eq!(index(col, row, 0), (row * 4 + col) as u32);
            assert_eq!(index(col, row, 1), (12 + row - 4 * col) as u32);
            assert_eq!(index(col, row, 2), (15 - 4 * row - col) as u32);
            assert_eq!(index(col, row, 3), (3 - row + 4 * col) as u32);
        }
    }
}

#[test]
fn index_exact_values() {
    assert_eq!(index(0, 0, 0), 0);
    assert_eq!(index(3, 3, 0), 15);
    assert_eq!(index(1, 2, 0), 9);
    assert_eq!(index(0, 0, 1), 12);
    assert_eq!(index(3, 0, 1), 0);
    assert_eq!(index(1, 2, 1), 10);
    assert_eq!(index(0, 0, 2), 15);
    assert_eq!(index(1, 2, 2), 6);
    assert_eq!(index(0, 0, 3), 3);
    assert_eq!(index(1, 2, 3), 5);
}

#[test]
fn index_stays_inside_the_mask() {
    for rotation in 0..=255u8 {
        for col in 0..4 {
            for row in 0..4 {
                assert!(index(col, row, rotation) < 16);
            }
        }
    }
}

#[test]
fn index_is_one_to_one_for_each_rotation() {
    for rotation in 0..4u8 {
        let mut seen = [false; 16];
        for col in 0..4 {
            for row in 0..4 {
                let bit = index(col, row, rotation) as usize;
                assert!(!seen[bit]);
                seen[bit] = true;
            }
        }
        assert!(seen.iter().all(|s| *s));
    }
}

#[test]
fn index_reduces_the_rotation_modulo_four() {
    for rotation in 0..=255u8 {
        for col in 0..4 {
            for row in 0..4 {
                assert_eq!(index(col, row, rotation), index(col, row, rotation % 4));
            }
        }
    }
}
