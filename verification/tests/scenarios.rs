use connect4_board_library::Bitboard;

#[test]
fn one_column_takes_six_pieces_and_gives_no_winner() {
    let mut board = Bitboard::new();
    for drop in 1..=6usize {
        assert!(board.drop_piece(3), "drop {}", drop);
        assert!(!board.check_win(), "after drop {}", drop);
        assert_eq!(board.move_count(), drop);
    }
    let before = board;
    assert!(!board.drop_piece(3));
    assert_eq!(board, before);
    assert_eq!(board.move_count(), 6);
    for row in 0..6usize {
        assert_eq!(board.cell(3, row) as usize, row % 2 + 1);
    }
}

#[test]
fn four_drops_into_one_column_give_no_winner() {
    let mut board = Bitboard::new();
    for _ in 0..4 {
        assert!(board.drop_piece(3));
    }
    assert!(!board.check_win());
    assert_eq!(board.bits_of(0), (1u64 << 21) | (1u64 << 23));
    assert_eq!(board.bits_of(1), (1u64 << 22) | (1u64 << 24));
}

#[test]
fn full_grid_without_a_line_is_a_draw() {
    // Rows are filled from the left, the third and the sixth in the order
    // 1, 0, 3, 2, 5, 4, 6.
    let straight: [usize; 7] = [0, 1, 2, 3, 4, 5, 6];
    let swapped: [usize; 7] = [1, 0, 3, 2, 5, 4, 6];
    let rows: [[usize; 7]; 6] = [straight, straight, swapped, straight, straight, swapped];
    let mut board = Bitboard::new();
    for row in rows.iter() {
        for &column in row.iter() {
            assert!(board.drop_piece(column));
            assert!(!board.check_win());
        }
    }
    assert_eq!(board.move_count(), 42);
    assert!(!board.check_win());
    for column in 0..7usize {
        assert_eq!(board.next_free(column) as usize, 7 * column + 6);
        assert!(!board.drop_piece(column));
    }
    assert_eq!(board.move_count(), 42);
    assert_eq!(board.bits_of(0).count_ones(), 21);
    assert_eq!(board.bits_of(1).count_ones(), 21);
}

#[test]
fn game_runs_to_a_win() {
    // Player 0 builds the bottom row, player 1 answers on top.
    let mut board = Bitboard::new();
    let columns: [usize; 7] = [0, 0, 1, 1, 2, 2, 3];
    for (k, &column) in columns.iter().enumerate() {
        let mover: usize = board.move_count() % 2;
        assert_eq!(mover, k % 2);
        assert!(board.drop_piece(column));
        assert_eq!(board.check_win(), k == 6);
    }
    assert_eq!(board.move_count(), 7);
    assert_eq!(board.bits_of(0), 0x0020_4081);
    assert_eq!(board.bits_of(1), 0x0000_8102);
}
