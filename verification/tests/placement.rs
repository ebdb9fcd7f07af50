use connect4_board_library::Bitboard;

/// Every bit that stands for a cell: six rows in each of seven lanes.
const CELL_MASK: u64 = 0x0000_FDFB_F7EF_DFBF;

fn play(columns: &[usize]) -> Bitboard {
    let mut board = Bitboard::new();
    for &column in columns {
        assert!(board.drop_piece(column));
    }
    board
}

#[test]
fn new_board_is_empty() {
    let board = Bitboard::new();
    assert_eq!(board.move_count(), 0);
    assert_eq!(board.bits_of(0), 0);
    assert_eq!(board.bits_of(1), 0);
    for column in 0..7usize {
        assert_eq!(board.next_free(column) as usize, 7 * column);
        for row in 0..6usize {
            assert_eq!(board.cell(column, row), 0);
        }
    }
}

#[test]
fn cell_mask_covers_the_grid() {
    let mut mask: u64 = 0;
    for column in 0..7u32 {
        for row in 0..6u32 {
            mask |= 1u64 << (7 * column + row);
        }
    }
    assert_eq!(mask, CELL_MASK);
}

#[test]
fn first_drop_sets_the_bottom_bit_of_the_lane() {
    let mut board = Bitboard::new();
    assert!(board.drop_piece(3));
    assert_eq!(board.bits_of(0), 1u64 << 21);
    assert_eq!(board.bits_of(1), 0);
    assert_eq!(board.next_free(3), 22);
    assert_eq!(board.move_count(), 1);
    assert_eq!(board.cell(3, 0), 1);
    assert_eq!(board.cell(3, 1), 0);
}

#[test]
fn second_drop_goes_to_the_second_player_one_row_up() {
    let mut board = Bitboard::new();
    assert!(board.drop_piece(3));
    assert!(board.drop_piece(3));
    assert_eq!(board.bits_of(0), 1u64 << 21);
    assert_eq!(board.bits_of(1), 1u64 << 22);
    assert_eq!(board.next_free(3), 23);
    assert_eq!(board.move_count(), 2);
    assert_eq!(board.cell(3, 0), 1);
    assert_eq!(board.cell(3, 1), 2);
}

#[test]
fn drop_leaves_other_columns_alone() {
    let mut board = play(&[3, 3, 4, 2, 0, 6, 6]);
    let before = board;
    assert!(board.drop_piece(1));
    assert_eq!(board.bits_of(0), before.bits_of(0));
    assert_eq!(board.bits_of(1), before.bits_of(1) | (1u64 << 7));
    for column in 0..7usize {
        let grown: u8 = if column == 1 { 1 } else { 0 };
        assert_eq!(board.next_free(column), before.next_free(column) + grown);
    }
    assert_eq!(board.move_count(), before.move_count() + 1);
}

#[test]
fn packed_state_after_a_short_game() {
    let board = play(&[3, 3, 4, 2, 0, 6, 6, 1]);
    assert_eq!(board.bits_of(0), 0x0000_0800_1020_0001);
    assert_eq!(board.bits_of(1), 0x0000_0400_0040_4080);
    let free: Vec<u8> = (0..7usize).map(|column| board.next_free(column)).collect();
    assert_eq!(free, vec![1, 8, 15, 23, 29, 35, 44]);
    assert_eq!(board.move_count(), 8);
}

#[test]
fn full_column_rejects_a_seventh_piece() {
    for column in 0..7usize {
        let mut board = Bitboard::new();
        for _ in 0..6 {
            assert!(board.drop_piece(column));
        }
        assert_eq!(board.next_free(column) as usize, 7 * column + 6);
        let before = board;
        assert!(!board.drop_piece(column));
        assert_eq!(board, before);
        assert_eq!(board.bits_of(0), before.bits_of(0));
        assert_eq!(board.bits_of(1), before.bits_of(1));
        assert_eq!(board.next_free(column), before.next_free(column));
        assert_eq!(board.move_count(), 6);
        assert_eq!(board.render(), before.render());
    }
}

#[test]
fn rejected_drop_does_not_pass_the_turn() {
    let mut board = play(&[2, 2, 2, 2, 2, 2]);
    assert!(!board.drop_piece(2));
    assert_eq!(board.move_count() % 2, 0);
    assert!(board.drop_piece(5));
    assert_eq!(board.cell(5, 0), 1);
}

#[test]
fn top_of_the_last_column_is_bit_47() {
    let board = play(&[6, 6, 6, 6, 6, 6]);
    assert_eq!(board.bits_of(0), 0x0000_5400_0000_0000);
    assert_eq!(board.bits_of(1), 0x0000_A800_0000_0000);
    assert_eq!(board.bits_of(1) >> 47, 1);
    assert_eq!(board.next_free(6), 48);
}

#[test]
fn piece_k_belongs_to_player_k_mod_2() {
    let columns: [usize; 12] = [3, 3, 4, 2, 0, 6, 6, 1, 0, 0, 5, 3];
    let mut board = Bitboard::new();
    for (k, &column) in columns.iter().enumerate() {
        let target: u8 = board.next_free(column);
        assert_eq!(board.move_count(), k);
        assert!(board.drop_piece(column));
        let owner: usize = k % 2;
        assert_eq!((board.bits_of(owner) >> target) & 1, 1);
        assert_eq!((board.bits_of(1 - owner) >> target) & 1, 0);
        let row: usize = target as usize - 7 * column;
        assert_eq!(board.cell(column, row) as usize, owner + 1);
    }
    for (k, &column) in columns.iter().enumerate() {
        let row: usize = columns[..k].iter().filter(|&&earlier| earlier == column).count();
        assert_eq!(board.cell(column, row) as usize, k % 2 + 1);
    }
    assert_eq!(board.move_count(), columns.len());
}

#[test]
fn sets_stay_disjoint_and_off_the_padding() {
    let columns: [usize; 42] = [
        5, 4, 5, 0, 6, 2, 4, 5, 5, 0, 4, 1, 1, 0, 4, 5, 6, 5, 3, 1, 1, 2, 2, 6, 2, 6, 6, 3, 6, 2,
        0, 3, 0, 3, 3, 4, 3, 1, 4, 2, 1, 0,
    ];
    let mut board = Bitboard::new();
    for &column in columns.iter() {
        assert!(board.drop_piece(column));
        assert_eq!(board.bits_of(0) & board.bits_of(1), 0);
        assert_eq!((board.bits_of(0) | board.bits_of(1)) & !CELL_MASK, 0);
        let pieces: u32 = board.bits_of(0).count_ones() + board.bits_of(1).count_ones();
        assert_eq!(pieces as usize, board.move_count());
    }
    assert_eq!(board.bits_of(0) | board.bits_of(1), CELL_MASK);
}

#[test]
fn free_cells_only_move_up() {
    let columns: [usize; 16] = [3, 3, 3, 3, 3, 3, 3, 0, 6, 3, 6, 6, 6, 6, 6, 6];
    let mut board = Bitboard::new();
    for &column in columns.iter() {
        let before = board;
        let placed: bool = board.drop_piece(column);
        for other in 0..7usize {
            assert!(before.next_free(other) <= board.next_free(other));
            assert!(board.next_free(other) as usize <= 7 * other + 6);
            let grown: u8 = if placed && other == column { 1 } else { 0 };
            assert_eq!(board.next_free(other), before.next_free(other) + grown);
        }
    }
    assert_eq!(board.next_free(3), 27);
    assert_eq!(board.next_free(6), 48);
    assert_eq!(board.next_free(0), 1);
    assert_eq!(board.move_count(), 13);
}

#[test]
fn move_count_tells_whose_turn_it_is() {
    let mut board = Bitboard::new();
    assert_eq!(board.move_count() % 2, 0);
    assert!(board.drop_piece(0));
    assert_eq!(board.move_count() % 2, 1);
    assert!(board.drop_piece(0));
    assert_eq!(board.move_count() % 2, 0);
}

#[test]
fn copy_is_a_board_of_its_own() {
    let mut board = play(&[1, 2]);
    let copy = board;
    assert!(board.drop_piece(1));
    assert_ne!(board, copy);
    assert_eq!(copy.move_count(), 2);
    assert_eq!(copy.cell(1, 1), 0);
    assert_eq!(board.cell(1, 1), 1);
}
