use connect4_core::board::{Board, PlayErr, Player};

const ROWS: usize = 6;
const COLS: usize = 6;

#[test]
fn create_new_instance() {
    let b = Board::new(ROWS, COLS);
    assert_eq!(b.pieces.capacity(), ROWS * COLS);

    for i in 0..ROWS * COLS {
        assert_eq!(None, b.pieces[i]);
    }
}

#[test]
fn find_row_when_searching_for_empty_col_in_a_empty_col() {
    let board = Board::new(ROWS, COLS);

    let found_row = board.find_empty_row_in_column(0);
    assert_eq!(found_row, Some(ROWS - 1));
}

fn target_index(row: usize, col: usize) -> usize {
    row * COLS + col
}

#[test]
fn find_row_when_searching_for_non_empty_col_in_a_empty_col() {
    let mut board = Board::new(ROWS, COLS);
    board.pieces[target_index(ROWS - 1, 0)] = Some(Player::Red);
    let found_row = board.find_empty_row_in_column(0);
    assert_eq!(found_row, Some(ROWS - 2));
}

#[test]
fn find_row_when_searching_for_full_col_in_a_empty_col() {
    let mut board = Board::new(ROWS, COLS);
    for r in 0..ROWS {
        board.pieces[target_index(r, 0)] = Some(Player::Red);
    }
    let found_row = board.find_empty_row_in_column(0);
    assert_eq!(found_row, None);
}

#[test]
fn board_full_counter_is_full_when_board_is_full() -> Result<(), PlayErr> {
    let mut board = Board::new(ROWS, COLS);
    for c in 0..COLS {
        for _ in 0..ROWS {
            assert_eq!(board.is_board_full(), false);
            board.play(c, Player::Yellow)?;
        }
    }

    assert_eq!(board.is_board_full(), true);
    Ok(())
}

#[test]
fn get_piece_at() -> Result<(), PlayErr> {
    let mut board = Board::new(ROWS, COLS);
    board.play(0, Player::Yellow)?;
    assert_eq!(board.get_piece_at(ROWS - 1, 0), Some(Player::Yellow));
    board.play(1, Player::Yellow)?;
    assert_eq!(board.get_piece_at(ROWS - 1, 1), Some(Player::Yellow));
    board.play(0, Player::Yellow)?;
    assert_eq!(board.get_piece_at(ROWS - 2, 0), Some(Player::Yellow));
    Ok(())
}

#[test]
fn play_not_empty_column() -> Result<(), PlayErr> {
    let mut board = Board::new(ROWS, COLS);
    board.play(0, Player::Yellow)?;
    board.play(0, Player::Red)?;

    if let Some(p) = board.pieces[(ROWS - 2) * COLS] {
        assert_eq!(p, Player::Red);
    } else {
        panic!("should not have failed {:?}", board.pieces);
    }

    Ok(())
}
