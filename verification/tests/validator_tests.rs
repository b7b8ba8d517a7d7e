use connect4_core::board::{Board, PlayErr, Player};
use connect4_core::validator::{
    find_winner_in_cols, find_winner_in_diagonals, find_winner_in_rows, get_winner,
};

fn setup_board(plays: Vec<usize>) -> Result<Board, PlayErr> {
    let mut b = Board::new(5, 5);
    let mut last_player = Player::Yellow;
    for p in plays {
        b.play(p, last_player)?;
        last_player = match last_player {
            Player::Yellow => Player::Red,
            Player::Red => Player::Yellow,
        };
    }
    Ok(b)
}

#[test]
fn there_is_no_winner() -> Result<(), PlayErr> {
    let board = setup_board(vec![1, 1, 1, 1, 1, 2, 2, 2, 2, 2])?;
    let winner = get_winner(&board);

    assert_eq!(winner, None);

    Ok(())
}

#[test]
fn there_is_a_winner_in_a_colunm() -> Result<(), PlayErr> {
    let board = setup_board(vec![1, 2, 1, 2, 1, 2, 1])?;
    let winner = find_winner_in_cols(&board);

    assert_ne!(winner, None);

    Ok(())
}

#[test]
fn there_is_a_winner_in_a_row() -> Result<(), PlayErr> {
    let board = setup_board(vec![1, 1, 2, 2, 3, 3, 4])?;
    let winner = find_winner_in_rows(&board);

    assert_ne!(winner, None);

    Ok(())
}

#[test]
fn there_is_a_winner_in_the_main_diagonal() -> Result<(), PlayErr> {
    let board = setup_board(vec![1, 2, 2, 3, 3, 1, 3, 4, 4, 4, 4])?;
    let winner = find_winner_in_diagonals(&board);

    assert_ne!(winner, None);

    Ok(())
}

#[test]
fn there_is_a_winner_in_the_secundary_diagonal() -> Result<(), PlayErr> {
    let board = setup_board(vec![1, 1, 1, 1, 2, 2, 3, 2, 1, 3, 3, 4])?;
    let winner = find_winner_in_diagonals(&board);

    assert_ne!(winner, None);

    Ok(())
}
