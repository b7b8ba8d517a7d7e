use connect4_core::board::{Board, PlayErr, Player};
use connect4_core::board_iterators::{get_lines, LineFamily};

const ROWS: usize = 3;
const COLS: usize = 3;

#[test]
fn test_row_iterator() -> Result<(), PlayErr> {
    let board = &mut Board::new(ROWS, COLS);
    board.play(0, Player::Yellow)?;
    board.play(0, Player::Yellow)?;
    board.play(0, Player::Yellow)?;
    board.play(1, Player::Yellow)?;

    let it = get_lines(&board, LineFamily::Rows);
    let expected = vec![
        vec![Some(Player::Yellow), None, None],
        vec![Some(Player::Yellow), None, None],
        vec![Some(Player::Yellow), Some(Player::Yellow), None],
    ];
    assert!(it == expected);

    Ok(())
}

#[test]
fn test_col_iterator() -> Result<(), PlayErr> {
    let board = &mut Board::new(ROWS, COLS);
    board.play(0, Player::Yellow)?;
    board.play(0, Player::Yellow)?;
    board.play(0, Player::Yellow)?;
    board.play(1, Player::Yellow)?;

    let it = get_lines(&board, LineFamily::Cols);
    let expected = vec![
        vec![
            Some(Player::Yellow),
            Some(Player::Yellow),
            Some(Player::Yellow),
        ],
        vec![None, None, Some(Player::Yellow)],
        vec![None, None, None],
    ];

    assert!(it == expected);

    Ok(())
}

#[test]
fn test_diagonal_iterator() -> Result<(), PlayErr> {
    let board = &mut Board::new(ROWS, COLS);
    board.play(0, Player::Yellow)?;
    board.play(0, Player::Yellow)?;
    board.play(0, Player::Yellow)?;
    board.play(1, Player::Yellow)?;

    let d1_it = get_lines(&board, LineFamily::MainDiagonals);
    let d2_it = get_lines(&board, LineFamily::SecondaryDiagonals);
    let mut it = d1_it.into_iter().chain(d2_it.into_iter());
    let mut expected_it = vec![
        vec![Some(Player::Yellow)],
        vec![Some(Player::Yellow), Some(Player::Yellow)],
        vec![Some(Player::Yellow), None, None],
        vec![None, None],
        vec![None],
        vec![Some(Player::Yellow)],
        vec![Some(Player::Yellow), None],
        vec![Some(Player::Yellow), None, None],
        vec![Some(Player::Yellow), None],
        vec![None],
    ]
    .into_iter();

    for d in 0..(board.get_columns() + board.get_rows() - 1) * 2 {
        let val = it.next();
        let exp = expected_it.next();

        assert_eq!(val, exp, "diag: {}", d);
    }

    assert_eq!(it.next(), None);

    Ok(())
}
