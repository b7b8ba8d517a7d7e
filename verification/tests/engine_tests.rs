use connect4_core::ai::{calc_score, calculate_points, get_ai_move, score_window};
use connect4_core::board::{Board, PlayErr, Player};
use connect4_core::game::{Game, GameState};
use connect4_core::validator::get_winner;

#[test]
fn standard_game_starts_on_six_by_seven() {
    let game = Game::new(Player::Red);
    assert_eq!(game.board.get_rows(), 6);
    assert_eq!(game.board.get_columns(), 7);
    assert_eq!(game.state, GameState::Playing);
    assert_eq!(game.current_player, Player::Red);
}

#[test]
fn six_drops_fill_a_column_and_the_seventh_fails() -> Result<(), PlayErr> {
    let mut board = Board::new(6, 7);
    let players = [Player::Yellow, Player::Red];
    for i in 0..6 {
        board.play(0, players[i % 2])?;
    }
    for r in 0..6 {
        assert!(board.get_piece_at(r, 0).is_some());
    }
    assert_eq!(board.play(0, Player::Yellow), Err(PlayErr::FullColumn));
    Ok(())
}

#[test]
fn play_rejects_out_of_range_column() {
    let mut board = Board::new(6, 7);
    assert_eq!(board.play(7, Player::Yellow), Err(PlayErr::OutOfBounds));
    assert_eq!(board.get_piece_at(5, 0), None);

    let mut game = Game::new(Player::Yellow);
    assert_eq!(game.play(99), Err(PlayErr::OutOfBounds));
    assert_eq!(game.state, GameState::Playing);
    assert_eq!(game.current_player, Player::Yellow);
}

#[test]
fn valid_moves_are_the_columns_with_an_open_top_row() -> Result<(), PlayErr> {
    let mut board = Board::new(2, 4);
    assert_eq!(board.get_valid_moves(), vec![0, 1, 2, 3]);
    board.play(1, Player::Yellow)?;
    board.play(1, Player::Red)?;
    assert!(board.get_piece_at(0, 1).is_some());
    assert_eq!(board.get_valid_moves(), vec![0, 2, 3]);
    Ok(())
}

#[test]
fn last_move_tracks_the_latest_successful_placement() {
    let mut b = Board::new(6, 7);
    assert_eq!(b.get_last_move(), None);
    b.play(3, Player::Yellow).unwrap();
    assert_eq!(b.get_last_move(), Some(3));
    let _ = b.play(9, Player::Red);
    assert_eq!(b.get_last_move(), Some(3));
}

#[test]
fn four_stacked_pieces_win_through_the_column_scan() -> Result<(), PlayErr> {
    let mut board = Board::new(5, 5);
    for _ in 0..3 {
        board.play(1, Player::Yellow)?;
        board.play(0, Player::Red)?;
    }
    assert_eq!(get_winner(&board), None);
    board.play(1, Player::Yellow)?;
    assert_eq!(get_winner(&board), Some(Player::Yellow));
    Ok(())
}

#[test]
fn vertical_win_appears_exactly_at_the_seventh_move() -> Result<(), PlayErr> {
    let mut game = Game::with_size(5, 5, Player::Yellow);
    let moves = [1, 2, 1, 2, 1, 2, 1];
    for (i, &m) in moves.iter().enumerate() {
        assert_eq!(game.state, GameState::Playing, "before move {}", i + 1);
        game.play(m)?;
    }
    assert_eq!(game.state, GameState::Winner(Player::Yellow));
    Ok(())
}

#[test]
fn play_after_the_game_ends_is_a_harmless_success() -> Result<(), PlayErr> {
    let mut game = Game::with_size(5, 5, Player::Yellow);
    for &m in [1, 2, 1, 2, 1, 2, 1].iter() {
        game.play(m)?;
    }
    assert_eq!(game.state, GameState::Winner(Player::Yellow));
    let state_before = game.state;
    let player_before = game.current_player;
    let cells_before = game.board.get_pieces().clone();

    assert_eq!(game.play(3), Ok(()));

    assert_eq!(game.state, state_before);
    assert_eq!(game.current_player, player_before);
    assert_eq!(game.board.get_pieces(), &cells_before);
    Ok(())
}

#[test]
fn ai_takes_the_immediate_win_in_the_first_open_column() -> Result<(), PlayErr> {
    let mut game = Game::with_size(5, 5, Player::Yellow);
    for &m in [0, 1, 0, 1, 0, 2].iter() {
        game.play(m)?;
    }
    assert_eq!(game.state, GameState::Playing);
    assert_eq!(game.current_player, Player::Yellow);
    // three yellow pieces already stand in column 0
    let mv = get_ai_move(&game);
    assert_eq!(mv, 0);
    game.play(mv)?;
    assert_eq!(game.state, GameState::Winner(Player::Yellow));
    Ok(())
}

#[test]
fn ai_takes_an_immediate_win_in_a_middle_column() -> Result<(), PlayErr> {
    let mut game = Game::with_size(5, 5, Player::Yellow);
    for &m in [2, 3, 2, 3, 2, 4].iter() {
        game.play(m)?;
    }
    assert_eq!(game.state, GameState::Playing);
    assert_eq!(game.current_player, Player::Yellow);
    let mv = get_ai_move(&game);
    game.play(mv)?;
    assert_eq!(game.state, GameState::Winner(Player::Yellow));
    Ok(())
}

#[test]
fn ai_never_picks_a_full_column() -> Result<(), PlayErr> {
    let mut game = Game::with_size(4, 4, Player::Yellow);
    // fill column 0 completely without a four-in-a-row in it
    for &m in [0, 0, 1, 0, 0].iter() {
        game.play(m)?;
    }
    assert_eq!(game.state, GameState::Playing);
    assert!(game.board.get_piece_at(0, 0).is_some());
    let mv = get_ai_move(&game);
    assert!(game.board.get_piece_at(0, mv).is_none());
    assert_eq!(game.play(mv), Ok(()));
    Ok(())
}

#[test]
fn win_on_a_falling_diagonal_of_a_wide_board() -> Result<(), PlayErr> {
    let mut b = Board::new(6, 7);
    // yellow descends from high on the left down to the bottom right
    b.play(0, Player::Red)?;
    b.play(0, Player::Red)?;
    b.play(0, Player::Red)?;
    b.play(0, Player::Yellow)?;
    b.play(1, Player::Red)?;
    b.play(1, Player::Red)?;
    b.play(1, Player::Yellow)?;
    b.play(2, Player::Red)?;
    b.play(2, Player::Yellow)?;
    assert_eq!(get_winner(&b), None);
    b.play(3, Player::Yellow)?;
    assert_eq!(get_winner(&b), Some(Player::Yellow));
    Ok(())
}

#[test]
fn win_on_a_rising_diagonal_of_a_wide_board() -> Result<(), PlayErr> {
    let mut b = Board::new(6, 7);
    // yellow climbs from the bottom-left upwards to the right
    b.play(0, Player::Yellow)?;
    b.play(1, Player::Red)?;
    b.play(1, Player::Yellow)?;
    b.play(2, Player::Red)?;
    b.play(2, Player::Red)?;
    b.play(2, Player::Yellow)?;
    b.play(3, Player::Red)?;
    b.play(3, Player::Red)?;
    b.play(3, Player::Red)?;
    assert_eq!(get_winner(&b), None);
    b.play(3, Player::Yellow)?;
    assert_eq!(get_winner(&b), Some(Player::Yellow));
    Ok(())
}

#[test]
fn window_scores_count_own_pieces_and_spot_completed_fours() {
    let y = Some(Player::Yellow);
    let r = Some(Player::Red);

    let two_own = vec![y, y, None, None];
    assert_eq!(score_window(&two_own, 0, Player::Yellow), 2);
    assert_eq!(score_window(&two_own, 0, Player::Red), 0);

    let own_four = vec![y, y, y, y];
    assert_eq!(score_window(&own_four, 0, Player::Yellow), 10000);
    assert_eq!(score_window(&own_four, 0, Player::Red), -10000);

    let mixed = vec![y, r, y, None];
    assert_eq!(score_window(&mixed, 0, Player::Yellow), 2);
    assert_eq!(score_window(&mixed, 0, Player::Red), 1);
}

#[test]
fn line_points_sum_every_sliding_window() {
    let y = Some(Player::Yellow);

    let short = vec![y, y, y];
    assert_eq!(calculate_points(&short, Player::Yellow), 0);

    let line = vec![y, y, y, y, None];
    // the first window is a completed four, the second holds three pieces
    assert_eq!(calculate_points(&line, Player::Yellow), 10003);
    assert_eq!(calculate_points(&line, Player::Red), -10000);
}

#[test]
fn a_single_piece_scores_its_three_windows() -> Result<(), PlayErr> {
    let mut game = Game::new(Player::Yellow);
    game.play(0)?;
    // the bottom-left piece sits in one row window, one column window,
    // and one secondary-diagonal window
    assert_eq!(calc_score(&game, Player::Yellow), 3);
    assert_eq!(calc_score(&game, Player::Red), 0);
    Ok(())
}

#[test]
fn an_empty_board_scores_zero() {
    let game = Game::new(Player::Yellow);
    assert_eq!(calc_score(&game, Player::Yellow), 0);
    assert_eq!(calc_score(&game, Player::Red), 0);
}
