use connect4_core::board::{PlayErr, Player};
use connect4_core::game::{Game, GameState};

#[test]
fn game_construction() {
    let game = Game::new(Player::Yellow);
    assert_eq!(game.current_player, Player::Yellow);
}

#[test]
fn toggle_player_on_play() -> Result<(), PlayErr> {
    let mut game = Game::new(Player::Yellow);
    let col = 1;
    game.play(col)?;
    assert_eq!(game.current_player, Player::Red);

    game.play(col)?;
    assert_eq!(game.current_player, Player::Yellow);

    Ok(())
}

#[test]
fn game_finish_in_tie() -> Result<(), PlayErr> {
    let mut game = Game::with_size(3, 3, Player::Yellow);
    let mut game_state = GameState::Playing;
    for c in 0..game.board.get_columns() {
        for _ in 0..game.board.get_rows() {
            assert_eq!(game_state, GameState::Playing);
            game.play(c)?;
            game_state = game.state;
        }
    }

    assert_eq!(game_state, GameState::Tie);

    Ok(())
}

#[test]
fn does_not_change_state_when_some_error_occours() -> Result<(), PlayErr> {
    let mut game = Game::with_size(3, 3, Player::Yellow);
    game.play(0)?;
    game.play(0)?;
    game.play(0)?;
    let r = game.play(0);
    let current_player = game.current_player;
    let current_winner = game.state;
    let current_board = game.board.clone();
    assert_eq!(Err(PlayErr::FullColumn), r);

    assert_eq!(current_player, game.current_player);
    assert_eq!(current_winner, game.state);
    assert_eq!(current_board.get_pieces(), game.board.get_pieces());

    Ok(())
}
