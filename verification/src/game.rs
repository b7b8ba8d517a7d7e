//! The turn state machine: one board, the player to move, and a state
//! that a single `play` operation drives and that never leaves `Tie` or
//! `Winner` once reached.

use vstd::prelude::*;

use crate::board::{other_player, opponent, Board, BoardModel, PlayErr, Player};
use crate::validator::{
    get_winner, has_win, lemma_empty_board_no_win, lemma_play_no_new_win_for_other,
};

verus! {

/// Where a match stands.  `Tie` and `Winner` are terminal: no later call
/// leaves them.
#[derive(Debug, PartialEq, Eq, Structural, Clone, Copy)]
pub enum GameState {
    Playing,
    Tie,
    Winner(Player),
}

/// The mathematical value of a game: its board, its state, and the player
/// to move (meaningful only while the state is `Playing`).
#[verifier::ext_equal]
pub ghost struct GameModel {
    pub board: BoardModel,
    pub state: GameState,
    pub player: Player,
}

impl GameModel {
    /// The game invariant: a well-formed board; while play goes on, nobody
    /// has won yet and the board has room; once play has stopped, at least
    /// one move was made.
    pub open spec fn wf(self) -> bool {
        &&& self.board.wf()
        &&& self.state == GameState::Playing ==> !has_win(self.board, Player::Yellow) && !has_win(
            self.board,
            Player::Red,
        ) && !self.board.is_full()
        &&& self.state != GameState::Playing ==> self.board.played > 0
    }

    /// The state that follows a successful placement on board `b2` by `me`.
    pub open spec fn next_state(b2: BoardModel, me: Player) -> GameState {
        if has_win(b2, me) {
            GameState::Winner(me)
        } else if b2.is_full() {
            GameState::Tie
        } else {
            GameState::Playing
        }
    }

    /// The whole game after a successful placement in column `c`: the piece
    /// dropped, the state advanced, and the turn passed on when play goes on.
    pub open spec fn play_step(self, c: int) -> GameModel {
        let me = self.player;
        let b2 = self.board.after_play(c, me);
        let st = GameModel::next_state(b2, me);
        GameModel {
            board: b2,
            state: st,
            player: if st == GameState::Playing {
                other_player(me)
            } else {
                me
            },
        }
    }
}

/// A match: one board, the player to move, and the current state, driven
/// only by `play`.
pub struct Game {
    pub board: Board,
    pub state: GameState,
    pub current_player: Player,
}

impl View for Game {
    type V = GameModel;

    open spec fn view(&self) -> GameModel {
        GameModel { board: self.board@, state: self.state, player: self.current_player }
    }
}

impl Game {
    /// A fresh match on the standard six-row, seven-column board.
    pub fn new(first_player: Player) -> (g: Game)
        ensures
            g@.wf(),
            g@.board.rows == 6,
            g@.board.cols == 7,
            g@.board.played == 0,
            forall|i: int| 0 <= i < g@.board.cells.len() ==> g@.board.cells[i] is None,
            g@.state == GameState::Playing,
            g@.player == first_player,
    {
        Game::with_size(6, 7, first_player)
    }

    /// A fresh match on a board of the given size.
    pub fn with_size(rows: usize, cols: usize, first_player: Player) -> (g: Game)
        requires
            1 <= rows,
            1 <= cols,
            rows * cols <= usize::MAX,
        ensures
            g@.wf(),
            g@.board.rows == rows,
            g@.board.cols == cols,
            g@.board.played == 0,
            forall|i: int| 0 <= i < g@.board.cells.len() ==> g@.board.cells[i] is None,
            g@.state == GameState::Playing,
            g@.player == first_player,
    {
        let g = Game {
            board: Board::new(rows, cols),
            current_player: first_player,
            state: GameState::Playing,
        };
        proof {
            lemma_empty_board_no_win(g@.board, Player::Yellow);
            lemma_empty_board_no_win(g@.board, Player::Red);
            assert(g@.board.rows * g@.board.cols >= 1) by (nonlinear_arith)
                requires
                    g@.board.rows >= 1,
                    g@.board.cols >= 1,
            ;
        }
        g
    }

    /// One turn of the state machine.  After the game has ended the call is
    /// a harmless no-op that reports success.  A rejected placement changes
    /// nothing.  A successful placement first checks for a winner, then for
    /// a full board, and otherwise passes the turn to the other player.
    pub fn play(&mut self, col: usize) -> (r: Result<(), PlayErr>)
        requires
            old(self)@.wf(),
        ensures
            final(self)@.wf(),
            old(self)@.state != GameState::Playing ==> r == Ok::<(), PlayErr>(()) && final(self)@
                == old(self)@,
            old(self)@.state == GameState::Playing && col >= old(self)@.board.cols ==> r
                == Err::<(), PlayErr>(PlayErr::OutOfBounds) && final(self)@ == old(self)@,
            old(self)@.state == GameState::Playing && col < old(self)@.board.cols && old(
                self,
            )@.board.col_full(col as int) ==> r == Err::<(), PlayErr>(PlayErr::FullColumn)
                && final(self)@ == old(self)@,
            old(self)@.state == GameState::Playing && col < old(self)@.board.cols && !old(
                self,
            )@.board.col_full(col as int) ==> {
                let me = old(self)@.player;
                let b2 = old(self)@.board.after_play(col as int, me);
                &&& r == Ok::<(), PlayErr>(())
                &&& final(self)@.board == b2
                &&& final(self)@.state == GameModel::next_state(b2, me)
                &&& final(self)@.player == if GameModel::next_state(b2, me) == GameState::Playing {
                    other_player(me)
                } else {
                    me
                }
                &&& final(self)@ == old(self)@.play_step(col as int)
            },
    {
        if self.state != GameState::Playing {
            return Ok(());
        }
        let me = self.current_player;
        let played = self.board.play(col, me);
        match played {
            Err(e) => {
                proof {
                    assert(self@ =~= old(self)@);
                }
                return Err(e);
            },
            Ok(()) => {},
        }
        proof {
            lemma_play_no_new_win_for_other(old(self)@.board, col as int, me);
        }
        let winner = get_winner(&self.board);
        match winner {
            Some(p) => {
                self.state = GameState::Winner(p);
            },
            None => {
                if self.board.is_board_full() {
                    self.state = GameState::Tie;
                } else {
                    self.current_player = opponent(me);
                }
            },
        }
        proof {
            let b2 = old(self)@.board.after_play(col as int, me);
            if has_win(b2, me) {
                assert(!has_win(b2, other_player(me)));
                assert(self@.state == GameState::Winner(me));
            }
        }
        Ok(())
    }

    /// A read-only view of the board.
    pub fn get_board(&self) -> (b: &Board)
        ensures
            b@ == self@.board,
    {
        &self.board
    }
}

impl Clone for Game {
    /// An independent game with the same value; search copies never touch
    /// the game they were cloned from.
    fn clone(&self) -> (g: Game)
        ensures
            g@ == self@,
    {
        Game {
            board: self.board.clone(),
            state: self.state,
            current_player: self.current_player,
        }
    }
}

} // verus!
