//! The evaluator extension point the engine publishes.

use vstd::prelude::*;

use crate::board::Player;

verus! {

/// A hook for alternative position evaluators.  The engine's own scoring
/// lives beside the search; nothing in this crate implements the trait.
pub trait BoardEvaluator {
    fn find_player_sequence(&self, player: Player, size: usize);
}

} // verus!
