//! Whole-game constants.

use vstd::prelude::*;

verus! {

/// Turn after which the game ends by tiebreaker.
pub const TURN_LIMIT: u16 = 30;

/// Maximum number of cards a deck holds.
pub const MAX_DECK_SIZE: usize = 40;

/// Essence extracted (cumulative damage dealt) needed to win in EssenceWar mode.
pub const VICTORY_POINTS_THRESHOLD: u16 = 50;

} // verus!
