//! Per-player constants.

use vstd::prelude::*;

verus! {

/// Life each player starts with; lifesteal cannot heal above it.
pub const STARTING_LIFE: i16 = 30;

/// Maximum essence a player can have.
pub const MAX_ESSENCE: u8 = 10;

/// Essence gained per turn.
pub const ESSENCE_PER_TURN: u8 = 1;

/// Action points restored at the start of each turn.
pub const AP_PER_TURN: u8 = 3;

/// Cards drawn by each player before the first turn.
pub const STARTING_HAND_SIZE: usize = 4;

/// Extra cards the second player draws at the start.
pub const P2_BONUS_CARDS: usize = 0;

/// Essence of the first player on the first turn.
pub const STARTING_ESSENCE_P1: u8 = 1;

/// Essence of the second player on its first turn.
pub const STARTING_ESSENCE_P2: u8 = 2;

/// Maximum number of cards in hand.
pub const MAX_HAND_SIZE: usize = 10;

} // verus!
