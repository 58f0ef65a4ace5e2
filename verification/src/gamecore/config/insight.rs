//! Commander's Insight constants.

use vstd::prelude::*;

verus! {

/// Earliest turn on which Commander's Insight may be used.
pub const MIN_TURN: u16 = 10;

/// Largest hand size at which Commander's Insight may be used.
pub const MAX_HAND_SIZE: usize = 1;

/// Essence paid for Commander's Insight.
pub const ESSENCE_COST: u8 = 4;

} // verus!
