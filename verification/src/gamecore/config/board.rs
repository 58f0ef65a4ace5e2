//! Board layout constants.

use vstd::prelude::*;

verus! {

/// Number of creature slots per player.
pub const CREATURE_SLOTS: usize = 5;

/// Number of support slots per player.
pub const SUPPORT_SLOTS: usize = 2;

} // verus!
