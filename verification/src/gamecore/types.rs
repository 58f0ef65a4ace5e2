//! Small identifier types shared by the whole engine.

use vstd::prelude::*;

verus! {

/// Identifies one of the two players (0 or 1).
#[derive(Clone, Copy, Debug, PartialEq, Eq, Hash, Structural)]
pub struct PlayerId(pub u8);

impl PlayerId {
    /// The first player.
    pub fn player_one() -> (r: PlayerId)
        ensures
            r == PlayerId(0),
    {
        PlayerId(0)
    }

    /// The second player.
    pub fn player_two() -> (r: PlayerId)
        ensures
            r == PlayerId(1),
    {
        PlayerId(1)
    }

    /// A player id names one of the two seats.
    pub open spec fn valid(self) -> bool {
        self.0 < 2
    }

    /// Index of this player into per-player arrays.
    pub fn index(self) -> (r: usize)
        ensures
            r == self.0,
    {
        self.0 as usize
    }

    /// The other player.
    pub open spec fn spec_opponent(self) -> PlayerId {
        PlayerId((1 - self.0) as u8)
    }

    /// The other player.
    #[verifier::when_used_as_spec(spec_opponent)]
    pub fn opponent(self) -> (r: PlayerId)
        requires
            self.valid(),
        ensures
            r == self.spec_opponent(),
            r.valid(),
            r != self,
    {
        PlayerId(1 - self.0)
    }
}

/// A board position (creature slots 0..5, support slots 0..2).
#[derive(Clone, Copy, Debug, PartialEq, Eq, Hash, Structural)]
pub struct Slot(pub u8);

impl Slot {
    /// Slots that a non-ranged creature in this slot may attack: the slot
    /// directly across and its neighbours on the 5-slot board.
    pub open spec fn spec_adjacent(self) -> Seq<Slot> {
        if self.0 == 0 {
            seq![Slot(0), Slot(1)]
        } else if self.0 >= 4 {
            seq![Slot(3), Slot(4)]
        } else {
            seq![Slot((self.0 - 1) as u8), self, Slot((self.0 + 1) as u8)]
        }
    }

    /// Slots that a non-ranged creature in this slot may attack.
    pub fn adjacent_slots(self) -> (r: Vec<Slot>)
        ensures
            r@ == self.spec_adjacent(),
    {
        if self.0 == 0 {
            vec![Slot(0), Slot(1)]
        } else if self.0 >= 4 {
            vec![Slot(3), Slot(4)]
        } else {
            vec![Slot(self.0 - 1), self, Slot(self.0 + 1)]
        }
    }
}

/// Identifies a card (or commander) definition.
#[derive(Clone, Copy, Debug, PartialEq, Eq, Hash, Structural)]
pub struct CardId(pub u16);

/// Unique id of a creature instance on the board.
#[derive(Clone, Copy, Debug, PartialEq, Eq, Hash, Structural)]
pub struct CreatureInstanceId(pub u32);

} // verus!
