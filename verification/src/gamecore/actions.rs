//! Player actions and their encoding into the 256-entry action space.

use vstd::prelude::*;
use crate::gamecore::types::Slot;

verus! {

/// Target of an activated ability.
#[derive(Clone, Copy, Debug, PartialEq, Eq, Hash, Structural)]
pub enum Target {
    /// No creature target (the enemy commander for token abilities).
    NoTarget,
    /// An enemy creature slot.
    EnemySlot(Slot),
    /// The ability's own creature.
    Self_,
}

/// Something the active player can do.
#[derive(Clone, Copy, Debug, PartialEq, Eq, Hash, Structural)]
pub enum Action {
    PlayCard { hand_index: u8, slot: Slot },
    Attack { attacker: Slot, defender: Slot },
    UseAbility { slot: Slot, ability_index: u8, target: Target },
    CommanderInsight,
    EndTurn,
}

impl Target {
    /// The target fits the encoding (enemy slots 0..5).
    pub open spec fn encodable(self) -> bool {
        match self {
            Target::EnemySlot(s) => s.0 < 5,
            _ => true,
        }
    }

    pub open spec fn spec_to_index(self) -> int {
        match self {
            Target::NoTarget => 0,
            Target::EnemySlot(s) => 1 + s.0,
            Target::Self_ => 6,
        }
    }

    /// Position of this target in an ability's block of seven targets.
    pub fn to_index(&self) -> (r: u8)
        requires
            self.encodable(),
        ensures
            r == self.spec_to_index(),
            r < 7,
    {
        match self {
            Target::NoTarget => 0,
            Target::EnemySlot(s) => 1 + s.0,
            Target::Self_ => 6,
        }
    }

    pub open spec fn spec_from_index(i: int) -> Target {
        if i == 0 { Target::NoTarget } else if i == 6 { Target::Self_ } else { Target::EnemySlot(Slot((i - 1) as u8)) }
    }
}

/// First index of the ability block of the action space.
pub const ABILITY_BASE: u8 = 150;
/// Index of Commander's Insight.
pub const INSIGHT_INDEX: u8 = 254;
/// Index of ending the turn.
pub const END_TURN_INDEX: u8 = 255;

impl Action {
    /// The action fits the encoding: hand index below 10, slots below 5,
    /// ability index below 2.
    pub open spec fn encodable(self) -> bool {
        match self {
            Action::PlayCard { hand_index, slot } => hand_index < 10 && slot.0 < 5,
            Action::Attack { attacker, defender } => attacker.0 < 5 && defender.0 < 5,
            Action::UseAbility { slot, ability_index, target } => slot.0 < 5 && ability_index < 2 && target.encodable(),
            _ => true,
        }
    }

    /// Index of the action in the 256-entry action space.
    pub open spec fn spec_to_index(self) -> int {
        match self {
            Action::PlayCard { hand_index, slot } => hand_index * 5 + slot.0,
            Action::Attack { attacker, defender } => 50 + attacker.0 * 5 + defender.0,
            Action::UseAbility { slot, ability_index, target } =>
                150 + slot.0 * 20 + ability_index * 7 + target.spec_to_index(),
            Action::CommanderInsight => 254,
            Action::EndTurn => 255,
        }
    }

    /// Index of the action in the 256-entry action space.
    pub fn to_index(&self) -> (r: u8)
        requires
            self.encodable(),
        ensures
            r == self.spec_to_index(),
    {
        match self {
            Action::PlayCard { hand_index, slot } => *hand_index * 5 + slot.0,
            Action::Attack { attacker, defender } => 50 + attacker.0 * 5 + defender.0,
            Action::UseAbility { slot, ability_index, target } =>
                ABILITY_BASE + slot.0 * 20 + *ability_index * 7 + target.to_index(),
            Action::CommanderInsight => INSIGHT_INDEX,
            Action::EndTurn => END_TURN_INDEX,
        }
    }

    /// The action with the given index, if the index names one.
    pub open spec fn spec_from_index(i: u8) -> Option<Action> {
        if i < 50 {
            Some(Action::PlayCard { hand_index: (i / 5) as u8, slot: Slot((i % 5) as u8) })
        } else if i < 75 {
            Some(Action::Attack { attacker: Slot(((i - 50) / 5) as u8), defender: Slot(((i - 50) % 5) as u8) })
        } else if 150 <= i < 250 && (i - 150) % 20 < 14 {
            Some(Action::UseAbility {
                slot: Slot(((i - 150) / 20) as u8),
                ability_index: (((i - 150) % 20) / 7) as u8,
                target: Target::spec_from_index(((i - 150) % 20) % 7),
            })
        } else if i == 254 {
            Some(Action::CommanderInsight)
        } else if i == 255 {
            Some(Action::EndTurn)
        } else {
            None
        }
    }

    /// Decode an action index.
    pub fn from_index(i: u8) -> (r: Option<Action>)
        ensures
            r == Self::spec_from_index(i),
    {
        if i < 50 {
            Some(Action::PlayCard { hand_index: i / 5, slot: Slot(i % 5) })
        } else if i < 75 {
            Some(Action::Attack { attacker: Slot((i - 50) / 5), defender: Slot((i - 50) % 5) })
        } else if 150 <= i && i < 250 && (i - 150) % 20 < 14 {
            let rel = i - 150;
            let within = rel % 20;
            let t = within % 7;
            let target = if t == 0 {
                Target::NoTarget
            } else if t == 6 {
                Target::Self_
            } else {
                Target::EnemySlot(Slot(t - 1))
            };
            Some(Action::UseAbility { slot: Slot(rel / 20), ability_index: within / 7, target })
        } else if i == INSIGHT_INDEX {
            Some(Action::CommanderInsight)
        } else if i == END_TURN_INDEX {
            Some(Action::EndTurn)
        } else {
            None
        }
    }

    /// Whether the action fits the encoding.
    pub fn is_encodable(&self) -> (r: bool)
        ensures
            r == self.encodable(),
    {
        match self {
            Action::PlayCard { hand_index, slot } => *hand_index < 10 && slot.0 < 5,
            Action::Attack { attacker, defender } => attacker.0 < 5 && defender.0 < 5,
            Action::UseAbility { slot, ability_index, target } => slot.0 < 5 && *ability_index < 2
                && match target { Target::EnemySlot(s) => s.0 < 5, _ => true },
            _ => true,
        }
    }
}

/// Decoding the index of an encodable action gives the action back.
pub proof fn lemma_action_index_roundtrip(a: Action)
    requires
        a.encodable(),
    ensures
        0 <= a.spec_to_index() < 256,
        Action::spec_from_index(a.spec_to_index() as u8) == Some(a),
{
    match a {
        Action::PlayCard { hand_index, slot } => {
            let i = hand_index * 5 + slot.0;
            assert((i / 5) == hand_index && i % 5 == slot.0) by (nonlinear_arith)
                requires i == hand_index * 5 + slot.0, slot.0 < 5, hand_index >= 0, slot.0 >= 0;
        }
        Action::Attack { attacker, defender } => {
            let i = attacker.0 * 5 + defender.0;
            assert((i / 5) == attacker.0 && i % 5 == defender.0) by (nonlinear_arith)
                requires i == attacker.0 * 5 + defender.0, defender.0 < 5, attacker.0 >= 0, defender.0 >= 0;
        }
        Action::UseAbility { slot, ability_index, target } => {
            let t = target.spec_to_index();
            let w = ability_index * 7 + t;
            let rel = slot.0 * 20 + w;
            assert(0 <= t < 7);
            assert(w / 7 == ability_index && w % 7 == t && 0 <= w < 14) by (nonlinear_arith)
                requires w == ability_index * 7 + t, 0 <= t < 7, 0 <= ability_index < 2;
            assert(rel / 20 == slot.0 && rel % 20 == w) by (nonlinear_arith)
                requires rel == slot.0 * 20 + w, 0 <= w < 14, slot.0 >= 0;
            assert(Target::spec_from_index(t) == target);
        }
        _ => {}
    }
}

/// Every index that names an action is the index of that action.
pub proof fn lemma_index_action_roundtrip(i: u8)
    requires
        Action::spec_from_index(i) is Some,
    ensures
        Action::spec_from_index(i).unwrap().encodable(),
        Action::spec_from_index(i).unwrap().spec_to_index() == i,
{
    if i >= 150 && i < 250 {
        let rel = i - 150;
        let w = rel % 20;
        assert(rel == (rel / 20) * 20 + w && rel / 20 < 5) by (nonlinear_arith)
            requires 0 <= rel < 100, w == rel % 20;
        assert(w == (w / 7) * 7 + w % 7) by (nonlinear_arith) requires w >= 0;
    } else if i < 50 {
        assert(i == (i / 5) * 5 + i % 5) by (nonlinear_arith);
    } else if i < 75 {
        let rel = i - 50;
        assert(rel == (rel / 5) * 5 + rel % 5 && rel / 5 < 5) by (nonlinear_arith) requires 0 <= rel < 25;
    }
}

/// "Slot(<n>)".
pub open spec fn slot_text(s: Slot) -> Seq<char> {
    "Slot("@ + crate::gamecore::text::dec(s.0 as nat) + ")"@
}

/// The debug text of a target.
pub open spec fn target_text(t: Target) -> Seq<char> {
    match t {
        Target::NoTarget => "NoTarget"@,
        Target::EnemySlot(s) => "EnemySlot("@ + slot_text(s) + ")"@,
        Target::Self_ => "Self_"@,
    }
}

/// The debug text of an action.
pub open spec fn action_text(a: Action) -> Seq<char> {
    match a {
        Action::PlayCard { hand_index, slot } => "PlayCard { hand_index: "@ + crate::gamecore::text::dec(hand_index as nat)
            + ", slot: "@ + slot_text(slot) + " }"@,
        Action::Attack { attacker, defender } => "Attack { attacker: "@ + slot_text(attacker) + ", defender: "@
            + slot_text(defender) + " }"@,
        Action::UseAbility { slot, ability_index, target } => "UseAbility { slot: "@ + slot_text(slot)
            + ", ability_index: "@ + crate::gamecore::text::dec(ability_index as nat) + ", target: "@ + target_text(target) + " }"@,
        Action::CommanderInsight => "CommanderInsight"@,
        Action::EndTurn => "EndTurn"@,
    }
}

/// "Slot(<n>)".
fn slot_string(s: Slot) -> (r: String)
    ensures
        r@ == slot_text(s),
{
    let mut t = String::from_str("Slot(");
    t.append(crate::gamecore::text::decimal(s.0 as u64).as_str());
    t.append(")");
    t
}

/// The debug text of an action.
pub fn action_string(a: &Action) -> (r: String)
    ensures
        r@ == action_text(*a),
{
    match a {
        Action::PlayCard { hand_index, slot } => {
            let mut t = String::from_str("PlayCard { hand_index: ");
            t.append(crate::gamecore::text::decimal(*hand_index as u64).as_str());
            t.append(", slot: ");
            t.append(slot_string(*slot).as_str());
            t.append(" }");
            t
        }
        Action::Attack { attacker, defender } => {
            let mut t = String::from_str("Attack { attacker: ");
            t.append(slot_string(*attacker).as_str());
            t.append(", defender: ");
            t.append(slot_string(*defender).as_str());
            t.append(" }");
            t
        }
        Action::UseAbility { slot, ability_index, target } => {
            let mut t = String::from_str("UseAbility { slot: ");
            t.append(slot_string(*slot).as_str());
            t.append(", ability_index: ");
            t.append(crate::gamecore::text::decimal(*ability_index as u64).as_str());
            t.append(", target: ");
            match target {
                Target::NoTarget => t.append("NoTarget"),
                Target::EnemySlot(s) => {
                    t.append("EnemySlot(");
                    t.append(slot_string(*s).as_str());
                    t.append(")");
                }
                Target::Self_ => t.append("Self_"),
            }
            t.append(" }");
            t
        }
        Action::CommanderInsight => String::from_str("CommanderInsight"),
        Action::EndTurn => String::from_str("EndTurn"),
    }
}

} // verus!
