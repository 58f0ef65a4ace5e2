//! Conversion of card-data effects into runtime effects for spells,
//! activated abilities and triggered abilities.

use vstd::prelude::*;
use crate::gamecore::cards::{AbilityDefinition, EffectDefinition};
use crate::gamecore::effects::{Effect, EffectTarget, TargetingRule};
use crate::gamecore::engine::effect_context::{effect_wf, target_wf};
use crate::gamecore::engine::passive::converted;
use crate::gamecore::engine::triggers::{creature_trigger_effect, effect_def_to_effect};
use crate::gamecore::keywords::{Keywords, keyword_bits_of_name};
use crate::gamecore::types::{PlayerId, Slot};

verus! {

/// The effect a definition produces when aimed at an explicit target
/// (token summons are described by `converted`).
pub open spec fn targeted_effect(def: EffectDefinition, target: EffectTarget, owner: PlayerId) -> Option<Effect> {
    match def {
        EffectDefinition::Damage { amount, filter } => Some(Effect::Damage { target, amount, filter }),
        EffectDefinition::Heal { amount, filter } => Some(Effect::Heal { target, amount, filter }),
        EffectDefinition::Draw { count } => Some(Effect::Draw { player: owner, count }),
        EffectDefinition::BuffStats { attack, health, filter } => Some(Effect::BuffStats { target, attack, health, filter }),
        EffectDefinition::Destroy { filter } => Some(Effect::Destroy { target, filter }),
        EffectDefinition::GrantKeyword { keyword, filter } =>
            Some(Effect::GrantKeyword { target, keyword: keyword_bits_of_name(keyword@), filter }),
        EffectDefinition::RemoveKeyword { keyword, filter } =>
            Some(Effect::RemoveKeyword { target, keyword: keyword_bits_of_name(keyword@), filter }),
        EffectDefinition::Silence { filter } => Some(Effect::Silence { target, filter }),
        EffectDefinition::GainEssence { amount } => Some(Effect::GainEssence { player: owner, amount }),
        EffectDefinition::RefreshCreature => Some(Effect::RefreshCreature { target }),
        EffectDefinition::Bounce { filter } => Some(Effect::Bounce { target, filter }),
        EffectDefinition::Copy => Some(Effect::Copy { target, owner }),
        _ => None,
    }
}

/// Whether `r` is the targeted conversion of `def`; a transform turns the
/// target into the converted token.
pub open spec fn targeted_converted(def: EffectDefinition, r: Option<Effect>, target: EffectTarget, owner: PlayerId) -> bool {
    match def {
        EffectDefinition::Transform { into } => match r {
            Some(Effect::Transform { target: t, into: tok }) => t == target && into.converts_to(tok),
            _ => false,
        },
        _ => converted(def, r, targeted_effect(def, target, owner), owner),
    }
}

/// Convert a definition into an effect aimed at `target`.
pub fn effect_def_to_effect_with_target(def: &EffectDefinition, target: EffectTarget, owner: PlayerId) -> (r: Option<Effect>)
    requires
        owner.valid(),
        target_wf(target),
    ensures
        targeted_converted(*def, r, target, owner),
        r matches Some(e) ==> effect_wf(e),
{
    match def {
        EffectDefinition::Damage { amount, filter } => Some(Effect::Damage { target, amount: *amount, filter: *filter }),
        EffectDefinition::Heal { amount, filter } => Some(Effect::Heal { target, amount: *amount, filter: *filter }),
        EffectDefinition::Draw { count } => Some(Effect::Draw { player: owner, count: *count }),
        EffectDefinition::BuffStats { attack, health, filter } =>
            Some(Effect::BuffStats { target, attack: *attack, health: *health, filter: *filter }),
        EffectDefinition::Destroy { filter } => Some(Effect::Destroy { target, filter: *filter }),
        EffectDefinition::GrantKeyword { keyword, filter } => {
            let kw = Keywords::parse_keyword_name(keyword.as_str());
            Some(Effect::GrantKeyword { target, keyword: kw, filter: *filter })
        }
        EffectDefinition::RemoveKeyword { keyword, filter } => {
            let kw = Keywords::parse_keyword_name(keyword.as_str());
            Some(Effect::RemoveKeyword { target, keyword: kw, filter: *filter })
        }
        EffectDefinition::Silence { filter } => Some(Effect::Silence { target, filter: *filter }),
        EffectDefinition::GainEssence { amount } => Some(Effect::GainEssence { player: owner, amount: *amount }),
        EffectDefinition::RefreshCreature => Some(Effect::RefreshCreature { target }),
        EffectDefinition::Bounce { filter } => Some(Effect::Bounce { target, filter: *filter }),
        EffectDefinition::SummonToken { token } => Some(Effect::SummonToken {
            owner,
            token: token.to_token_definition(),
            slot: None,
        }),
        EffectDefinition::Transform { into } => Some(Effect::Transform { target, into: into.to_token_definition() }),
        EffectDefinition::Copy => Some(Effect::Copy { target, owner }),
    }
}

/// The effect a triggered ability produces: damage aimed at the enemy
/// player when the ability targets the enemy player, otherwise the creature
/// trigger conversion.
pub open spec fn triggered_effect(def: EffectDefinition, owner: PlayerId, slot: Slot, targeting: TargetingRule) -> Option<Effect> {
    match (def, targeting) {
        (EffectDefinition::Damage { amount, filter }, TargetingRule::TargetEnemyPlayer) =>
            Some(Effect::Damage { target: EffectTarget::Player(owner.spec_opponent()), amount, filter }),
        _ => creature_trigger_effect(def, owner, slot),
    }
}

/// Convert a definition for a creature's triggered ability, honouring the
/// ability's targeting rule for damage aimed at the enemy player.
pub fn effect_def_to_triggered_effect(def: &EffectDefinition, owner: PlayerId, slot: Slot, ability: &AbilityDefinition) -> (r: Option<Effect>)
    requires
        owner.valid(),
    ensures
        converted(*def, r, triggered_effect(*def, owner, slot, ability.targeting), owner),
        r matches Some(e) ==> effect_wf(e),
{
    match (def, &ability.targeting) {
        (EffectDefinition::Damage { amount, filter }, TargetingRule::TargetEnemyPlayer) => Some(Effect::Damage {
            target: EffectTarget::Player(owner.opponent()),
            amount: *amount,
            filter: *filter,
        }),
        _ => effect_def_to_effect(def, owner, slot),
    }
}

/// Where a spell lands, given its targeting rule and the chosen slot.
pub open spec fn spell_target(targeting: TargetingRule, slot: Slot, player: PlayerId) -> Result<EffectTarget, ()> {
    match targeting {
        TargetingRule::NoTarget => Ok(EffectTarget::NoTarget),
        TargetingRule::TargetPlayer => Ok(EffectTarget::Player(player)),
        TargetingRule::TargetEnemyPlayer => Ok(EffectTarget::Player(player.spec_opponent())),
        TargetingRule::TargetAllyCreature =>
            if slot.0 < 5 { Ok(EffectTarget::Creature { owner: player, slot }) } else { Err(()) },
        _ => if slot.0 < 5 { Ok(EffectTarget::Creature { owner: player.spec_opponent(), slot }) } else { Err(()) },
    }
}

/// Resolve a spell's target from its targeting rule and the chosen slot;
/// creature targets need a slot on the board.
pub fn resolve_spell_target(targeting: &TargetingRule, slot: Slot, player: PlayerId) -> (r: Result<EffectTarget, String>)
    requires
        player.valid(),
    ensures
        r matches Ok(t) ==> spell_target(*targeting, slot, player) == Ok::<EffectTarget, ()>(t) && target_wf(t),
        r is Err <==> spell_target(*targeting, slot, player) is Err,
        r matches Err(m) ==> m@ == "Invalid target slot"@,
{
    match targeting {
        TargetingRule::NoTarget => Ok(EffectTarget::NoTarget),
        TargetingRule::TargetPlayer => Ok(EffectTarget::Player(player)),
        TargetingRule::TargetEnemyPlayer => Ok(EffectTarget::Player(player.opponent())),
        TargetingRule::TargetAllyCreature => {
            if slot.0 < 5 {
                Ok(EffectTarget::Creature { owner: player, slot })
            } else {
                Err(String::from_str("Invalid target slot"))
            }
        }
        _ => {
            if slot.0 < 5 {
                Ok(EffectTarget::Creature { owner: player.opponent(), slot })
            } else {
                Err(String::from_str("Invalid target slot"))
            }
        }
    }
}

} // verus!
