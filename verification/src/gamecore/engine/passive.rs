//! Support and commander passives, and commander triggered abilities.

use vstd::prelude::*;
use crate::gamecore::arith::{clamp_i8, sat_add_i8, sat_sub_i8};
use crate::gamecore::cards::{
    AbilityDefinition, CardDatabase, CardType, CommanderAbility, CommanderPassiveEffect,
    CommanderTrigger, CommanderTriggerCondition, EffectDefinition, PassiveModifier,
    PassiveEffectDefinition,
};
use crate::gamecore::effects::{Effect, EffectSource, EffectTarget, TargetingRule};
use crate::gamecore::engine::effect_context::{effect_wf, source_wf};
use crate::gamecore::keywords::{Keywords, keyword_bits_of_name};
use crate::gamecore::state::{Creature, GameState, ResolvedCommanderPassive, Support};
use crate::gamecore::types::{CardId, PlayerId};

verus! {

// ---------------------------------------------------------------------------
// Support passives
// ---------------------------------------------------------------------------

/// A creature with a passive modifier applied.
pub open spec fn with_modifier(c: Creature, m: PassiveModifier) -> Creature {
    match m {
        PassiveModifier::AttackBonus(a) => Creature { attack: clamp_i8(c.attack + a), ..c },
        PassiveModifier::HealthBonus(h) => Creature {
            current_health: clamp_i8(c.current_health + h),
            max_health: clamp_i8(c.max_health + h),
            ..c
        },
        PassiveModifier::GrantKeyword(name) => Creature {
            keywords: Keywords(c.keywords.0 | keyword_bits_of_name(name@)),
            ..c
        },
    }
}

/// At least one.
pub open spec fn at_least_one(x: i8) -> i8 {
    if x < 1 { 1 } else { x }
}

/// A creature with a passive modifier taken away. Health and maximum health
/// stay at least 1 (a lost aura never kills); a granted keyword is removed
/// even if the creature had it before.
pub open spec fn without_modifier(c: Creature, m: PassiveModifier) -> Creature {
    match m {
        PassiveModifier::AttackBonus(a) => Creature { attack: clamp_i8(c.attack - a), ..c },
        PassiveModifier::HealthBonus(h) => Creature {
            current_health: at_least_one(clamp_i8(c.current_health - h)),
            max_health: at_least_one(clamp_i8(c.max_health - h)),
            ..c
        },
        PassiveModifier::GrantKeyword(name) => Creature {
            keywords: Keywords(c.keywords.0 & !keyword_bits_of_name(name@)),
            ..c
        },
    }
}

/// Apply a sequence of modifiers in order.
pub open spec fn with_modifiers(c: Creature, ms: Seq<PassiveModifier>) -> Creature
    decreases ms.len(),
{
    if ms.len() == 0 { c } else { with_modifier(with_modifiers(c, ms.drop_last()), ms.last()) }
}

/// Take away a sequence of modifiers in order.
pub open spec fn without_modifiers(c: Creature, ms: Seq<PassiveModifier>) -> Creature
    decreases ms.len(),
{
    if ms.len() == 0 { c } else { without_modifier(without_modifiers(c, ms.drop_last()), ms.last()) }
}

/// Adding modifiers to a creature leaves it on its slot.
pub proof fn lemma_with_modifiers_slot(c: Creature, ms: Seq<PassiveModifier>)
    ensures
        with_modifiers(c, ms).slot == c.slot,
    decreases ms.len(),
{
    if ms.len() > 0 {
        lemma_with_modifiers_slot(c, ms.drop_last());
    }
}

/// Taking modifiers off a creature leaves it on its slot.
pub proof fn lemma_without_modifiers_slot(c: Creature, ms: Seq<PassiveModifier>)
    ensures
        without_modifiers(c, ms).slot == c.slot,
    decreases ms.len(),
{
    if ms.len() > 0 {
        lemma_without_modifiers_slot(c, ms.drop_last());
    }
}

/// The modifiers of a list of passive effects.
pub open spec fn modifiers_of(ps: Seq<PassiveEffectDefinition>) -> Seq<PassiveModifier> {
    ps.map_values(|p: PassiveEffectDefinition| p.modifier)
}

/// The passive modifiers of the support card with the given id (none if it
/// is missing or not a support).
pub open spec fn support_modifiers(db: CardDatabase, id: CardId) -> Seq<PassiveModifier> {
    match db.spec_get(id) {
        Some(def) => match def.card_type {
            CardType::Support { passive_effects, .. } => modifiers_of(passive_effects@),
            _ => Seq::empty(),
        },
        None => Seq::empty(),
    }
}

/// The passive modifiers of a list of supports, support by support.
pub open spec fn supports_modifiers(db: CardDatabase, ss: Seq<Support>) -> Seq<PassiveModifier>
    decreases ss.len(),
{
    if ss.len() == 0 {
        Seq::empty()
    } else {
        supports_modifiers(db, ss.drop_last()) + support_modifiers(db, ss.last().card_id)
    }
}

/// Applying the modifiers of `a + b` applies those of `a`, then those of `b`.
pub proof fn lemma_with_modifiers_concat(c: Creature, a: Seq<PassiveModifier>, b: Seq<PassiveModifier>)
    ensures
        with_modifiers(c, a + b) == with_modifiers(with_modifiers(c, a), b),
    decreases b.len(),
{
    if b.len() == 0 {
        assert(a + b =~= a);
    } else {
        assert((a + b).drop_last() =~= a + b.drop_last());
        lemma_with_modifiers_concat(c, a, b.drop_last());
    }
}

/// Apply one passive modifier to a creature.
pub fn apply_passive_to_creature(creature: &mut Creature, modifier: &PassiveModifier)
    ensures
        *final(creature) == with_modifier(*old(creature), *modifier),
{
    match modifier {
        PassiveModifier::AttackBonus(amount) => {
            creature.attack = sat_add_i8(creature.attack, *amount);
        }
        PassiveModifier::HealthBonus(amount) => {
            creature.current_health = sat_add_i8(creature.current_health, *amount);
            creature.max_health = sat_add_i8(creature.max_health, *amount);
        }
        PassiveModifier::GrantKeyword(keyword_name) => {
            creature.keywords.add(Keywords::parse_keyword_name(keyword_name.as_str()));
        }
    }
}

/// Remove one passive modifier from a creature.
pub fn remove_passive_from_creature(creature: &mut Creature, modifier: &PassiveModifier)
    ensures
        *final(creature) == without_modifier(*old(creature), *modifier),
{
    match modifier {
        PassiveModifier::AttackBonus(amount) => {
            creature.attack = sat_sub_i8(creature.attack, *amount);
        }
        PassiveModifier::HealthBonus(amount) => {
            creature.current_health = sat_sub_i8(creature.current_health, *amount);
            creature.max_health = sat_sub_i8(creature.max_health, *amount);
            if creature.current_health < 1 {
                creature.current_health = 1;
            }
            if creature.max_health < 1 {
                creature.max_health = 1;
            }
        }
        PassiveModifier::GrantKeyword(keyword_name) => {
            creature.keywords.remove(Keywords::parse_keyword_name(keyword_name.as_str()));
        }
    }
}

/// Apply a list of passive effects to a creature, in order.
fn apply_passive_list(creature: &mut Creature, passives: &Vec<PassiveEffectDefinition>)
    ensures
        *final(creature) == with_modifiers(*old(creature), modifiers_of(passives@)),
{
    let ghost c0 = *creature;
    let mut i: usize = 0;
    while i < passives.len()
        invariant
            i <= passives@.len(),
            *creature == with_modifiers(c0, modifiers_of(passives@).subrange(0, i as int)),
        decreases passives@.len() - i,
    {
        proof {
            let ms = modifiers_of(passives@);
            assert(ms.subrange(0, i + 1).drop_last() =~= ms.subrange(0, i as int));
        }
        apply_passive_to_creature(creature, &passives[i].modifier);
        i = i + 1;
    }
    proof {
        assert(modifiers_of(passives@).subrange(0, passives@.len() as int) =~= modifiers_of(passives@));
    }
}

/// Remove a list of passive effects from a creature, in order.
fn remove_passive_list(creature: &mut Creature, passives: &Vec<PassiveEffectDefinition>)
    ensures
        *final(creature) == without_modifiers(*old(creature), modifiers_of(passives@)),
{
    let ghost c0 = *creature;
    let mut i: usize = 0;
    while i < passives.len()
        invariant
            i <= passives@.len(),
            *creature == without_modifiers(c0, modifiers_of(passives@).subrange(0, i as int)),
        decreases passives@.len() - i,
    {
        proof {
            let ms = modifiers_of(passives@);
            assert(ms.subrange(0, i + 1).drop_last() =~= ms.subrange(0, i as int));
        }
        remove_passive_from_creature(creature, &passives[i].modifier);
        i = i + 1;
    }
    proof {
        assert(modifiers_of(passives@).subrange(0, passives@.len() as int) =~= modifiers_of(passives@));
    }
}

/// Apply the passives of all of a player's supports to one creature.
pub fn apply_all_support_passives_to_creature(creature: &mut Creature, supports: &[Support], card_db: &CardDatabase)
    ensures
        *final(creature) == with_modifiers(*old(creature), supports_modifiers(*card_db, supports@)),
{
    let ghost c0 = *creature;
    let mut i: usize = 0;
    while i < supports.len()
        invariant
            i <= supports@.len(),
            *creature == with_modifiers(c0, supports_modifiers(*card_db, supports@.subrange(0, i as int))),
        decreases supports@.len() - i,
    {
        let ghost before = *creature;
        let ghost pre = supports@.subrange(0, i as int);
        proof {
            assert(supports@.subrange(0, i + 1).drop_last() =~= pre);
            lemma_with_modifiers_concat(c0, supports_modifiers(*card_db, pre), support_modifiers(*card_db, supports@[i as int].card_id));
        }
        match card_db.get(supports[i].card_id) {
            Some(card_def) => {
                match &card_def.card_type {
                    CardType::Support { passive_effects, .. } => {
                        apply_passive_list(creature, passive_effects);
                    }
                    _ => {
                        assert(with_modifiers(before, Seq::empty()) == before);
                    }
                }
            }
            None => {
                assert(with_modifiers(before, Seq::empty()) == before);
            }
        }
        i = i + 1;
    }
    proof {
        assert(supports@.subrange(0, supports@.len() as int) =~= supports@);
    }
}

/// The passive effects of a support card, if it is one.
fn support_passive_effects<'a>(card_db: &'a CardDatabase, id: CardId) -> (r: Option<&'a Vec<PassiveEffectDefinition>>)
    ensures
        r matches Some(p) ==> modifiers_of(p@) == support_modifiers(*card_db, id),
        r is None ==> support_modifiers(*card_db, id) == Seq::<PassiveModifier>::empty(),
{
    match card_db.get(id) {
        Some(card_def) => match &card_def.card_type {
            CardType::Support { passive_effects, .. } => Some(passive_effects),
            _ => None,
        },
        None => None,
    }
}

/// Apply the passives of a newly placed support to every creature.
pub fn apply_support_passives_to_all_creatures(support_card_id: CardId, creatures: &mut Vec<Creature>, card_db: &CardDatabase)
    ensures
        final(creatures)@.len() == old(creatures)@.len(),
        forall|j: int| 0 <= j < old(creatures)@.len() ==> #[trigger] final(creatures)@[j]
            == with_modifiers(old(creatures)@[j], support_modifiers(*card_db, support_card_id)),
{
    let ghost cs0 = creatures@;
    match support_passive_effects(card_db, support_card_id) {
        Some(passives) => {
            let mut i: usize = 0;
            while i < creatures.len()
                invariant
                    i <= creatures@.len(),
                    creatures@.len() == cs0.len(),
                    modifiers_of(passives@) == support_modifiers(*card_db, support_card_id),
                    forall|j: int| 0 <= j < i ==> #[trigger] creatures@[j] == with_modifiers(cs0[j], modifiers_of(passives@)),
                    forall|j: int| i <= j < creatures@.len() ==> #[trigger] creatures@[j] == cs0[j],
                decreases creatures@.len() - i,
            {
                let mut c = creatures.remove(i);
                apply_passive_list(&mut c, passives);
                creatures.insert(i, c);
                i = i + 1;
            }
        }
        None => {
            assert forall|j: int| 0 <= j < cs0.len() implies #[trigger] creatures@[j]
                == with_modifiers(cs0[j], support_modifiers(*card_db, support_card_id)) by {}
        }
    }
}

/// Remove the passives of a support being removed from every creature.
pub fn remove_support_passives_from_all_creatures(support_card_id: CardId, creatures: &mut Vec<Creature>, card_db: &CardDatabase)
    ensures
        final(creatures)@.len() == old(creatures)@.len(),
        forall|j: int| 0 <= j < old(creatures)@.len() ==> #[trigger] final(creatures)@[j]
            == without_modifiers(old(creatures)@[j], support_modifiers(*card_db, support_card_id)),
{
    let ghost cs0 = creatures@;
    match support_passive_effects(card_db, support_card_id) {
        Some(passives) => {
            let mut i: usize = 0;
            while i < creatures.len()
                invariant
                    i <= creatures@.len(),
                    creatures@.len() == cs0.len(),
                    modifiers_of(passives@) == support_modifiers(*card_db, support_card_id),
                    forall|j: int| 0 <= j < i ==> #[trigger] creatures@[j] == without_modifiers(cs0[j], modifiers_of(passives@)),
                    forall|j: int| i <= j < creatures@.len() ==> #[trigger] creatures@[j] == cs0[j],
                decreases creatures@.len() - i,
            {
                let mut c = creatures.remove(i);
                remove_passive_list(&mut c, passives);
                creatures.insert(i, c);
                i = i + 1;
            }
        }
        None => {
            assert forall|j: int| 0 <= j < cs0.len() implies #[trigger] creatures@[j]
                == without_modifiers(cs0[j], support_modifiers(*card_db, support_card_id)) by {}
        }
    }
}

/// Removing an attack bonus undoes adding it, when neither step saturates.
pub proof fn lemma_attack_bonus_undone(c: Creature, a: i8)
    requires
        -128 <= c.attack + a <= 127,
    ensures
        without_modifier(with_modifier(c, PassiveModifier::AttackBonus(a)), PassiveModifier::AttackBonus(a)).attack == c.attack,
{
}

/// Removing a health bonus undoes adding it, when neither step saturates and
/// the creature had at least 1 health and maximum health.
pub proof fn lemma_health_bonus_undone(c: Creature, h: i8)
    requires
        -128 <= c.current_health + h <= 127,
        -128 <= c.max_health + h <= 127,
        c.current_health >= 1,
        c.max_health >= 1,
    ensures
        without_modifier(with_modifier(c, PassiveModifier::HealthBonus(h)), PassiveModifier::HealthBonus(h)).current_health == c.current_health,
        without_modifier(with_modifier(c, PassiveModifier::HealthBonus(h)), PassiveModifier::HealthBonus(h)).max_health == c.max_health,
{
}

// ---------------------------------------------------------------------------
// Effect conversion for supports and commanders
// ---------------------------------------------------------------------------

/// Whether `r` is the conversion of `def`: for a token summon, a summon of
/// the converted token for `owner` in the first free slot; otherwise `expected`.
pub open spec fn converted(def: EffectDefinition, r: Option<Effect>, expected: Option<Effect>, owner: PlayerId) -> bool {
    match def {
        EffectDefinition::SummonToken { token } => match r {
            Some(Effect::SummonToken { owner: o, token: t, slot }) => o == owner && slot is None && token.converts_to(t),
            _ => false,
        },
        _ => r == expected,
    }
}

/// The effect a support's triggered ability produces from a definition
/// (token summons are described by `converted`).
pub open spec fn support_effect(def: EffectDefinition, owner: PlayerId, targeting: TargetingRule) -> Option<Effect> {
    match def {
        EffectDefinition::Damage { amount, filter } => Some(Effect::Damage {
            target: match targeting {
                TargetingRule::TargetEnemyPlayer => EffectTarget::Player(owner.spec_opponent()),
                _ => EffectTarget::AllEnemyCreatures(owner),
            },
            amount,
            filter,
        }),
        EffectDefinition::Heal { amount, filter } => Some(Effect::Heal {
            target: match targeting {
                TargetingRule::TargetAllyCreature => EffectTarget::AllAllyCreatures(owner),
                _ => EffectTarget::Player(owner),
            },
            amount,
            filter,
        }),
        EffectDefinition::Draw { count } => Some(Effect::Draw { player: owner, count }),
        EffectDefinition::BuffStats { attack, health, filter } =>
            Some(Effect::BuffStats { target: EffectTarget::AllAllyCreatures(owner), attack, health, filter }),
        EffectDefinition::GrantKeyword { keyword, filter } => Some(Effect::GrantKeyword {
            target: EffectTarget::AllAllyCreatures(owner),
            keyword: keyword_bits_of_name(keyword@),
            filter,
        }),
        EffectDefinition::RemoveKeyword { keyword, filter } => Some(Effect::RemoveKeyword {
            target: EffectTarget::AllEnemyCreatures(owner),
            keyword: keyword_bits_of_name(keyword@),
            filter,
        }),
        EffectDefinition::GainEssence { amount } => Some(Effect::GainEssence { player: owner, amount }),
        EffectDefinition::RefreshCreature => Some(Effect::RefreshCreature { target: EffectTarget::AllAllyCreatures(owner) }),
        EffectDefinition::Bounce { filter } => Some(Effect::Bounce {
            target: match targeting {
                TargetingRule::TargetAllyCreature => EffectTarget::AllAllyCreatures(owner),
                _ => EffectTarget::AllEnemyCreatures(owner),
            },
            filter,
        }),
        _ => None,
    }
}

/// Convert a definition to an effect for a support's triggered ability.
pub fn support_effect_def_to_effect(def: &EffectDefinition, source_owner: PlayerId, ability: &AbilityDefinition) -> (r: Option<Effect>)
    requires
        source_owner.valid(),
    ensures
        converted(*def, r, support_effect(*def, source_owner, ability.targeting), source_owner),
        r matches Some(e) ==> effect_wf(e),
{
    match def {
        EffectDefinition::Damage { amount, filter } => {
            let target = match &ability.targeting {
                TargetingRule::NoTarget => EffectTarget::AllEnemyCreatures(source_owner),
                TargetingRule::TargetEnemyCreature => EffectTarget::AllEnemyCreatures(source_owner),
                TargetingRule::TargetEnemyPlayer => EffectTarget::Player(source_owner.opponent()),
                _ => EffectTarget::AllEnemyCreatures(source_owner),
            };
            Some(Effect::Damage { target, amount: *amount, filter: *filter })
        }
        EffectDefinition::Heal { amount, filter } => {
            let target = match &ability.targeting {
                TargetingRule::NoTarget => EffectTarget::Player(source_owner),
                TargetingRule::TargetPlayer => EffectTarget::Player(source_owner),
                TargetingRule::TargetAllyCreature => EffectTarget::AllAllyCreatures(source_owner),
                _ => EffectTarget::Player(source_owner),
            };
            Some(Effect::Heal { target, amount: *amount, filter: *filter })
        }
        EffectDefinition::Draw { count } => Some(Effect::Draw { player: source_owner, count: *count }),
        EffectDefinition::BuffStats { attack, health, filter } => Some(Effect::BuffStats {
            target: EffectTarget::AllAllyCreatures(source_owner),
            attack: *attack,
            health: *health,
            filter: *filter,
        }),
        EffectDefinition::Destroy { .. } => None,
        EffectDefinition::GrantKeyword { keyword, filter } => {
            let kw_bits = Keywords::parse_keyword_name(keyword.as_str());
            Some(Effect::GrantKeyword { target: EffectTarget::AllAllyCreatures(source_owner), keyword: kw_bits, filter: *filter })
        }
        EffectDefinition::RemoveKeyword { keyword, filter } => {
            let kw_bits = Keywords::parse_keyword_name(keyword.as_str());
            Some(Effect::RemoveKeyword { target: EffectTarget::AllEnemyCreatures(source_owner), keyword: kw_bits, filter: *filter })
        }
        EffectDefinition::Silence { .. } => None,
        EffectDefinition::GainEssence { amount } => Some(Effect::GainEssence { player: source_owner, amount: *amount }),
        EffectDefinition::RefreshCreature => Some(Effect::RefreshCreature { target: EffectTarget::AllAllyCreatures(source_owner) }),
        EffectDefinition::Bounce { filter } => {
            let target = match &ability.targeting {
                TargetingRule::TargetAllyCreature => EffectTarget::AllAllyCreatures(source_owner),
                _ => EffectTarget::AllEnemyCreatures(source_owner),
            };
            Some(Effect::Bounce { target, filter: *filter })
        }
        EffectDefinition::SummonToken { token } => Some(Effect::SummonToken {
            owner: source_owner,
            token: token.to_token_definition(),
            slot: None,
        }),
        EffectDefinition::Transform { .. } => None,
        EffectDefinition::Copy => None,
    }
}

/// The effect a commander's triggered ability produces from a definition
/// (token summons are described by `converted`).
pub open spec fn commander_effect(def: EffectDefinition, owner: PlayerId) -> Option<Effect> {
    match def {
        EffectDefinition::Damage { amount, filter } =>
            Some(Effect::Damage { target: EffectTarget::Player(owner.spec_opponent()), amount, filter }),
        EffectDefinition::Heal { amount, filter } =>
            Some(Effect::Heal { target: EffectTarget::Player(owner), amount, filter }),
        EffectDefinition::Draw { count } => Some(Effect::Draw { player: owner, count }),
        EffectDefinition::BuffStats { attack, health, filter } =>
            Some(Effect::BuffStats { target: EffectTarget::AllAllyCreatures(owner), attack, health, filter }),
        EffectDefinition::GrantKeyword { keyword, filter } => Some(Effect::GrantKeyword {
            target: EffectTarget::AllAllyCreatures(owner),
            keyword: keyword_bits_of_name(keyword@),
            filter,
        }),
        EffectDefinition::GainEssence { amount } => Some(Effect::GainEssence { player: owner, amount }),
        _ => None,
    }
}

/// Convert a definition to an effect for a commander's triggered ability.
fn commander_effect_def_to_effect(def: &EffectDefinition, source_owner: PlayerId) -> (r: Option<Effect>)
    requires
        source_owner.valid(),
    ensures
        converted(*def, r, commander_effect(*def, source_owner), source_owner),
        r matches Some(e) ==> effect_wf(e),
{
    match def {
        EffectDefinition::Damage { amount, filter } => Some(Effect::Damage {
            target: EffectTarget::Player(source_owner.opponent()),
            amount: *amount,
            filter: *filter,
        }),
        EffectDefinition::Heal { amount, filter } => Some(Effect::Heal {
            target: EffectTarget::Player(source_owner),
            amount: *amount,
            filter: *filter,
        }),
        EffectDefinition::Draw { count } => Some(Effect::Draw { player: source_owner, count: *count }),
        EffectDefinition::BuffStats { attack, health, filter } => Some(Effect::BuffStats {
            target: EffectTarget::AllAllyCreatures(source_owner),
            attack: *attack,
            health: *health,
            filter: *filter,
        }),
        EffectDefinition::SummonToken { token } => Some(Effect::SummonToken {
            owner: source_owner,
            token: token.to_token_definition(),
            slot: None,
        }),
        EffectDefinition::GrantKeyword { keyword, filter } => {
            let kw_bits = Keywords::parse_keyword_name(keyword.as_str());
            Some(Effect::GrantKeyword { target: EffectTarget::AllAllyCreatures(source_owner), keyword: kw_bits, filter: *filter })
        }
        EffectDefinition::GainEssence { amount } => Some(Effect::GainEssence { player: source_owner, amount: *amount }),
        _ => None,
    }
}

// ---------------------------------------------------------------------------
// Commander passives
// ---------------------------------------------------------------------------

/// Add `attack` and, when non-zero, `health` to a creature (saturating).
pub open spec fn with_stat_buff(c: Creature, attack: i8, health: i8) -> Creature {
    Creature {
        attack: clamp_i8(c.attack + attack),
        current_health: if health != 0 { clamp_i8(c.current_health + health) } else { c.current_health },
        max_health: if health != 0 { clamp_i8(c.max_health + health) } else { c.max_health },
        ..c
    }
}

/// A creature with a commander passive effect applied.
pub open spec fn with_commander_effect(c: Creature, e: CommanderPassiveEffect) -> Creature {
    match e {
        CommanderPassiveEffect::GrantKeyword { keyword } =>
            Creature { keywords: Keywords(c.keywords.0 | keyword_bits_of_name(keyword@)), ..c },
        CommanderPassiveEffect::BuffStats { attack, health } => with_stat_buff(c, attack, health),
        CommanderPassiveEffect::GrantKeywordAndBuff { keyword, attack, health } =>
            with_stat_buff(Creature { keywords: Keywords(c.keywords.0 | keyword_bits_of_name(keyword@)), ..c }, attack, health),
        CommanderPassiveEffect::BuffStatsIfKeyword { required_keyword, attack, health } =>
            if c.keywords.spec_has(keyword_bits_of_name(required_keyword@)) { with_stat_buff(c, attack, health) } else { c },
        CommanderPassiveEffect::GrantKeywordIfKeyword { required_keyword, granted_keyword } =>
            if c.keywords.spec_has(keyword_bits_of_name(required_keyword@)) {
                Creature { keywords: Keywords(c.keywords.0 | keyword_bits_of_name(granted_keyword@)), ..c }
            } else {
                c
            },
    }
}

/// Add stats to a creature as a commander passive does.
fn buff_for_commander(creature: &mut Creature, attack: i8, health: i8)
    ensures
        *final(creature) == with_stat_buff(*old(creature), attack, health),
{
    creature.attack = sat_add_i8(creature.attack, attack);
    if health != 0 {
        creature.current_health = sat_add_i8(creature.current_health, health);
        creature.max_health = sat_add_i8(creature.max_health, health);
    }
}

/// Apply a commander's passive effect to a creature.
pub fn apply_commander_passive_to_creature(creature: &mut Creature, effect: &CommanderPassiveEffect)
    ensures
        *final(creature) == with_commander_effect(*old(creature), *effect),
{
    match effect {
        CommanderPassiveEffect::GrantKeyword { keyword } => {
            creature.keywords.add(Keywords::parse_keyword_name(keyword.as_str()));
        }
        CommanderPassiveEffect::BuffStats { attack, health } => {
            buff_for_commander(creature, *attack, *health);
        }
        CommanderPassiveEffect::GrantKeywordAndBuff { keyword, attack, health } => {
            creature.keywords.add(Keywords::parse_keyword_name(keyword.as_str()));
            buff_for_commander(creature, *attack, *health);
        }
        CommanderPassiveEffect::BuffStatsIfKeyword { required_keyword, attack, health } => {
            let required = Keywords::parse_keyword_name(required_keyword.as_str());
            if creature.keywords.has(required) {
                buff_for_commander(creature, *attack, *health);
            }
        }
        CommanderPassiveEffect::GrantKeywordIfKeyword { required_keyword, granted_keyword } => {
            let required = Keywords::parse_keyword_name(required_keyword.as_str());
            if creature.keywords.has(required) {
                creature.keywords.add(Keywords::parse_keyword_name(granted_keyword.as_str()));
            }
        }
    }
}

/// The passive effect of a commander, if it has one.
pub open spec fn commander_passive_effect(db: CardDatabase, commander_id: Option<CardId>) -> Option<CommanderPassiveEffect> {
    match commander_id {
        Some(id) => match db.spec_get_commander(id) {
            Some(c) => match c.ability {
                CommanderAbility::Passive { passive_ability } => Some(passive_ability.effect),
                _ => None,
            },
            None => None,
        },
        None => None,
    }
}

/// Apply a commander's passive to every creature.
pub fn apply_commander_passive_to_all_creatures(commander_id: Option<CardId>, creatures: &mut Vec<Creature>, card_db: &CardDatabase)
    ensures
        final(creatures)@.len() == old(creatures)@.len(),
        forall|j: int| 0 <= j < old(creatures)@.len() ==> #[trigger] final(creatures)@[j] == (match commander_passive_effect(*card_db, commander_id) {
            Some(e) => with_commander_effect(old(creatures)@[j], e),
            None => old(creatures)@[j],
        }),
{
    if let Some(cmd_id) = commander_id {
        if let Some(commander) = card_db.get_commander(cmd_id) {
            if let CommanderAbility::Passive { passive_ability } = &commander.ability {
                let ghost cs0 = creatures@;
                let mut i: usize = 0;
                while i < creatures.len()
                    invariant
                        i <= creatures@.len(),
                        creatures@.len() == cs0.len(),
                        commander_passive_effect(*card_db, commander_id) == Some(passive_ability.effect),
                        forall|j: int| 0 <= j < i ==> #[trigger] creatures@[j] == with_commander_effect(cs0[j], passive_ability.effect),
                        forall|j: int| i <= j < creatures@.len() ==> #[trigger] creatures@[j] == cs0[j],
                    decreases creatures@.len() - i,
                {
                    let mut c = creatures.remove(i);
                    apply_commander_passive_to_creature(&mut c, &passive_ability.effect);
                    creatures.insert(i, c);
                    i = i + 1;
                }
            }
        }
    }
}

/// The cached form of a commander passive effect.
pub open spec fn resolved_passive_of(e: Option<CommanderPassiveEffect>) -> ResolvedCommanderPassive {
    let z = ResolvedCommanderPassive {
        grant_keyword: 0,
        attack_bonus: 0,
        health_bonus: 0,
        required_keyword: 0,
        conditional_grant_keyword: 0,
    };
    match e {
        Some(CommanderPassiveEffect::GrantKeyword { keyword }) =>
            ResolvedCommanderPassive { grant_keyword: keyword_bits_of_name(keyword@), ..z },
        Some(CommanderPassiveEffect::BuffStats { attack, health }) =>
            ResolvedCommanderPassive { attack_bonus: attack, health_bonus: health, ..z },
        Some(CommanderPassiveEffect::GrantKeywordAndBuff { keyword, attack, health }) =>
            ResolvedCommanderPassive { grant_keyword: keyword_bits_of_name(keyword@), attack_bonus: attack, health_bonus: health, ..z },
        Some(CommanderPassiveEffect::BuffStatsIfKeyword { required_keyword, attack, health }) =>
            ResolvedCommanderPassive { required_keyword: keyword_bits_of_name(required_keyword@), attack_bonus: attack, health_bonus: health, ..z },
        Some(CommanderPassiveEffect::GrantKeywordIfKeyword { required_keyword, granted_keyword }) =>
            ResolvedCommanderPassive {
                required_keyword: keyword_bits_of_name(required_keyword@),
                conditional_grant_keyword: keyword_bits_of_name(granted_keyword@),
                ..z
            },
        None => z,
    }
}

/// Resolve a commander's passive ability into its cached form.
pub fn resolve_commander_passive(commander_id: Option<CardId>, card_db: &CardDatabase) -> (r: ResolvedCommanderPassive)
    ensures
        r == resolved_passive_of(commander_passive_effect(*card_db, commander_id)),
{
    let mut resolved = ResolvedCommanderPassive::default();
    if let Some(cmd_id) = commander_id {
        if let Some(commander) = card_db.get_commander(cmd_id) {
            if let CommanderAbility::Passive { passive_ability } = &commander.ability {
                match &passive_ability.effect {
                    CommanderPassiveEffect::GrantKeyword { keyword } => {
                        resolved.grant_keyword = Keywords::parse_keyword_name(keyword.as_str());
                    }
                    CommanderPassiveEffect::BuffStats { attack, health } => {
                        resolved.attack_bonus = *attack;
                        resolved.health_bonus = *health;
                    }
                    CommanderPassiveEffect::GrantKeywordAndBuff { keyword, attack, health } => {
                        resolved.grant_keyword = Keywords::parse_keyword_name(keyword.as_str());
                        resolved.attack_bonus = *attack;
                        resolved.health_bonus = *health;
                    }
                    CommanderPassiveEffect::BuffStatsIfKeyword { required_keyword, attack, health } => {
                        resolved.required_keyword = Keywords::parse_keyword_name(required_keyword.as_str());
                        resolved.attack_bonus = *attack;
                        resolved.health_bonus = *health;
                    }
                    CommanderPassiveEffect::GrantKeywordIfKeyword { required_keyword, granted_keyword } => {
                        resolved.required_keyword = Keywords::parse_keyword_name(required_keyword.as_str());
                        resolved.conditional_grant_keyword = Keywords::parse_keyword_name(granted_keyword.as_str());
                    }
                }
            }
        }
    }
    resolved
}

/// A creature with a cached commander passive applied: the unconditional
/// keyword, then the stat bonus (when no keyword is required or the
/// creature has it), then the conditional keyword.
pub open spec fn with_cached_passive(c: Creature, p: ResolvedCommanderPassive) -> Creature {
    if !p.spec_has_passive() {
        c
    } else {
        let c1 = if p.grant_keyword != 0 { Creature { keywords: Keywords(c.keywords.0 | p.grant_keyword), ..c } } else { c };
        let c2 = if p.required_keyword == 0 || c1.keywords.spec_has(p.required_keyword) {
            with_stat_buff(c1, p.attack_bonus, p.health_bonus)
        } else {
            c1
        };
        if p.conditional_grant_keyword != 0 && c2.keywords.spec_has(p.required_keyword) {
            Creature { keywords: Keywords(c2.keywords.0 | p.conditional_grant_keyword), ..c2 }
        } else {
            c2
        }
    }
}

/// Apply a cached commander passive to a creature.
pub fn apply_commander_passive_from_cache(creature: &mut Creature, passive: &ResolvedCommanderPassive)
    ensures
        *final(creature) == with_cached_passive(*old(creature), *passive),
{
    if !passive.has_passive() {
        return;
    }
    if passive.grant_keyword != 0 {
        creature.keywords.add(passive.grant_keyword);
    }
    let should_apply_stats = passive.required_keyword == 0 || creature.keywords.has(passive.required_keyword);
    if should_apply_stats {
        buff_for_commander(creature, passive.attack_bonus, passive.health_bonus);
    }
    if passive.conditional_grant_keyword != 0 && creature.keywords.has(passive.required_keyword) {
        creature.keywords.add(passive.conditional_grant_keyword);
    }
}

// ---------------------------------------------------------------------------
// Commander triggered abilities
// ---------------------------------------------------------------------------

/// Whether a creature with these keywords meets a commander trigger condition.
pub open spec fn commander_condition_met(condition: Option<CommanderTriggerCondition>, keywords: Keywords) -> bool {
    match condition {
        None => true,
        Some(cond) => match cond.has_keyword {
            Some(name) => keywords.spec_has(keyword_bits_of_name(name@)),
            None => true,
        },
    }
}

/// Whether a creature with these keywords meets a commander trigger condition.
pub fn check_commander_condition(condition: &Option<CommanderTriggerCondition>, creature_keywords: Keywords) -> (r: bool)
    ensures
        r == commander_condition_met(*condition, creature_keywords),
{
    match condition {
        None => true,
        Some(cond) => match &cond.has_keyword {
            Some(keyword_name) => {
                let required = Keywords::parse_keyword_name(keyword_name.as_str());
                creature_keywords.has(required)
            }
            None => true,
        },
    }
}

/// The effect definitions a commander's trigger fires, given the
/// triggering creature's keywords (`None`: the condition is not checked).
pub open spec fn commander_trigger_defs(db: CardDatabase, id: CardId, trigger: CommanderTrigger, keywords: Option<Keywords>) -> Seq<EffectDefinition> {
    match db.spec_get_commander(id) {
        Some(c) => match c.ability {
            CommanderAbility::Triggered { triggered_ability } =>
                if triggered_ability.trigger == trigger && (match keywords {
                    Some(k) => commander_condition_met(triggered_ability.condition, k),
                    None => true,
                }) {
                    triggered_ability.effects@
                } else {
                    Seq::empty()
                },
            _ => Seq::empty(),
        },
        None => Seq::empty(),
    }
}

/// Whether `out` is the list of commander effects converted from `defs`, in
/// order, skipping the definitions that commanders cannot use.
pub open spec fn commander_collected(defs: Seq<EffectDefinition>, out: Seq<(Effect, EffectSource)>, owner: PlayerId) -> bool
    decreases defs.len(),
{
    if defs.len() == 0 {
        out.len() == 0
    } else {
        let d = defs.last();
        if commander_effect(d, owner) is Some || d is SummonToken {
            &&& out.len() > 0
            &&& converted(d, Some(out.last().0), commander_effect(d, owner), owner)
            &&& out.last().1 == EffectSource::Commander { owner }
            &&& commander_collected(defs.drop_last(), out.drop_last(), owner)
        } else {
            commander_collected(defs.drop_last(), out, owner)
        }
    }
}

/// Every collected commander effect is well formed and sourced from the commander.
pub proof fn lemma_commander_collected(defs: Seq<EffectDefinition>, out: Seq<(Effect, EffectSource)>, owner: PlayerId)
    requires
        commander_collected(defs, out, owner),
        owner.valid(),
    ensures
        forall|j: int| 0 <= j < out.len() ==> (#[trigger] out[j]).1 == (EffectSource::Commander { owner }) && effect_wf(out[j].0),
        out.len() <= defs.len(),
    decreases defs.len(),
{
    if defs.len() > 0 {
        let d = defs.last();
        if commander_effect(d, owner) is Some || d is SummonToken {
            lemma_commander_collected(defs.drop_last(), out.drop_last(), owner);
            assert forall|j: int| 0 <= j < out.len() implies (#[trigger] out[j]).1 == EffectSource::Commander { owner } && effect_wf(out[j].0) by {
                if j < out.len() - 1 {
                    assert(out[j] == out.drop_last()[j]);
                }
            }
        } else {
            lemma_commander_collected(defs.drop_last(), out, owner);
        }
    }
}

/// Collect the effects of a commander's triggered ability for a trigger.
/// `condition_keywords` are the keywords of the creature that fired the
/// trigger; when given, the ability's condition must hold for them.
pub fn collect_commander_trigger_effects(
    commander_id: CardId,
    owner: PlayerId,
    trigger: CommanderTrigger,
    card_db: &CardDatabase,
    condition_keywords: Option<Keywords>,
) -> (r: Vec<(Effect, EffectSource)>)
    requires
        owner.valid(),
    ensures
        commander_collected(commander_trigger_defs(*card_db, commander_id, trigger, condition_keywords), r@, owner),
{
    let mut effects: Vec<(Effect, EffectSource)> = Vec::new();
    if let Some(commander) = card_db.get_commander(commander_id) {
        if let Some(triggered) = commander.triggered_ability() {
            let cond_ok = match condition_keywords {
                Some(k) => check_commander_condition(&triggered.condition, k),
                None => true,
            };
            if triggered.trigger == trigger && cond_ok {
                let source = EffectSource::Commander { owner };
                let defs = &triggered.effects;
                let mut i: usize = 0;
                while i < defs.len()
                    invariant
                        i <= defs@.len(),
                        owner.valid(),
                        source == (EffectSource::Commander { owner }),
                        commander_collected(defs@.subrange(0, i as int), effects@, owner),
                    decreases defs@.len() - i,
                {
                    let ghost pre = defs@.subrange(0, i as int);
                    let ghost before = effects@;
                    proof {
                        assert(defs@.subrange(0, i + 1).drop_last() =~= pre);
                        assert(defs@.subrange(0, i + 1).last() == defs@[i as int]);
                    }
                    match commander_effect_def_to_effect(&defs[i], owner) {
                        Some(effect) => {
                            effects.push((effect, source));
                            proof {
                                assert(effects@.drop_last() =~= before);
                                assert(commander_effect(defs@[i as int], owner) is Some || defs@[i as int] is SummonToken);
                                assert(commander_collected(defs@.subrange(0, i + 1), effects@, owner));
                            }
                        }
                        None => {
                            proof {
                                assert(!(commander_effect(defs@[i as int], owner) is Some) && !(defs@[i as int] is SummonToken));
                                assert(commander_collected(defs@.subrange(0, i + 1), effects@, owner));
                            }
                        }
                    }
                    i = i + 1;
                }
                proof {
                    assert(defs@.subrange(0, defs@.len() as int) =~= defs@);
                }
                return effects;
            }
        }
    }
    effects
}

/// The commander effects a player's commander fires for a trigger.
fn collect_for_player(state: &GameState, player: PlayerId, trigger: CommanderTrigger, card_db: &CardDatabase, keywords: Option<Keywords>)
    -> (r: Vec<(Effect, EffectSource)>)
    requires
        player.valid(),
    ensures
        match state.spec_commander(player) {
            Some(id) => commander_collected(commander_trigger_defs(*card_db, id, trigger, keywords), r@, player),
            None => r@.len() == 0,
        },
{
    match state.get_commander(player) {
        Some(commander_id) => collect_commander_trigger_effects(commander_id, player, trigger, card_db, keywords),
        None => Vec::new(),
    }
}

/// The effects a player's commander fires for a trigger, as collected.
pub open spec fn commander_fires(state: GameState, player: PlayerId, trigger: CommanderTrigger, db: CardDatabase,
    keywords: Option<Keywords>, r: Seq<(Effect, EffectSource)>) -> bool {
    match state.spec_commander(player) {
        Some(id) => commander_collected(commander_trigger_defs(db, id, trigger, keywords), r, player),
        None => r.len() == 0,
    }
}

/// StartOfTurn effects of a player's commander.
pub fn collect_commander_start_of_turn_effects(state: &GameState, player: PlayerId, card_db: &CardDatabase) -> (r: Vec<(Effect, EffectSource)>)
    requires
        player.valid(),
    ensures
        commander_fires(*state, player, CommanderTrigger::StartOfTurn, *card_db, None, r@),
{
    collect_for_player(state, player, CommanderTrigger::StartOfTurn, card_db, None)
}

/// OnCreaturePlayed effects of a player's commander for a creature with these keywords.
pub fn collect_commander_creature_played_effects(state: &GameState, player: PlayerId, creature_keywords: Keywords, card_db: &CardDatabase)
    -> (r: Vec<(Effect, EffectSource)>)
    requires
        player.valid(),
    ensures
        commander_fires(*state, player, CommanderTrigger::OnCreaturePlayed, *card_db, Some(creature_keywords), r@),
{
    collect_for_player(state, player, CommanderTrigger::OnCreaturePlayed, card_db, Some(creature_keywords))
}

/// OnAllyDeath effects of a player's commander.
pub fn collect_commander_ally_death_effects(state: &GameState, player: PlayerId, card_db: &CardDatabase) -> (r: Vec<(Effect, EffectSource)>)
    requires
        player.valid(),
    ensures
        commander_fires(*state, player, CommanderTrigger::OnAllyDeath, *card_db, None, r@),
{
    collect_for_player(state, player, CommanderTrigger::OnAllyDeath, card_db, None)
}

/// OnEnemyDeath effects of the opponent of the dying creature's owner.
pub fn collect_commander_enemy_death_effects(state: &GameState, dying_creature_owner: PlayerId, card_db: &CardDatabase)
    -> (r: Vec<(Effect, EffectSource)>)
    requires
        dying_creature_owner.valid(),
    ensures
        commander_fires(*state, dying_creature_owner.spec_opponent(), CommanderTrigger::OnEnemyDeath, *card_db, None, r@),
{
    let opponent = dying_creature_owner.opponent();
    collect_for_player(state, opponent, CommanderTrigger::OnEnemyDeath, card_db, None)
}

/// OnAttack effects of the attacking player's commander.
pub fn collect_commander_attack_effects(state: &GameState, attacker_owner: PlayerId, card_db: &CardDatabase) -> (r: Vec<(Effect, EffectSource)>)
    requires
        attacker_owner.valid(),
    ensures
        commander_fires(*state, attacker_owner, CommanderTrigger::OnAttack, *card_db, None, r@),
{
    collect_for_player(state, attacker_owner, CommanderTrigger::OnAttack, card_db, None)
}

/// OnAnyDeath effects of a player's commander.
pub fn collect_commander_any_death_effects(state: &GameState, commander_owner: PlayerId, card_db: &CardDatabase) -> (r: Vec<(Effect, EffectSource)>)
    requires
        commander_owner.valid(),
    ensures
        commander_fires(*state, commander_owner, CommanderTrigger::OnAnyDeath, *card_db, None, r@),
{
    collect_for_player(state, commander_owner, CommanderTrigger::OnAnyDeath, card_db, None)
}

/// OnKill effects of the killing player's commander.
pub fn collect_commander_kill_effects(state: &GameState, killer_owner: PlayerId, card_db: &CardDatabase) -> (r: Vec<(Effect, EffectSource)>)
    requires
        killer_owner.valid(),
    ensures
        commander_fires(*state, killer_owner, CommanderTrigger::OnKill, *card_db, None, r@),
{
    collect_for_player(state, killer_owner, CommanderTrigger::OnKill, card_db, None)
}

/// Collected commander effects are well formed and come from the commander.
pub proof fn lemma_commander_fires(state: GameState, player: PlayerId, trigger: CommanderTrigger, db: CardDatabase,
    keywords: Option<Keywords>, r: Seq<(Effect, EffectSource)>)
    requires
        commander_fires(state, player, trigger, db, keywords, r),
        player.valid(),
    ensures
        forall|j: int| 0 <= j < r.len() ==> (#[trigger] r[j]).1 == (EffectSource::Commander { owner: player }) && effect_wf(r[j].0),
{
    match state.spec_commander(player) {
        Some(id) => lemma_commander_collected(commander_trigger_defs(db, id, trigger, keywords), r, player),
        None => {}
    }
}

} // verus!
