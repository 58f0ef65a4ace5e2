//! The UseAbility action: token abilities and activated card abilities.

use vstd::prelude::*;
use crate::gamecore::actions::Target;
use crate::gamecore::cards::{AbilityDefinition, CardDatabase, CardType};
use crate::gamecore::effects::{Effect, EffectSource, EffectTarget, TokenAbility, TokenEffect, Trigger, duplicate_token_abilities};
use crate::gamecore::engine::actions::ActionContext;
use crate::gamecore::engine::effect_convert::effect_def_to_effect_with_target;
use crate::gamecore::engine::effect_queue::{EffectQueue, resolved, same_turn};
use crate::gamecore::engine::actions::play_card::defs_queued;
use crate::gamecore::effects::PendingEffect;
use crate::gamecore::state::{Creature, CreatureStatus, GameState, PlayerState, find_creature_index, lemma_slot_index, slot_index};
use crate::gamecore::types::{PlayerId, Slot};

verus! {

/// The creature at the active player's `slot`, if any.
pub open spec fn active_creature(s: GameState, slot: Slot) -> Option<Creature> {
    let b = s.players[s.active_player.0 as int].creatures@;
    let k = slot_index(b, slot);
    if k < 0 { None } else { Some(b[k]) }
}

/// Why the ability `ability_index` of the active player's creature at `slot`
/// cannot be used, if it cannot.
pub open spec fn ability_error(s: GameState, db: CardDatabase, slot: Slot, ability_index: u8) -> Option<Seq<char>> {
    let essence = s.players[s.active_player.0 as int].current_essence;
    match active_creature(s, slot) {
        None => Some("No creature at slot"@),
        Some(c) =>
            if c.status.spec_silenced() {
                Some("Creature is silenced"@)
            } else if c.status.spec_exhausted() {
                Some("Creature is exhausted"@)
            } else {
                match c.token_abilities {
                    Some(v) =>
                        if ability_index >= v@.len() {
                            Some("Invalid ability index"@)
                        } else if v@[ability_index as int].essence_cost > essence {
                            Some("Not enough essence"@)
                        } else {
                            None
                        },
                    None => match db.spec_get(c.card_id) {
                        None => Some("Card not found"@),
                        Some(def) => match def.card_type {
                            CardType::Creature { abilities, .. } =>
                                if ability_index >= abilities@.len() {
                                    Some("Invalid ability index"@)
                                } else if abilities@[ability_index as int].trigger != Trigger::Activated {
                                    Some("Not an activated ability"@)
                                } else if abilities@[ability_index as int].essence_cost > essence {
                                    Some("Not enough essence"@)
                                } else {
                                    None
                                },
                            _ => Some("Not a creature card"@),
                        },
                    },
                }
            },
    }
}

/// The creature `c` once exhausted.
pub open spec fn exhausted(c: Creature) -> Creature {
    Creature { status: CreatureStatus(c.status.0 | 1), ..c }
}

/// `s1` is `s0` after the active player pays `cost` essence for an ability
/// of their creature at `slot`, which becomes exhausted.
pub open spec fn ability_paid(s0: GameState, slot: Slot, cost: u8, s1: GameState) -> bool {
    let me = s0.active_player;
    let p = me.0 as int;
    let b = s0.players[p].creatures@;
    let k = slot_index(b, slot);
    &&& s1 == (GameState { players: s1.players, ..s0 })
    &&& s1.players[me.spec_opponent().0 as int] == s0.players[me.spec_opponent().0 as int]
    &&& s1.players[p] == (PlayerState {
            current_essence: (s0.players[p].current_essence - cost) as u8,
            creatures: s1.players[p].creatures,
            ..s0.players[p]
        })
    &&& s1.players[p].creatures@ == b.update(k, exhausted(b[k]))
}

/// The effects a token ability with effects `effs` queues, from the token
/// at `slot` of `me`, aimed at `target`, in order (healing is immediate and
/// queues nothing).
pub open spec fn token_queue(effs: Seq<TokenEffect>, target: EffectTarget, me: PlayerId, slot: Slot) -> Seq<PendingEffect>
    decreases effs.len(),
{
    if effs.len() == 0 {
        Seq::empty()
    } else {
        let src = EffectSource::Creature { owner: me, slot };
        token_queue(effs.drop_last(), target, me, slot) + match effs.last() {
            TokenEffect::DestroySelf => seq![PendingEffect { effect: Effect::DestroySelf { owner: me, slot }, source: src }],
            TokenEffect::Damage { amount } =>
                seq![PendingEffect { effect: Effect::Damage { target, amount, filter: None }, source: src }],
            TokenEffect::Debuff { attack, health } =>
                seq![PendingEffect { effect: Effect::BuffStats { target, attack, health, filter: None }, source: src }],
            TokenEffect::HealSelf { .. } => Seq::empty(),
        }
    }
}

/// The life of the token's owner after the heals among `effs`, starting at
/// `life` (each heal stops at 30).
pub open spec fn token_life(effs: Seq<TokenEffect>, life: int) -> int
    decreases effs.len(),
{
    if effs.len() == 0 {
        life
    } else {
        let l = token_life(effs.drop_last(), life);
        match effs.last() {
            TokenEffect::HealSelf { amount } => if l + amount < 30 { l + amount } else { 30 },
            _ => l,
        }
    }
}

/// Using ability `ability_index` of the active player's creature at `slot`
/// on `target` takes `(s0, q0)` to `(s1, q1)` before resolution: the cost is
/// paid, the creature exhausted, and the ability's effects queued after
/// what was there (a token's heals apply at once).
pub open spec fn ability_used(s0: GameState, q0: EffectQueue, db: CardDatabase, slot: Slot, ability_index: u8, target: Target,
    s1: GameState, q1: EffectQueue) -> bool
{
    let me = s0.active_player;
    let p = me.0 as int;
    let c = active_creature(s0, slot)->0;
    let n0 = q0.pending().len() as int;
    &&& q1.wf()
    &&& q1.deaths() == q0.deaths()
    &&& q1.pending().len() >= n0
    &&& q1.pending().subrange(0, n0) == q0.pending()
    &&& match c.token_abilities {
        Some(v) => {
            let ab = v@[ability_index as int];
            &&& exists|sp: GameState| #[trigger] ability_paid(s0, slot, ab.essence_cost, sp)
                && s1 == (GameState { players: s1.players, ..sp })
                && s1.players[me.spec_opponent().0 as int] == sp.players[me.spec_opponent().0 as int]
                && s1.players[p] == (PlayerState { life: s1.players[p].life, ..sp.players[p] })
                && s1.players[p].life == token_life(ab.effects@, sp.players[p].life as int)
            &&& q1.pending().subrange(n0, q1.pending().len() as int)
                == token_queue(ab.effects@, token_effect_target(target, me, slot), me, slot)
        },
        None => match db.spec_get(c.card_id) {
            Some(def) => match def.card_type {
                CardType::Creature { abilities, .. } => {
                    let ab = abilities@[ability_index as int];
                    &&& ability_paid(s0, slot, ab.essence_cost, s1)
                    &&& defs_queued(ab.effects@, card_effect_target(target, me, slot), me,
                            EffectSource::Creature { owner: me, slot }, q1.pending().subrange(n0, q1.pending().len() as int))
                },
                _ => false,
            },
            None => false,
        },
    }
}

/// Use ability `ability_index` of the active player's creature at `slot`
/// on `target`: the essence cost is paid, the creature is exhausted, the
/// ability's effects are queued and resolved.
pub fn execute_use_ability(ctx: &mut ActionContext, slot: Slot, ability_index: u8, target: Target) -> (r: Result<(), String>)
    requires
        old(ctx).wf(),
    ensures
        final(ctx).wf(),
        final(ctx).card_db == old(ctx).card_db,
        same_turn(old(ctx).state, final(ctx).state),
        r is Err <==> ability_error(old(ctx).state, *old(ctx).card_db, slot, ability_index) is Some,
        r matches Err(m) ==> m@ == ability_error(old(ctx).state, *old(ctx).card_db, slot, ability_index)->0
            && *final(ctx) == *old(ctx),
        r is Ok ==> exists|s1: GameState, q1: EffectQueue| #[trigger] ability_used(old(ctx).state, old(ctx).effect_queue,
            *old(ctx).card_db, slot, ability_index, target, s1, q1) && resolved(s1, q1, final(ctx).state, final(ctx).effect_queue),
{
    let p = ctx.state.active_player.index();
    proof { lemma_slot_index(ctx.state.players[p as int].creatures@, slot); }
    let idx = match find_creature_index(&ctx.state.players[p].creatures, slot) {
        Some(i) => i,
        None => return Err(String::from_str("No creature at slot")),
    };
    if ctx.state.players[p].creatures[idx].status.is_silenced() {
        return Err(String::from_str("Creature is silenced"));
    }
    if ctx.state.players[p].creatures[idx].status.is_exhausted() {
        return Err(String::from_str("Creature is exhausted"));
    }
    match &ctx.state.players[p].creatures[idx].token_abilities {
        Some(v) => {
            let abilities = duplicate_token_abilities(v);
            execute_token_ability(ctx, slot, idx, ability_index, target, abilities)
        }
        None => execute_card_ability(ctx, slot, idx, ability_index, target),
    }
}

/// The target a token ability's effects aim at.
pub open spec fn token_effect_target(target: Target, p: PlayerId, slot: Slot) -> EffectTarget {
    match target {
        Target::NoTarget => EffectTarget::Player(p.spec_opponent()),
        Target::EnemySlot(s) => EffectTarget::Creature { owner: p.spec_opponent(), slot: s },
        Target::Self_ => EffectTarget::Creature { owner: p, slot },
    }
}

/// Use a token ability (stored on the creature).
fn execute_token_ability(ctx: &mut ActionContext, slot: Slot, idx: usize, ability_index: u8, target: Target,
    abilities: Vec<TokenAbility>) -> (r: Result<(), String>)
    requires
        old(ctx).wf(),
        ({
            let b = old(ctx).state.players[old(ctx).state.active_player.0 as int].creatures@;
            &&& idx == slot_index(b, slot)
            &&& 0 <= idx < b.len()
            &&& b[idx as int].token_abilities matches Some(v) && crate::gamecore::effects::same_abilities(abilities@, v@)
            &&& !b[idx as int].status.spec_silenced()
            &&& !b[idx as int].status.spec_exhausted()
        }),
    ensures
        final(ctx).wf(),
        final(ctx).card_db == old(ctx).card_db,
        same_turn(old(ctx).state, final(ctx).state),
        r is Err <==> ability_error(old(ctx).state, *old(ctx).card_db, slot, ability_index) is Some,
        r matches Err(m) ==> m@ == ability_error(old(ctx).state, *old(ctx).card_db, slot, ability_index)->0
            && *final(ctx) == *old(ctx),
        r is Ok ==> exists|s1: GameState, q1: EffectQueue| #[trigger] ability_used(old(ctx).state, old(ctx).effect_queue,
            *old(ctx).card_db, slot, ability_index, target, s1, q1) && resolved(s1, q1, final(ctx).state, final(ctx).effect_queue),
{
    let current_player = ctx.state.active_player;
    let p = current_player.index();
    if ability_index as usize >= abilities.len() {
        return Err(String::from_str("Invalid ability index"));
    }
    let ability = &abilities[ability_index as usize];
    if ability.essence_cost > ctx.state.players[p].current_essence {
        return Err(String::from_str("Not enough essence"));
    }
    let ghost s0 = ctx.state;
    let ghost b0 = ctx.state.players[p as int].creatures@;
    ctx.state.players[p].current_essence = ctx.state.players[p].current_essence - ability.essence_cost;
    ctx.state.players[p].creatures[idx].status.set_exhausted(true);
    let ghost sp = ctx.state;
    proof {
        assert(ctx.state.players[p as int].creatures@ =~= b0.update(idx as int, exhausted(b0[idx as int])));
        assert(ability_paid(s0, slot, ability.essence_cost, sp));
    }
    let effect_target = match target {
        Target::NoTarget => EffectTarget::Player(current_player.opponent()),
        Target::EnemySlot(s) => EffectTarget::Creature { owner: current_player.opponent(), slot: s },
        Target::Self_ => EffectTarget::Creature { owner: current_player, slot },
    };
    let source = EffectSource::Creature { owner: current_player, slot };
    let ghost q0 = ctx.effect_queue.pending();
    let ghost effs = ability.effects@;
    proof { assert(effs.subrange(0, 0) =~= Seq::<TokenEffect>::empty()); assert(q0 + Seq::<PendingEffect>::empty() =~= q0); }
    let mut k: usize = 0;
    while k < ability.effects.len()
        invariant
            ctx.wf(),
            ctx.card_db == old(ctx).card_db,
            same_turn(old(ctx).state, ctx.state),
            current_player == ctx.state.active_player,
            current_player == sp.active_player,
            current_player.valid(),
            p == current_player.0,
            source == (EffectSource::Creature { owner: current_player, slot }),
            crate::gamecore::engine::effect_context::target_wf(effect_target),
            effect_target == token_effect_target(target, current_player, slot),
            effs == ability.effects@,
            k <= effs.len(),
            q0 == old(ctx).effect_queue.pending(),
            ctx.effect_queue.deaths() == old(ctx).effect_queue.deaths(),
            ctx.effect_queue.pending() == q0 + token_queue(effs.subrange(0, k as int), effect_target, current_player, slot),
            ctx.state == (GameState { players: ctx.state.players, ..sp }),
            ctx.state.players[current_player.spec_opponent().0 as int] == sp.players[current_player.spec_opponent().0 as int],
            ctx.state.players[p as int] == (PlayerState { life: ctx.state.players[p as int].life, ..sp.players[p as int] }),
            ctx.state.players[p as int].life == token_life(effs.subrange(0, k as int), sp.players[p as int].life as int),
        decreases ability.effects@.len() - k,
    {
        let ghost pre = ctx.effect_queue.pending();
        proof {
            assert(effs.subrange(0, k + 1).drop_last() =~= effs.subrange(0, k as int));
            assert(effs.subrange(0, k + 1).last() == effs[k as int]);
        }
        match ability.effects[k] {
            TokenEffect::DestroySelf => {
                ctx.effect_queue.push(Effect::DestroySelf { owner: current_player, slot }, source);
            }
            TokenEffect::Damage { amount } => {
                ctx.effect_queue.push(Effect::Damage { target: effect_target, amount, filter: None }, source);
            }
            TokenEffect::Debuff { attack, health } => {
                ctx.effect_queue.push(Effect::BuffStats { target: effect_target, attack, health, filter: None }, source);
            }
            TokenEffect::HealSelf { amount } => {
                let life = ctx.state.players[p].life;
                let n: i32 = life as i32 + amount as i32;
                ctx.state.players[p].life = if n < 30 { n as i16 } else { 30 };
            }
        }
        proof {
            let t = token_queue(effs.subrange(0, k as int), effect_target, current_player, slot);
            let t1 = token_queue(effs.subrange(0, k + 1), effect_target, current_player, slot);
            assert(ctx.effect_queue.pending() =~= q0 + t1);
        }
        k = k + 1;
    }
    proof {
        assert(effs.subrange(0, effs.len() as int) =~= effs);
        let q = ctx.effect_queue.pending();
        assert(q.subrange(0, q0.len() as int) =~= q0);
        assert(q.subrange(q0.len() as int, q.len() as int) =~= token_queue(effs, effect_target, current_player, slot));
        assert(ability_used(s0, old(ctx).effect_queue, *old(ctx).card_db, slot, ability_index, target, ctx.state, ctx.effect_queue));
    }
    ctx.process_effects();
    Ok(())
}

/// The target an activated card ability's effects aim at.
pub open spec fn card_effect_target(target: Target, p: PlayerId, slot: Slot) -> EffectTarget {
    match target {
        Target::NoTarget => EffectTarget::NoTarget,
        Target::EnemySlot(s) => EffectTarget::Creature { owner: p.spec_opponent(), slot: s },
        Target::Self_ => EffectTarget::Creature { owner: p, slot },
    }
}

/// Use an activated ability of the creature's card.
fn execute_card_ability(ctx: &mut ActionContext, slot: Slot, idx: usize, ability_index: u8, target: Target)
    -> (r: Result<(), String>)
    requires
        old(ctx).wf(),
        ({
            let b = old(ctx).state.players[old(ctx).state.active_player.0 as int].creatures@;
            &&& idx == slot_index(b, slot)
            &&& 0 <= idx < b.len()
            &&& b[idx as int].token_abilities is None
            &&& !b[idx as int].status.spec_silenced()
            &&& !b[idx as int].status.spec_exhausted()
        }),
    ensures
        final(ctx).wf(),
        final(ctx).card_db == old(ctx).card_db,
        same_turn(old(ctx).state, final(ctx).state),
        r is Err <==> ability_error(old(ctx).state, *old(ctx).card_db, slot, ability_index) is Some,
        r matches Err(m) ==> m@ == ability_error(old(ctx).state, *old(ctx).card_db, slot, ability_index)->0
            && *final(ctx) == *old(ctx),
        r is Ok ==> exists|s1: GameState, q1: EffectQueue| #[trigger] ability_used(old(ctx).state, old(ctx).effect_queue,
            *old(ctx).card_db, slot, ability_index, target, s1, q1) && resolved(s1, q1, final(ctx).state, final(ctx).effect_queue),
{
    let current_player = ctx.state.active_player;
    let p = current_player.index();
    let card_def = match ctx.card_db.get(ctx.state.players[p].creatures[idx].card_id) {
        Some(c) => c,
        None => return Err(String::from_str("Card not found")),
    };
    let abilities = match &card_def.card_type {
        CardType::Creature { abilities, .. } => abilities,
        _ => return Err(String::from_str("Not a creature card")),
    };
    if ability_index as usize >= abilities.len() {
        return Err(String::from_str("Invalid ability index"));
    }
    let ability: &AbilityDefinition = &abilities[ability_index as usize];
    if ability.trigger != Trigger::Activated {
        return Err(String::from_str("Not an activated ability"));
    }
    if ability.essence_cost > ctx.state.players[p].current_essence {
        return Err(String::from_str("Not enough essence"));
    }
    let ghost s0 = ctx.state;
    let ghost b0 = ctx.state.players[p as int].creatures@;
    ctx.state.players[p].current_essence = ctx.state.players[p].current_essence - ability.essence_cost;
    ctx.state.players[p].creatures[idx].status.set_exhausted(true);
    proof {
        assert(ctx.state.players[p as int].creatures@ =~= b0.update(idx as int, exhausted(b0[idx as int])));
        assert(ability_paid(s0, slot, ability.essence_cost, ctx.state));
    }
    let effect_target = match target {
        Target::NoTarget => EffectTarget::NoTarget,
        Target::EnemySlot(s) => EffectTarget::Creature { owner: current_player.opponent(), slot: s },
        Target::Self_ => EffectTarget::Creature { owner: current_player, slot },
    };
    let source = EffectSource::Creature { owner: current_player, slot };
    let ghost q0 = ctx.effect_queue.pending();
    let ghost n0 = q0.len() as int;
    let ghost s1 = ctx.state;
    proof { assert(q0.subrange(n0, n0) =~= Seq::<PendingEffect>::empty()); assert(q0.subrange(0, n0) =~= q0); }
    let mut k: usize = 0;
    while k < ability.effects.len()
        invariant
            ctx.wf(),
            ctx.card_db == old(ctx).card_db,
            ctx.state == s1,
            same_turn(old(ctx).state, ctx.state),
            current_player.valid(),
            current_player == s0.active_player,
            source == (EffectSource::Creature { owner: current_player, slot }),
            crate::gamecore::engine::effect_context::target_wf(effect_target),
            k <= ability.effects@.len(),
            q0 == old(ctx).effect_queue.pending(),
            n0 == q0.len(),
            ctx.effect_queue.deaths() == old(ctx).effect_queue.deaths(),
            ctx.effect_queue.pending().len() >= n0,
            ctx.effect_queue.pending().subrange(0, n0) == q0,
            defs_queued(ability.effects@.subrange(0, k as int), effect_target, current_player, source,
                ctx.effect_queue.pending().subrange(n0, ctx.effect_queue.pending().len() as int)),
        decreases ability.effects@.len() - k,
    {
        let ghost before = ctx.effect_queue.pending();
        let conv = effect_def_to_effect_with_target(&ability.effects[k], effect_target, current_player);
        proof {
            let d = ability.effects@.subrange(0, k + 1);
            assert(d.drop_last() =~= ability.effects@.subrange(0, k as int));
            assert(d.last() == ability.effects@[k as int]);
        }
        if let Some(effect) = conv {
            ctx.effect_queue.push(effect, source);
            proof {
                let q = ctx.effect_queue.pending();
                assert(q.subrange(0, n0) =~= before.subrange(0, n0));
                assert(q.subrange(n0, q.len() as int).drop_last() =~= before.subrange(n0, before.len() as int));
                assert(defs_queued(ability.effects@.subrange(0, k + 1), effect_target, current_player, source,
                    q.subrange(n0, q.len() as int)));
            }
        } else {
            proof {
                assert(defs_queued(ability.effects@.subrange(0, k + 1), effect_target, current_player, source,
                    before.subrange(n0, before.len() as int)));
            }
        }
        k = k + 1;
    }
    proof {
        assert(ability.effects@.subrange(0, ability.effects@.len() as int) =~= ability.effects@);
        assert(effect_target == card_effect_target(target, current_player, slot));
        assert(ability_used(s0, old(ctx).effect_queue, *old(ctx).card_db, slot, ability_index, target, ctx.state, ctx.effect_queue));
    }
    ctx.process_effects();
    Ok(())
}

} // verus!
