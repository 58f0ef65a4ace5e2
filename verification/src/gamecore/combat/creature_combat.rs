//! Creature against creature: Quick, Shield, Ranged, Piercing, Lethal,
//! Lifesteal and Fortify.

use vstd::prelude::*;
use crate::gamecore::arith::{clamp_i16, sat_add_u16, sat_sub_i16};
use crate::gamecore::cards::{CardDatabase, CommanderTrigger};
use crate::gamecore::combat::death::{check_game_over, game_over_applied, process_creature_death, slots_shrunk, total_creatures};
use crate::gamecore::engine::victory::life_result;
use crate::gamecore::combat::face_attack::{attacked, mark_attacked, marked_attacked};
use crate::gamecore::combat::triggers::{lemma_queue_grew_trans, queue_grew, trigger_creature_ability, lemma_queue_grew_refl};
use crate::gamecore::combat::CombatResult;
use crate::gamecore::effects::Trigger;
use crate::gamecore::engine::effect_queue::EffectQueue;
use crate::gamecore::engine::passive::{collect_commander_kill_effects, lemma_commander_fires};
use crate::gamecore::keywords::Keywords;
use crate::gamecore::state::{lemma_board_ok_same_slots, lemma_board_ok_update, 
    Creature, GameState, PlayerState, find_creature_index, lemma_slot_index, occupied, slot_index,
};
use crate::gamecore::tracing::combat_tracer::{CombatTrace, CombatTracer};
use crate::gamecore::types::{PlayerId, Slot};

verus! {

/// The attack a creature fights with: its attack, not below 0.
pub open spec fn combat_attack(c: Creature) -> u8 {
    if c.attack < 0 { 0 } else { c.attack as u8 }
}

/// Damage after Fortify: one less, but at least one.
pub open spec fn fortified_amount(c: Creature, damage: u8) -> u8 {
    if c.keywords.spec_has(Keywords::FORTIFY) && damage > 1 { (damage - 1) as u8 } else { damage }
}

/// A creature after a combat hit: a hit for 0 does nothing; Shield (as
/// seen before combat) absorbs the hit and is used up; otherwise health
/// drops by the damage after Fortify, not below 0, and Lethal makes any
/// damage kill.
pub open spec fn hit_creature(c: Creature, damage: u8, lethal: bool, shield: bool) -> Creature {
    if damage == 0 {
        c
    } else if shield {
        Creature { keywords: Keywords(c.keywords.0 & !Keywords::SHIELD), ..c }
    } else {
        let a = fortified_amount(c, damage);
        let h = c.current_health - a;
        let h2: int = if h < 0 { 0 } else { h };
        if lethal && a > 0 && h2 != 0 {
            Creature { current_health: 0, ..c }
        } else {
            Creature { current_health: h2 as i8, ..c }
        }
    }
}

/// What a combat hit reports: (damage dealt, absorbed by Shield, killed).
pub open spec fn hit_outcome(c: Creature, damage: u8, lethal: bool, shield: bool) -> (u8, bool, bool) {
    if damage == 0 {
        (0, false, false)
    } else if shield {
        (0, true, false)
    } else {
        let a = fortified_amount(c, damage);
        let h = c.current_health - a;
        let h2: int = if h < 0 { 0 } else { h };
        if lethal && a > 0 && h2 != 0 { (a, false, true) } else { (a, false, h2 == 0) }
    }
}

/// `post` is `pre` with creature `k` of player `p` replaced by `c`.
pub open spec fn creature_replaced(pre: GameState, post: GameState, p: PlayerId, k: int, c: Creature) -> bool {
    &&& post == GameState { players: post.players, ..pre }
    &&& post.players[p.spec_opponent().0 as int] == pre.players[p.spec_opponent().0 as int]
    &&& post.players[p.0 as int] == PlayerState { creatures: post.players[p.0 as int].creatures, ..pre.players[p.0 as int] }
    &&& post.players[p.0 as int].creatures@ == pre.players[p.0 as int].creatures@.update(k, c)
}

/// Replacing the first creature at a slot by one at the same slot keeps it first.
pub proof fn lemma_slot_index_update(cs: Seq<Creature>, slot: Slot, c: Creature)
    requires
        slot_index(cs, slot) >= 0,
        c.slot == slot,
    ensures
        slot_index(cs.update(slot_index(cs, slot), c), slot) == slot_index(cs, slot),
{
    let k = slot_index(cs, slot);
    let cs2 = cs.update(k, c);
    lemma_slot_index(cs, slot);
    lemma_slot_index(cs2, slot);
    assert(cs2[k].slot == slot);
    assert(occupied(cs2, slot));
    let k2 = slot_index(cs2, slot);
    if k2 < k {
        assert(cs2[k2] == cs[k2]);
    } else if k2 > k {
        assert(cs2[k].slot == slot);
    }
}

/// Apply combat damage to the creature at (`target_player`, `target_slot`),
/// with Shield, Fortify and Lethal; returns (damage dealt, absorbed by
/// Shield, killed).
pub fn apply_combat_damage(state: &mut GameState, target_player: PlayerId, target_slot: Slot, damage: u8,
    attacker_has_lethal: bool, target_has_shield: bool) -> (r: (u8, bool, bool))
    requires
        target_player.valid(),
    ensures
        ({
            let b = old(state).players[target_player.0 as int].creatures@;
            let k = slot_index(b, target_slot);
            &&& (damage == 0 || k < 0) ==> r == (0u8, false, false) && *final(state) == *old(state)
            &&& (damage != 0 && k >= 0) ==> {
                &&& r == hit_outcome(b[k], damage, attacker_has_lethal, target_has_shield)
                &&& creature_replaced(*old(state), *final(state), target_player, k,
                        hit_creature(b[k], damage, attacker_has_lethal, target_has_shield))
            }
        }),
{
    if damage == 0 {
        return (0, false, false);
    }
    let ghost pre = *state;
    let p = target_player.index();
    let idx = match find_creature_index(&state.players[p].creatures, target_slot) {
        Some(i) => i,
        None => return (0, false, false),
    };
    if target_has_shield {
        state.players[p].creatures[idx].keywords.remove(Keywords::SHIELD);
        proof {
            let b = pre.players[p as int].creatures@;
            assert(state.players[p as int].creatures@ =~= b.update(idx as int, hit_creature(b[idx as int], damage,
                attacker_has_lethal, target_has_shield)));
        }
        return (0, true, false);
    }
    let actual: u8 = if state.players[p].creatures[idx].keywords.has_fortify() && damage > 1 { damage - 1 } else { damage };
    let h: i16 = state.players[p].creatures[idx].current_health as i16 - actual as i16;
    let h2: i8 = if h < 0 { 0 } else { h as i8 };
    state.players[p].creatures[idx].current_health = h2;
    let died = h2 == 0;
    if attacker_has_lethal && actual > 0 && !died {
        state.players[p].creatures[idx].current_health = 0;
        proof {
            let b = pre.players[p as int].creatures@;
            assert(state.players[p as int].creatures@ =~= b.update(idx as int, hit_creature(b[idx as int], damage,
                attacker_has_lethal, target_has_shield)));
        }
        return (actual, false, true);
    }
    proof {
        let b = pre.players[p as int].creatures@;
        assert(state.players[p as int].creatures@ =~= b.update(idx as int, hit_creature(b[idx as int], damage,
            attacker_has_lethal, target_has_shield)));
    }
    (actual, false, died)
}

/// What combat reads of a creature: its attack (not below 0), health and keywords.
#[derive(Clone, Copy, Debug, PartialEq, Eq, Structural)]
pub struct CombatStats {
    pub attack: u8,
    pub health: i8,
    pub keywords: Keywords,
}

/// The combat stats of a creature.
pub open spec fn stats_of(c: Creature) -> CombatStats {
    CombatStats { attack: combat_attack(c), health: c.current_health, keywords: c.keywords }
}

/// The combat stats of a creature.
fn get_creature_stats(c: &Creature) -> (r: CombatStats)
    ensures
        r == stats_of(*c),
{
    CombatStats { attack: if c.attack < 0 { 0 } else { c.attack as u8 }, health: c.current_health, keywords: c.keywords }
}

/// What a combat hit on a creature with these stats reports.
pub open spec fn stats_hit(s: CombatStats, damage: u8, lethal: bool, shield: bool) -> (u8, bool, bool) {
    if damage == 0 {
        (0, false, false)
    } else if shield {
        (0, true, false)
    } else {
        let a = if s.keywords.spec_has(Keywords::FORTIFY) && damage > 1 { (damage - 1) as u8 } else { damage };
        let h = s.health - a;
        let h2: int = if h < 0 { 0 } else { h };
        if lethal && a > 0 && h2 != 0 { (a, false, true) } else { (a, false, h2 == 0) }
    }
}

/// The damage exchange between attacker `a` and defender `d` (their stats
/// before combat): (damage the attacker dealt, damage the defender dealt,
/// attacker died, defender died). A Quick side strikes first and a side that
/// dies strikes no more; a Ranged attacker takes no counter-attack.
pub open spec fn exchange(a: CombatStats, d: CombatStats) -> (u8, u8, bool, bool) {
    let hit_d = stats_hit(d, a.attack, a.keywords.spec_has(Keywords::LETHAL), d.keywords.spec_has(Keywords::SHIELD));
    let hit_a = stats_hit(a, d.attack, d.keywords.spec_has(Keywords::LETHAL), a.keywords.spec_has(Keywords::SHIELD));
    let a_quick = a.keywords.spec_has(Keywords::QUICK);
    let d_quick = d.keywords.spec_has(Keywords::QUICK);
    let ranged = a.keywords.spec_has(Keywords::RANGED);
    if a_quick && !d_quick {
        let counter = !hit_d.2 && !ranged;
        (hit_d.0, if counter { hit_a.0 } else { 0 }, counter && hit_a.2, hit_d.2)
    } else if d_quick && !a_quick {
        let a_died = !ranged && hit_a.2;
        (if !a_died { hit_d.0 } else { 0 }, if !ranged { hit_a.0 } else { 0 }, a_died, !a_died && hit_d.2)
    } else {
        (hit_d.0, if !ranged { hit_a.0 } else { 0 }, !ranged && hit_a.2, hit_d.2)
    }
}

/// Overflow damage Piercing deals to the defending player.
pub open spec fn piercing_damage(a: CombatStats, d: CombatStats) -> u8 {
    let ex = exchange(a, d);
    let hp = d.health as u8;
    if a.keywords.spec_has(Keywords::PIERCING) && ex.3 && ex.0 > 0 && a.attack > hp { (a.attack - hp) as u8 } else { 0 }
}

/// A count saturated to a `u16`.
pub open spec fn sat_u16(x: int) -> u16 {
    if x > 65535 { 65535u16 } else { x as u16 }
}

/// The attacker's controller's life after Lifesteal heals `amount`: up to
/// 30, and a heal never lowers it.
pub open spec fn lifesteal_life(life: i16, amount: u8) -> i16 {
    let n = life + amount;
    if n < 30 { n as i16 } else if life > 30 { life } else { 30 }
}

/// What Lifesteal heals in creature combat: the damage dealt, at most the
/// defender's health before combat (nothing without Lifesteal).
pub open spec fn lifesteal_amount(a: CombatStats, d: CombatStats) -> u8 {
    let dealt = exchange(a, d).0;
    let cap: u8 = if d.health < 0 { 0 } else { d.health as u8 };
    if a.keywords.spec_has(Keywords::LIFESTEAL) && dealt > 0 { if dealt < cap { dealt } else { cap } } else { 0 }
}

/// The result of creature combat, given the attacker's controller's life.
pub open spec fn creature_combat_result(a: CombatStats, d: CombatStats, life: i16) -> CombatResult {
    let ex = exchange(a, d);
    let heal = lifesteal_amount(a, d);
    CombatResult {
        attacker_damage_dealt: ex.0,
        defender_damage_dealt: ex.1,
        attacker_died: ex.2,
        defender_died: ex.3,
        face_damage: piercing_damage(a, d),
        attacker_healed: if heal > 0 { (lifesteal_life(life, heal) - life) as u8 } else { 0 },
    }
}

/// The stats of the creature at (`p`, `s`) of `st`.
pub open spec fn stats_at(st: GameState, p: PlayerId, s: Slot) -> CombatStats {
    let b = st.players[p.0 as int].creatures@;
    stats_of(b[slot_index(b, s)])
}

/// A board after the first creature at `s` takes a combat hit.
pub open spec fn hit_at(b: Seq<Creature>, s: Slot, damage: u8, lethal: bool, shield: bool) -> Seq<Creature> {
    let k = slot_index(b, s);
    b.update(k, hit_creature(b[k], damage, lethal, shield))
}

/// Whether the defender is hit in a fight (not when a Quick defender
/// killed the attacker first).
pub open spec fn defender_hit(a: CombatStats, d: CombatStats) -> bool {
    let hit_a = stats_hit(a, d.attack, d.keywords.spec_has(Keywords::LETHAL), a.keywords.spec_has(Keywords::SHIELD));
    let ranged = a.keywords.spec_has(Keywords::RANGED);
    if d.keywords.spec_has(Keywords::QUICK) && !a.keywords.spec_has(Keywords::QUICK) { !(!ranged && hit_a.2) } else { true }
}

/// Whether the attacker is hit back (never when Ranged; not when a Quick
/// attacker killed the defender first).
pub open spec fn attacker_hit(a: CombatStats, d: CombatStats) -> bool {
    let hit_d = stats_hit(d, a.attack, a.keywords.spec_has(Keywords::LETHAL), d.keywords.spec_has(Keywords::SHIELD));
    let ranged = a.keywords.spec_has(Keywords::RANGED);
    if a.keywords.spec_has(Keywords::QUICK) && !d.keywords.spec_has(Keywords::QUICK) { !hit_d.2 && !ranged } else { !ranged }
}

/// Hit the creature at (`p`, `s`) and read the outcome.
fn strike(state: &mut GameState, p: PlayerId, s: Slot, damage: u8, lethal: bool, shield: bool) -> (r: (u8, bool, bool))
    requires
        p.valid(),
        occupied(old(state).players[p.0 as int].creatures@, s),
    ensures
        r == stats_hit(stats_at(*old(state), p, s), damage, lethal, shield),
        *final(state) == (GameState { players: final(state).players, ..*old(state) }),
        final(state).players[p.spec_opponent().0 as int] == old(state).players[p.spec_opponent().0 as int],
        final(state).players[p.0 as int] == (PlayerState {
            creatures: final(state).players[p.0 as int].creatures, ..old(state).players[p.0 as int]
        }),
        final(state).players[p.0 as int].creatures@.len() == old(state).players[p.0 as int].creatures@.len(),
        forall|j: int| 0 <= j < final(state).players[p.0 as int].creatures@.len() ==>
            (#[trigger] final(state).players[p.0 as int].creatures@[j]).slot == old(state).players[p.0 as int].creatures@[j].slot,
        final(state).players[p.0 as int].creatures@ == hit_at(old(state).players[p.0 as int].creatures@, s, damage, lethal, shield),
{
    proof { lemma_slot_index(old(state).players[p.0 as int].creatures@, s); }
    let ghost b = state.players[p.0 as int].creatures@;
    let r = apply_combat_damage(state, p, s, damage, lethal, shield);
    proof {
        if damage == 0 {
            assert(b.update(slot_index(b, s), b[slot_index(b, s)]) =~= b);
        }
    }
    r
}

/// Resolve the damage exchange.
fn resolve_combat_damage(state: &mut GameState, attacker_player: PlayerId, attacker_slot: Slot, defender_player: PlayerId,
    defender_slot: Slot, a: CombatStats, d: CombatStats) -> (r: CombatResult)
    requires
        attacker_player.valid(),
        defender_player == attacker_player.spec_opponent(),
        occupied(old(state).players[attacker_player.0 as int].creatures@, attacker_slot),
        occupied(old(state).players[defender_player.0 as int].creatures@, defender_slot),
        a == stats_at(*old(state), attacker_player, attacker_slot),
        d == stats_at(*old(state), defender_player, defender_slot),
    ensures
        r.attacker_damage_dealt == exchange(a, d).0,
        r.defender_damage_dealt == exchange(a, d).1,
        r.attacker_died == exchange(a, d).2,
        r.defender_died == exchange(a, d).3,
        r.face_damage == 0,
        r.attacker_healed == 0,
        crate::gamecore::engine::triggers::same_but_boards(*old(state), *final(state)),
        final(state).players[attacker_player.0 as int].creatures@.len() == old(state).players[attacker_player.0 as int].creatures@.len(),
        final(state).players[defender_player.0 as int].creatures@.len() == old(state).players[defender_player.0 as int].creatures@.len(),
        forall|q: int, j: int| 0 <= q < 2 && 0 <= j < final(state).players[q].creatures@.len() ==>
            (#[trigger] final(state).players[q].creatures@[j]).slot == old(state).players[q].creatures@[j].slot,
        final(state).players[defender_player.0 as int].creatures@ == (if defender_hit(a, d) {
            hit_at(old(state).players[defender_player.0 as int].creatures@, defender_slot, a.attack,
                a.keywords.spec_has(Keywords::LETHAL), d.keywords.spec_has(Keywords::SHIELD))
        } else {
            old(state).players[defender_player.0 as int].creatures@
        }),
        final(state).players[attacker_player.0 as int].creatures@ == (if attacker_hit(a, d) {
            hit_at(old(state).players[attacker_player.0 as int].creatures@, attacker_slot, d.attack,
                d.keywords.spec_has(Keywords::LETHAL), a.keywords.spec_has(Keywords::SHIELD))
        } else {
            old(state).players[attacker_player.0 as int].creatures@
        }),
{
    let ghost pre = *state;
    let a_lethal = a.keywords.has_lethal();
    let d_lethal = d.keywords.has_lethal();
    let a_shield = a.keywords.has_shield();
    let d_shield = d.keywords.has_shield();
    let a_quick = a.keywords.has_quick();
    let d_quick = d.keywords.has_quick();
    let ranged = a.keywords.has_ranged();
    let mut result = CombatResult {
        attacker_damage_dealt: 0,
        defender_damage_dealt: 0,
        attacker_died: false,
        defender_died: false,
        face_damage: 0,
        attacker_healed: 0,
    };
    if a_quick && !d_quick {
        let (dealt, _, d_died) = strike(state, defender_player, defender_slot, a.attack, a_lethal, d_shield);
        result.attacker_damage_dealt = dealt;
        result.defender_died = d_died;
        let ghost mid = *state;
        if !d_died && !ranged {
            proof { lemma_occupied_same_slots(pre, mid, attacker_player, attacker_slot); }
            let (dealt2, _, a_died) = strike(state, attacker_player, attacker_slot, d.attack, d_lethal, a_shield);
            result.defender_damage_dealt = dealt2;
            result.attacker_died = a_died;
        }
    } else if d_quick && !a_quick {
        if !ranged {
            let (dealt, _, a_died) = strike(state, attacker_player, attacker_slot, d.attack, d_lethal, a_shield);
            result.defender_damage_dealt = dealt;
            result.attacker_died = a_died;
        }
        let ghost mid = *state;
        if !result.attacker_died {
            proof { lemma_occupied_same_slots(pre, mid, defender_player, defender_slot); }
            let (dealt2, _, d_died) = strike(state, defender_player, defender_slot, a.attack, a_lethal, d_shield);
            result.attacker_damage_dealt = dealt2;
            result.defender_died = d_died;
        }
    } else {
        let (dealt, _, d_died) = strike(state, defender_player, defender_slot, a.attack, a_lethal, d_shield);
        result.attacker_damage_dealt = dealt;
        result.defender_died = d_died;
        let ghost mid = *state;
        if !ranged {
            proof { lemma_occupied_same_slots(pre, mid, attacker_player, attacker_slot); }
            let (dealt2, _, a_died) = strike(state, attacker_player, attacker_slot, d.attack, d_lethal, a_shield);
            result.defender_damage_dealt = dealt2;
            result.attacker_died = a_died;
        }
    }
    proof {
        assert(state.players[0].life == pre.players[0].life);
        assert(state.players[1].life == pre.players[1].life);
    }
    result
}

/// A side whose board is unchanged keeps its creature at a slot.
proof fn lemma_occupied_same_slots(pre: GameState, post: GameState, p: PlayerId, s: Slot)
    requires
        post.players[p.0 as int] == pre.players[p.0 as int],
        occupied(pre.players[p.0 as int].creatures@, s),
    ensures
        occupied(post.players[p.0 as int].creatures@, s),
        stats_at(post, p, s) == stats_at(pre, p, s),
{
}

/// Apply Piercing: the defending player takes the attack beyond the
/// defender's health when the defender dies; returns that damage.
fn apply_piercing(state: &mut GameState, attacker_player: PlayerId, a: CombatStats, d: CombatStats, result: &CombatResult)
    -> (r: u8)
    requires
        attacker_player.valid(),
        result.attacker_damage_dealt == exchange(a, d).0,
        result.defender_died == exchange(a, d).3,
    ensures
        r == piercing_damage(a, d),
        ({
            let dp = attacker_player.spec_opponent();
            let ap = attacker_player;
            &&& *final(state) == (GameState { players: final(state).players, ..*old(state) })
            &&& final(state).players[dp.0 as int] == (PlayerState {
                    life: clamp_i16(old(state).players[dp.0 as int].life - r), ..old(state).players[dp.0 as int]
                })
            &&& final(state).players[ap.0 as int] == (PlayerState {
                    total_damage_dealt: if old(state).players[ap.0 as int].total_damage_dealt + r > 65535 { 65535u16 }
                        else { (old(state).players[ap.0 as int].total_damage_dealt + r) as u16 },
                    ..old(state).players[ap.0 as int]
                })
        }),
{
    let d_health = d.health as u8;
    let mut excess: u8 = 0;
    if a.keywords.has_piercing() && result.defender_died && result.attacker_damage_dealt > 0 && a.attack > d_health {
        excess = a.attack - d_health;
    }
    let dp = attacker_player.opponent().index();
    let ap = attacker_player.index();
    state.players[dp].life = sat_sub_i16(state.players[dp].life, excess as i16);
    state.players[ap].total_damage_dealt = sat_add_u16(state.players[ap].total_damage_dealt, excess as u16);
    excess
}

/// Apply Lifesteal in creature combat; returns the life actually gained.
fn apply_lifesteal_creature(state: &mut GameState, attacker_player: PlayerId, a: CombatStats, d: CombatStats,
    result: &CombatResult) -> (r: u8)
    requires
        attacker_player.valid(),
        result.attacker_damage_dealt == exchange(a, d).0,
    ensures
        ({
            let heal = lifesteal_amount(a, d);
            let life = old(state).players[attacker_player.0 as int].life;
            &&& r == (if heal > 0 { (lifesteal_life(life, heal) - life) as u8 } else { 0u8 })
            &&& heal == 0 ==> *final(state) == *old(state)
            &&& heal > 0 ==> *final(state) == (GameState { players: final(state).players, ..*old(state) })
                && final(state).players[attacker_player.spec_opponent().0 as int]
                    == old(state).players[attacker_player.spec_opponent().0 as int]
                && final(state).players[attacker_player.0 as int] == (PlayerState {
                    life: lifesteal_life(life, heal), ..old(state).players[attacker_player.0 as int]
                })
        }),
{
    if a.keywords.has_lifesteal() && result.attacker_damage_dealt > 0 {
        let cap: u8 = if d.health < 0 { 0 } else { d.health as u8 };
        let heal = if result.attacker_damage_dealt < cap { result.attacker_damage_dealt } else { cap };
        if heal > 0 {
            let p = attacker_player.index();
            let cur = state.players[p].life;
            let n: i32 = cur as i32 + heal as i32;
            let new_life: i16 = if n < 30 { n as i16 } else if cur > 30 { cur } else { 30 };
            state.players[p].life = new_life;
            return (new_life as i32 - cur as i32) as u8;
        }
    }
    0
}

/// Queue the damage triggers of a fight: OnDealDamage for each side that
/// dealt damage, OnTakeDamage for each side that took it.
fn trigger_damage_effects(state: &GameState, card_db: &CardDatabase, effect_queue: &mut EffectQueue,
    attacker_player: PlayerId, attacker_slot: Slot, defender_player: PlayerId, defender_slot: Slot, result: &CombatResult)
    requires
        old(effect_queue).wf(),
        attacker_player.valid(),
        defender_player.valid(),
    ensures
        queue_grew(*old(effect_queue), *final(effect_queue)),
{
    let ghost q0 = *effect_queue;
    proof { lemma_queue_grew_refl(q0); }
    if result.attacker_damage_dealt > 0 {
        trigger_creature_ability(state, card_db, effect_queue, attacker_player, attacker_slot, Trigger::OnDealDamage);
    }
    let ghost q1 = *effect_queue;
    if result.defender_damage_dealt > 0 {
        trigger_creature_ability(state, card_db, effect_queue, defender_player, defender_slot, Trigger::OnDealDamage);
    }
    let ghost q2 = *effect_queue;
    if result.attacker_damage_dealt > 0 {
        trigger_creature_ability(state, card_db, effect_queue, defender_player, defender_slot, Trigger::OnTakeDamage);
    }
    let ghost q3 = *effect_queue;
    if result.defender_damage_dealt > 0 {
        trigger_creature_ability(state, card_db, effect_queue, attacker_player, attacker_slot, Trigger::OnTakeDamage);
    }
    proof {
        lemma_queue_grew_refl(q1);
        lemma_queue_grew_refl(q2);
        lemma_queue_grew_refl(q3);
        lemma_queue_grew_trans(q0, q1, q2);
        lemma_queue_grew_trans(q0, q2, q3);
        lemma_queue_grew_trans(q0, q3, *effect_queue);
    }
}

/// Process the deaths of a fight: a killed defender fires its killer's
/// commander and creature OnKill triggers and dies, then a killed attacker dies.
fn process_combat_deaths(state: &mut GameState, card_db: &CardDatabase, effect_queue: &mut EffectQueue,
    attacker_player: PlayerId, attacker_slot: Slot, defender_player: PlayerId, defender_slot: Slot, result: &CombatResult)
    requires
        old(effect_queue).wf(),
        attacker_player.valid(),
        defender_player.valid(),
    ensures
        queue_grew(*old(effect_queue), *final(effect_queue)),
        crate::gamecore::engine::triggers::same_but_boards(*old(state), *final(state)),
        slots_shrunk(*old(state), *final(state)),
        total_creatures(*final(state)) <= total_creatures(*old(state)),
        result.defender_died ==> !occupied(final(state).players[defender_player.0 as int].creatures@, defender_slot),
        result.attacker_died ==> !occupied(final(state).players[attacker_player.0 as int].creatures@, attacker_slot),
        old(state).wf() ==> final(state).wf(),
        !result.attacker_died && !result.defender_died ==> *final(state) == *old(state),
{
    let ghost q0 = *effect_queue;
    let ghost s0 = *state;
    proof {
        lemma_queue_grew_refl(q0);
        lemma_slots_shrunk_refl(s0);
        crate::gamecore::engine::triggers::lemma_same_but_boards_refl(s0);
    }
    if result.defender_died {
        let kills = collect_commander_kill_effects(state, attacker_player, card_db);
        proof { lemma_commander_fires(*state, attacker_player, CommanderTrigger::OnKill, *card_db, None, kills@); }
        effect_queue.push_commander_effects(kills, attacker_player);
        let ghost q1 = *effect_queue;
        trigger_creature_ability(state, card_db, effect_queue, attacker_player, attacker_slot, Trigger::OnKill);
        let ghost q2 = *effect_queue;
        process_creature_death(state, card_db, effect_queue, defender_player, defender_slot);
        proof {
            lemma_queue_grew_trans(q0, q1, q2);
            lemma_queue_grew_trans(q0, q2, *effect_queue);
        }
    }
    let ghost s1 = *state;
    let ghost q3 = *effect_queue;
    if result.attacker_died {
        process_creature_death(state, card_db, effect_queue, attacker_player, attacker_slot);
        proof {
            lemma_queue_grew_trans(q0, q3, *effect_queue);
            crate::gamecore::engine::triggers::lemma_same_but_boards_trans(s0, s1, *state);
            if result.defender_died {
                if occupied(state.players[defender_player.0 as int].creatures@, defender_slot) {
                    assert(occupied(s1.players[defender_player.0 as int].creatures@, defender_slot));
                }
            }
            assert forall|q: int, s: Slot| 0 <= q < 2 && #[trigger] occupied(state.players[q].creatures@, s)
                implies occupied(s0.players[q].creatures@, s) by {
                assert(occupied(s1.players[q].creatures@, s));
            }
        }
    }
}

/// Slot shrinking is reflexive.
pub proof fn lemma_slots_shrunk_refl(s: GameState)
    ensures
        slots_shrunk(s, s),
{
}

/// How the players (apart from their boards) change over a fight: Piercing,
/// Lifesteal and the damage credit, nothing else.
proof fn lemma_combat_players(pre: GameState, s1: GameState, s2: GameState, s2b: GameState, s3: GameState, s4: GameState,
    s5: GameState, fin: GameState, ap: int, dp: int, pd: u8, heal: u8, dealt: u8)
    requires
        0 <= ap < 2,
        dp == 1 - ap,
        crate::gamecore::engine::triggers::same_but_boards(pre, s1),
        s2.players[dp] == (PlayerState { life: clamp_i16(s1.players[dp].life - pd), ..s1.players[dp] }),
        s2.players[ap] == (PlayerState { total_damage_dealt: sat_u16(s1.players[ap].total_damage_dealt + pd), ..s1.players[ap] }),
        heal == 0 ==> s2b.players[0] == s2.players[0] && s2b.players[1] == s2.players[1],
        heal > 0 ==> s2b.players[dp] == s2.players[dp]
            && s2b.players[ap] == (PlayerState { life: lifesteal_life(s2.players[ap].life, heal), ..s2.players[ap] }),
        s3.players[dp] == s2b.players[dp],
        s3.players[ap] == (PlayerState { total_damage_dealt: sat_u16(s2b.players[ap].total_damage_dealt + dealt), ..s2b.players[ap] }),
        s4.players[dp] == s3.players[dp],
        s4.players[ap] == (PlayerState { creatures: s4.players[ap].creatures, ..s3.players[ap] }),
        crate::gamecore::engine::triggers::same_but_boards(s4, s5),
        fin.players == s5.players,
    ensures
        fin.players[dp] == (PlayerState { life: clamp_i16(pre.players[dp].life - pd), creatures: fin.players[dp].creatures, ..pre.players[dp] }),
        fin.players[ap] == (PlayerState {
            life: if heal > 0 { lifesteal_life(pre.players[ap].life, heal) } else { pre.players[ap].life },
            total_damage_dealt: sat_u16(sat_u16(pre.players[ap].total_damage_dealt + pd) + dealt),
            creatures: fin.players[ap].creatures,
            ..pre.players[ap]
        }),
{
    assert(pre.players[ap].life == s1.players[ap].life);
    assert(pre.players[dp].life == s1.players[dp].life);
    assert(s4.players[ap].life == s5.players[ap].life);
    assert(s4.players[dp].life == s5.players[dp].life);
}

/// The defender's board after the exchange of blows (before any death).
pub open spec fn defender_board_after(b: Seq<Creature>, a: CombatStats, d: CombatStats, dslot: Slot) -> Seq<Creature> {
    if defender_hit(a, d) {
        hit_at(b, dslot, a.attack, a.keywords.spec_has(Keywords::LETHAL), d.keywords.spec_has(Keywords::SHIELD))
    } else {
        b
    }
}

/// The attacker's board after the exchange of blows, with the attacker
/// marked as having attacked (before any death).
pub open spec fn attacker_board_after(b: Seq<Creature>, a: CombatStats, d: CombatStats, aslot: Slot) -> Seq<Creature> {
    marked_attacked(if attacker_hit(a, d) {
        hit_at(b, aslot, d.attack, d.keywords.spec_has(Keywords::LETHAL), a.keywords.spec_has(Keywords::SHIELD))
    } else {
        b
    }, aslot)
}

/// Resolve a fight between the creature at (`attacker_player`,
/// `attacker_slot`) and the one at (`defender_player`, `defender_slot`): the
/// attacker's OnAttack triggers are queued, damage is exchanged, Piercing
/// and Lifesteal apply, the attacker is marked as having attacked, damage
/// triggers are queued, the dead die and the game may end.
#[verifier::spinoff_prover]
#[verifier::rlimit(80)]
pub fn resolve_creature_combat(state: &mut GameState, card_db: &CardDatabase, effect_queue: &mut EffectQueue,
    attacker_player: PlayerId, attacker_slot: Slot, defender_player: PlayerId, defender_slot: Slot, tracer: &mut CombatTracer)
    -> (r: CombatResult)
    requires
        old(effect_queue).wf(),
        old(state).wf(),
        attacker_player.valid(),
        defender_player == attacker_player.spec_opponent(),
        occupied(old(state).players[attacker_player.0 as int].creatures@, attacker_slot),
        occupied(old(state).players[defender_player.0 as int].creatures@, defender_slot),
    ensures
        r == creature_combat_result(stats_at(*old(state), attacker_player, attacker_slot),
            stats_at(*old(state), defender_player, defender_slot), old(state).players[attacker_player.0 as int].life),
        final(state).wf(),
        queue_grew(*old(effect_queue), *final(effect_queue)),
        final(state).active_player == old(state).active_player,
        final(state).current_turn == old(state).current_turn,
        final(state).game_mode == old(state).game_mode,
        r.defender_died ==> !occupied(final(state).players[defender_player.0 as int].creatures@, defender_slot),
        r.attacker_died ==> !occupied(final(state).players[attacker_player.0 as int].creatures@, attacker_slot),
        total_creatures(*final(state)) <= total_creatures(*old(state)),
        final(tracer).enabled == old(tracer).enabled,
        ({
            let a = stats_at(*old(state), attacker_player, attacker_slot);
            let d = stats_at(*old(state), defender_player, defender_slot);
            let ap = attacker_player.0 as int;
            let dp = defender_player.0 as int;
            let pd = piercing_damage(a, d);
            let heal = lifesteal_amount(a, d);
            let l = old(state).players[ap].life;
            let t = old(state).players[ap].total_damage_dealt;
            &&& final(state).players[dp] == (PlayerState {
                    life: clamp_i16(old(state).players[dp].life - pd),
                    creatures: final(state).players[dp].creatures,
                    ..old(state).players[dp]
                })
            &&& final(state).players[ap] == (PlayerState {
                    life: if heal > 0 { lifesteal_life(l, heal) } else { l },
                    total_damage_dealt: sat_u16(sat_u16(t + pd) + exchange(a, d).0),
                    creatures: final(state).players[ap].creatures,
                    ..old(state).players[ap]
                })
        }),
        game_over_applied(*old(state), *final(state)),
        !r.attacker_died && !r.defender_died ==> {
            let a = stats_at(*old(state), attacker_player, attacker_slot);
            let d = stats_at(*old(state), defender_player, defender_slot);
            &&& final(state).players[defender_player.0 as int].creatures@
                == defender_board_after(old(state).players[defender_player.0 as int].creatures@, a, d, defender_slot)
            &&& final(state).players[attacker_player.0 as int].creatures@
                == attacker_board_after(old(state).players[attacker_player.0 as int].creatures@, a, d, attacker_slot)
        },
{
    let ghost pre = *state;
    let ghost q0 = *effect_queue;
    let ap = attacker_player.index();
    let dp = defender_player.index();
    proof {
        lemma_slot_index(pre.players[ap as int].creatures@, attacker_slot);
        lemma_slot_index(pre.players[dp as int].creatures@, defender_slot);
    }
    let ai = find_creature_index(&state.players[ap].creatures, attacker_slot).unwrap();
    let di = find_creature_index(&state.players[dp].creatures, defender_slot).unwrap();
    let a = get_creature_stats(&state.players[ap].creatures[ai]);
    let d = get_creature_stats(&state.players[dp].creatures[di]);
    let tracing = tracer.is_enabled();
    let mut trace = CombatTrace::new_creature_combat(attacker_player, attacker_slot, a.attack as i8, a.health, a.keywords,
        defender_player, defender_slot, d.attack as i8, d.health, d.keywords);
    trace.log_quick_check(a.keywords.has_quick(), d.keywords.has_quick());
    if a.keywords.has_ranged() {
        trace.log_ranged();
    }
    if a.keywords.has_shield() {
        trace.log_shield_check("Attacker", true);
    }
    if d.keywords.has_shield() {
        trace.log_shield_check("Defender", true);
    }
    trigger_creature_ability(state, card_db, effect_queue, attacker_player, attacker_slot, Trigger::OnAttack);
    let mut result = resolve_combat_damage(state, attacker_player, attacker_slot, defender_player, defender_slot, a, d);
    trace.log_damage(result.attacker_damage_dealt, result.defender_damage_dealt);
    let ghost s1 = *state;
    let face = apply_piercing(state, attacker_player, a, d, &result);
    result.face_damage = face;
    if face > 0 {
        trace.log_piercing(face);
    }
    let ghost s2 = *state;
    let healed = apply_lifesteal_creature(state, attacker_player, a, d, &result);
    result.attacker_healed = healed;
    if lifesteal_happened(a, d, &result) {
        trace.log_lifesteal(healed);
    }
    let ghost s2b = *state;
    state.players[ap].total_damage_dealt = sat_add_u16(state.players[ap].total_damage_dealt, result.attacker_damage_dealt as u16);
    let ghost s3 = *state;
    mark_attacked(state, attacker_player, attacker_slot);
    let ghost s4 = *state;
    let ghost q1 = *effect_queue;
    trigger_damage_effects(state, card_db, effect_queue, attacker_player, attacker_slot, defender_player, defender_slot, &result);
    let ghost q2 = *effect_queue;
    proof {
        lemma_queue_grew_trans(q0, q1, q2);
        assert(s1.players[ap as int].creatures@.len() == pre.players[ap as int].creatures@.len());
        assert(s1.players[dp as int].creatures@.len() == pre.players[dp as int].creatures@.len());
        assert(s2.players[ap as int].creatures == s1.players[ap as int].creatures);
        assert(s2.players[dp as int].creatures == s1.players[dp as int].creatures);
        assert(s3.players[ap as int].creatures == s2.players[ap as int].creatures);
        assert(s3.players[dp as int].creatures == s2.players[dp as int].creatures);
        lemma_slot_index(s3.players[ap as int].creatures@, attacker_slot);
        assert(s4.players[ap as int].creatures@.len() == s3.players[ap as int].creatures@.len());
        assert(s4.players[dp as int].creatures == s3.players[dp as int].creatures);
        if ap == 0 {
            assert(dp == 1);
        } else {
            assert(dp == 0);
        }
        assert(total_creatures(s4) == total_creatures(pre));
    }
    proof {
        lemma_board_ok_same_slots(pre.players[0].creatures@, s1.players[0].creatures@);
        lemma_board_ok_same_slots(pre.players[1].creatures@, s1.players[1].creatures@);
        let b = s3.players[ap as int].creatures@;
        let k = slot_index(b, attacker_slot);
        if k >= 0 {
            lemma_board_ok_update(b, k, attacked(b[k]));
        }
        crate::gamecore::engine::triggers::lemma_same_but_boards_wf(pre, s1);
        assert(pre.players[0].life == s1.players[0].life && pre.players[1].life == s1.players[1].life);
        assert(s2.players[0].hand == s1.players[0].hand && s2.players[1].hand == s1.players[1].hand);
        assert(s3.players[0].hand == s2.players[0].hand && s3.players[1].hand == s2.players[1].hand);
        assert(s4.players[0].hand == s3.players[0].hand && s4.players[1].hand == s3.players[1].hand);
        assert(s2.players[0].supports == s1.players[0].supports && s2.players[1].supports == s1.players[1].supports);
        assert(s3.players[0].supports == s2.players[0].supports && s3.players[1].supports == s2.players[1].supports);
        assert(s4.players[0].supports == s3.players[0].supports && s4.players[1].supports == s3.players[1].supports);
        assert(s4.wf());
    }
    process_combat_deaths(state, card_db, effect_queue, attacker_player, attacker_slot, defender_player, defender_slot, &result);
    let ghost s5 = *state;
    check_game_over(state);
    proof {
        assert(s5.players[0].life == s4.players[0].life && s5.players[1].life == s4.players[1].life);
        assert(life_result(*state) == life_result(s5));
        lemma_combat_players(pre, s1, s2, s2b, s3, s4, s5, *state, ap as int, dp as int, piercing_damage(a, d),
            lifesteal_amount(a, d), exchange(a, d).0);
    }
    proof {
        lemma_queue_grew_trans(q0, q2, *effect_queue);
        assert(total_creatures(s5) <= total_creatures(s4));
    }
    trace.log_complete(result.attacker_died, result.defender_died);
    if tracing {
        tracer.add_trace(trace);
    }
    result
}

/// Whether Lifesteal healed something in creature combat.
fn lifesteal_happened(a: CombatStats, d: CombatStats, result: &CombatResult) -> (r: bool)
    ensures
        r == (a.keywords.spec_has(Keywords::LIFESTEAL) && result.attacker_damage_dealt > 0
            && (if result.attacker_damage_dealt < (if d.health < 0 { 0u8 } else { d.health as u8 }) {
                result.attacker_damage_dealt } else { if d.health < 0 { 0u8 } else { d.health as u8 } }) > 0),
{
    let cap: u8 = if d.health < 0 { 0 } else { d.health as u8 };
    let heal = if result.attacker_damage_dealt < cap { result.attacker_damage_dealt } else { cap };
    a.keywords.has_lifesteal() && result.attacker_damage_dealt > 0 && heal > 0
}

/// Law: Piercing sends to the defending player exactly the overflow of a
/// killing blow, the attack minus the defender's health before combat; it
/// never sends more, and nothing when the attacker lacks Piercing or the
/// defender survives.
pub proof fn lemma_piercing_overflow(a: CombatStats, d: CombatStats)
    requires
        0 <= d.health,
    ensures
        piercing_damage(a, d) > 0 ==> piercing_damage(a, d) + d.health == a.attack,
        piercing_damage(a, d) <= (if a.attack > d.health { a.attack - d.health } else { 0 }),
        !a.keywords.spec_has(Keywords::PIERCING) || !exchange(a, d).3 ==> piercing_damage(a, d) == 0,
        a.keywords.spec_has(Keywords::PIERCING) && exchange(a, d).3 && exchange(a, d).0 > 0 && a.attack > d.health
            ==> piercing_damage(a, d) == a.attack - d.health,
{
}

/// Law: Lifesteal in creature combat heals at most the damage the attacker
/// dealt and at most the defender's health before combat, nothing without
/// Lifesteal; the healed life never drops and never passes 30 unless it
/// already stood above.
pub proof fn lemma_lifesteal_bounded(a: CombatStats, d: CombatStats, life: i16)
    ensures
        lifesteal_amount(a, d) <= exchange(a, d).0,
        lifesteal_amount(a, d) <= (if d.health < 0 { 0 } else { d.health as int }),
        !a.keywords.spec_has(Keywords::LIFESTEAL) ==> lifesteal_amount(a, d) == 0,
        a.keywords.spec_has(Keywords::LIFESTEAL) && 0 <= d.health ==> lifesteal_amount(a, d)
            == (if exchange(a, d).0 < d.health { exchange(a, d).0 as int } else { d.health as int }),
        lifesteal_life(life, lifesteal_amount(a, d)) >= life,
        lifesteal_life(life, lifesteal_amount(a, d)) <= (if life > 30 { life as int } else { 30 }),
        lifesteal_life(life, lifesteal_amount(a, d)) <= life + lifesteal_amount(a, d),
{
}

/// Law: a Ranged attacker takes no counter-attack damage and does not die
/// in the exchange.
pub proof fn lemma_ranged_no_counter(a: CombatStats, d: CombatStats)
    requires
        a.keywords.spec_has(Keywords::RANGED),
    ensures
        exchange(a, d).1 == 0,
        !exchange(a, d).2,
{
}

/// Law: Shield on the defender absorbs the attacker's hit: no damage is
/// dealt to it and it survives.
pub proof fn lemma_shield_absorbs(a: CombatStats, d: CombatStats)
    requires
        d.keywords.spec_has(Keywords::SHIELD),
    ensures
        exchange(a, d).0 == 0,
        !exchange(a, d).3,
{
}

/// Law: a Lethal attacker that gets to strike an unshielded defender with
/// positive attack kills it.
pub proof fn lemma_lethal_kills(a: CombatStats, d: CombatStats)
    requires
        a.keywords.spec_has(Keywords::LETHAL),
        !d.keywords.spec_has(Keywords::SHIELD),
        a.attack > 0,
        !(d.keywords.spec_has(Keywords::QUICK) && !a.keywords.spec_has(Keywords::QUICK)),
    ensures
        exchange(a, d).3,
{
}

/// Law: a Quick attacker facing a defender without Quick that kills it
/// takes no damage back.
pub proof fn lemma_quick_kill_is_free(a: CombatStats, d: CombatStats)
    requires
        a.keywords.spec_has(Keywords::QUICK),
        !d.keywords.spec_has(Keywords::QUICK),
        exchange(a, d).3,
    ensures
        exchange(a, d).1 == 0,
        !exchange(a, d).2,
{
}

/// Law: combat damage never raises a creature's health, and Fortify means
/// at most one less damage than the hit (at least one when the hit is positive).
pub proof fn lemma_hit_lowers_health(c: Creature, damage: u8, lethal: bool, shield: bool)
    requires
        c.current_health >= 0,
    ensures
        hit_creature(c, damage, lethal, shield).current_health <= c.current_health,
        hit_creature(c, damage, lethal, shield).current_health >= 0,
        !shield && damage > 0 ==> hit_outcome(c, damage, lethal, shield).0 >= 1
            && hit_outcome(c, damage, lethal, shield).0 <= damage
            && hit_outcome(c, damage, lethal, shield).0 + 1 >= damage,
{
}

/// Law: a creature's combat hit only reports a kill when its health ends at 0.
pub proof fn lemma_hit_kill_means_zero(c: Creature, damage: u8, lethal: bool, shield: bool)
    ensures
        hit_outcome(c, damage, lethal, shield).2 <==> (damage > 0 && !shield
            && hit_creature(c, damage, lethal, shield).current_health == 0),
{
}

} // verus!
