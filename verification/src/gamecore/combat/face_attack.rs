//! Attacks on an empty slot: damage goes to the enemy player.

use vstd::prelude::*;
use crate::gamecore::arith::{clamp_i16, clamp_i8, sat_add_u16, sat_sub_i16};
use crate::gamecore::cards::CardDatabase;
use crate::gamecore::combat::death::{check_game_over, game_over_applied};
use crate::gamecore::combat::triggers::{queue_grew, trigger_creature_ability};
use crate::gamecore::combat::CombatResult;
use crate::gamecore::effects::Trigger;
use crate::gamecore::engine::effect_queue::EffectQueue;
use crate::gamecore::engine::victory::{ended_with, life_result};
use crate::gamecore::keywords::Keywords;
use crate::gamecore::state::{lemma_board_ok_update, lemma_slot_index, Creature, CreatureStatus, GameState, PlayerState, find_creature_index, slot_index};
use crate::gamecore::tracing::combat_tracer::{CombatTrace, CombatTracer};
use crate::gamecore::types::{PlayerId, Slot};

verus! {

/// A creature after attacking: exhausted, and one more Frenzy stack if it
/// has Frenzy (saturating).
pub open spec fn attacked(c: Creature) -> Creature {
    let c1 = Creature { status: CreatureStatus(c.status.0 | 1), ..c };
    if c.keywords.spec_has(Keywords::FRENZY) {
        Creature { frenzy_stacks: if c.frenzy_stacks == 255 { 255 } else { (c.frenzy_stacks + 1) as u8 }, ..c1 }
    } else {
        c1
    }
}

/// Mark the creature at (`player`, `slot`) as having attacked.
pub fn mark_attacked(state: &mut GameState, player: PlayerId, slot: Slot)
    requires
        player.valid(),
    ensures
        ({
            let b = old(state).players[player.0 as int].creatures@;
            let k = slot_index(b, slot);
            &&& k < 0 ==> *final(state) == *old(state)
            &&& k >= 0 ==> {
                &&& *final(state) == (GameState { players: final(state).players, ..*old(state) })
                &&& final(state).players[player.spec_opponent().0 as int] == old(state).players[player.spec_opponent().0 as int]
                &&& final(state).players[player.0 as int] == (PlayerState {
                        creatures: final(state).players[player.0 as int].creatures, ..old(state).players[player.0 as int]
                    })
                &&& final(state).players[player.0 as int].creatures@ == b.update(k, attacked(b[k]))
            }
        }),
{
    let ghost pre = *state;
    let p = player.index();
    if let Some(idx) = find_creature_index(&state.players[p].creatures, slot) {
        state.players[p].creatures[idx].status.set_exhausted(true);
        if state.players[p].creatures[idx].keywords.has_frenzy() {
            let f = state.players[p].creatures[idx].frenzy_stacks;
            state.players[p].creatures[idx].frenzy_stacks = if f == 255 { 255 } else { f + 1 };
        }
        proof {
            let b = pre.players[p as int].creatures@;
            assert(state.players[p as int].creatures@ =~= b.update(idx as int, attacked(b[idx as int])));
        }
    }
}

/// The attacker's controller's life after Lifesteal on a face attack: it
/// rises by the damage up to 30, and a heal never lowers it.
pub open spec fn face_lifesteal_life(life: i16, damage: u8) -> i16 {
    let n = life + damage;
    if n < 30 { n as i16 } else if life > 30 { life } else { 30 }
}

/// The attacker's controller's life after a face attack.
pub open spec fn face_attacker_life(life: i16, attack: u8, keywords: Keywords) -> i16 {
    if keywords.spec_has(Keywords::LIFESTEAL) && attack > 0 { face_lifesteal_life(life, attack) } else { life }
}

/// A board with the creature at `slot` (if any) marked as having attacked.
pub open spec fn marked_attacked(b: Seq<Creature>, slot: Slot) -> Seq<Creature> {
    let k = slot_index(b, slot);
    if k >= 0 { b.update(k, attacked(b[k])) } else { b }
}

/// The result of an attack on an empty slot with the given attack and
/// keywords, given the attacker's controller's life.
pub open spec fn face_attack_result(attack: u8, keywords: Keywords, life: i16) -> CombatResult {
    CombatResult {
        attacker_damage_dealt: attack,
        defender_damage_dealt: 0,
        attacker_died: false,
        defender_died: false,
        face_damage: attack,
        attacker_healed: (face_attacker_life(life, attack, keywords) - life) as u8,
    }
}

/// Resolve an attack on an empty slot: the enemy player loses life equal to
/// the attack, the damage counts as essence extracted, Lifesteal heals the
/// attacker's controller (up to 30), the attacker is marked as having
/// attacked, its OnAttack abilities are queued, and the game may end.
pub fn resolve_face_attack(state: &mut GameState, card_db: &CardDatabase, effect_queue: &mut EffectQueue,
    attacker_player: PlayerId, attacker_slot: Slot, defender_player: PlayerId, defender_slot: Slot,
    attacker_attack: u8, attacker_keywords: Keywords, tracer: &mut CombatTracer) -> (r: CombatResult)
    requires
        old(effect_queue).wf(),
        old(state).wf(),
        attacker_player.valid(),
        defender_player == attacker_player.spec_opponent(),
    ensures
        final(state).wf(),
        r == face_attack_result(attacker_attack, attacker_keywords, old(state).players[attacker_player.0 as int].life),
        final(state).players[defender_player.0 as int] == (PlayerState {
            life: clamp_i16(old(state).players[defender_player.0 as int].life - attacker_attack),
            ..old(state).players[defender_player.0 as int]
        }),
        ({
            let a = old(state).players[attacker_player.0 as int];
            final(state).players[attacker_player.0 as int] == (PlayerState {
                life: face_attacker_life(a.life, attacker_attack, attacker_keywords),
                total_damage_dealt: if a.total_damage_dealt + attacker_attack > 65535 { 65535u16 }
                    else { (a.total_damage_dealt + attacker_attack) as u16 },
                creatures: final(state).players[attacker_player.0 as int].creatures,
                ..a
            })
        }),
        final(state).players[attacker_player.0 as int].creatures@
            == marked_attacked(old(state).players[attacker_player.0 as int].creatures@, attacker_slot),
        game_over_applied(*old(state), *final(state)),
        final(state).active_player == old(state).active_player,
        final(state).current_turn == old(state).current_turn,
        final(state).game_mode == old(state).game_mode,
        queue_grew(*old(effect_queue), *final(effect_queue)),
        final(state).players[0].creatures@.len() == old(state).players[0].creatures@.len(),
        final(state).players[1].creatures@.len() == old(state).players[1].creatures@.len(),
        final(tracer).enabled == old(tracer).enabled,
{
    let ap = attacker_player.index();
    let dp = defender_player.index();
    let attacker_health = match find_creature_index(&state.players[ap].creatures, attacker_slot) {
        Some(i) => state.players[ap].creatures[i].current_health,
        None => 0,
    };
    let tracing = tracer.is_enabled();
    let mut trace = CombatTrace::new_face_attack(attacker_player, attacker_slot, attacker_attack as i8, attacker_health,
        attacker_keywords, defender_slot);
    let damage = attacker_attack;
    state.players[dp].life = sat_sub_i16(state.players[dp].life, damage as i16);
    state.players[ap].total_damage_dealt = sat_add_u16(state.players[ap].total_damage_dealt, damage as u16);
    trace.log_face_damage(damage);
    let mut healed: u8 = 0;
    if attacker_keywords.has_lifesteal() && damage > 0 {
        let cur = state.players[ap].life;
        let n: i32 = cur as i32 + damage as i32;
        let new_life: i16 = if n < 30 { n as i16 } else if cur > 30 { cur } else { 30 };
        healed = (new_life as i32 - cur as i32) as u8;
        state.players[ap].life = new_life;
        trace.log_lifesteal(healed);
    }
    let ghost before_mark = *state;
    mark_attacked(state, attacker_player, attacker_slot);
    proof {
        let b = before_mark.players[attacker_player.0 as int].creatures@;
        let k = slot_index(b, attacker_slot);
        if k >= 0 {
            lemma_slot_index(b, attacker_slot);
            lemma_board_ok_update(b, k, attacked(b[k]));
        }
    }
    trigger_creature_ability(state, card_db, effect_queue, attacker_player, attacker_slot, Trigger::OnAttack);
    let ghost before_end = *state;
    check_game_over(state);
    proof {
        assert(life_result(*state) == life_result(before_end));
    }
    trace.log_complete(false, false);
    if tracing {
        tracer.add_trace(trace);
    }
    CombatResult {
        attacker_damage_dealt: damage,
        defender_damage_dealt: 0,
        attacker_died: false,
        defender_died: false,
        face_damage: damage,
        attacker_healed: healed,
    }
}

} // verus!
