//! Resolving an attack: against a creature, or against the enemy's face.

use vstd::prelude::*;
use crate::gamecore::cards::CardDatabase;
use crate::gamecore::combat::creature_combat::{attacker_board_after, creature_combat_result, defender_board_after, exchange, lifesteal_amount, lifesteal_life, piercing_damage, resolve_creature_combat, sat_u16, stats_of, stats_at};
use crate::gamecore::arith::clamp_i16;
use crate::gamecore::combat::death::game_over_applied;
use crate::gamecore::combat::death::total_creatures;
use crate::gamecore::combat::face_attack::{face_attack_result, face_attacker_life, marked_attacked, resolve_face_attack};
use crate::gamecore::combat::triggers::queue_grew;
use crate::gamecore::engine::effect_queue::EffectQueue;
use crate::gamecore::keywords::Keywords;
use crate::gamecore::state::{Creature, GameState, PlayerState, find_creature_index, lemma_slot_index, occupied, slot_index};
use crate::gamecore::tracing::combat_tracer::CombatTracer;
use crate::gamecore::types::{PlayerId, Slot};

verus! {

/// What a combat produced.
#[derive(Clone, Copy, Debug, PartialEq, Eq, Structural)]
pub struct CombatResult {
    /// Damage the attacker dealt (to the defender, or to the face).
    pub attacker_damage_dealt: u8,
    /// Damage the defender dealt back.
    pub defender_damage_dealt: u8,
    pub attacker_died: bool,
    pub defender_died: bool,
    /// Damage dealt to the defending player (face attack or Piercing overflow).
    pub face_damage: u8,
    /// Life the attacker's controller gained from Lifesteal.
    pub attacker_healed: u8,
}

impl Default for CombatResult {
    fn default() -> (r: CombatResult)
        ensures
            r == (CombatResult {
                attacker_damage_dealt: 0,
                defender_damage_dealt: 0,
                attacker_died: false,
                defender_died: false,
                face_damage: 0,
                attacker_healed: 0,
            }),
    {
        CombatResult {
            attacker_damage_dealt: 0,
            defender_damage_dealt: 0,
            attacker_died: false,
            defender_died: false,
            face_damage: 0,
            attacker_healed: 0,
        }
    }
}

/// The attack a creature strikes an empty slot with: its attack (not below
/// 0), +2 with Charge, + its Frenzy stacks with Frenzy (saturating).
pub open spec fn face_attack_value(c: Creature) -> u8 {
    let base: int = if c.attack < 0 { 0 } else { c.attack as int };
    let with_charge: int = if c.keywords.spec_has(Keywords::CHARGE) { if base + 2 > 255 { 255 } else { base + 2 } } else { base };
    let with_frenzy: int = if c.keywords.spec_has(Keywords::FRENZY) {
        if with_charge + c.frenzy_stacks > 255 { 255 } else { with_charge + c.frenzy_stacks }
    } else {
        with_charge
    };
    with_frenzy as u8
}

/// A creature after attacking reveals itself: Stealth is lost.
pub open spec fn unstealthed(c: Creature) -> Creature {
    if c.keywords.spec_has(Keywords::STEALTH) {
        Creature { keywords: Keywords(c.keywords.0 & !Keywords::STEALTH), ..c }
    } else {
        c
    }
}

/// The result of an attack by the creature at (`p`, `aslot`) on `dslot` of
/// the opponent: a face attack when the slot is empty, a fight otherwise.
pub open spec fn combat_result_of(s: GameState, p: PlayerId, aslot: Slot, dslot: Slot) -> CombatResult {
    let b = s.players[p.0 as int].creatures@;
    let a = b[slot_index(b, aslot)];
    let e = p.spec_opponent();
    if !occupied(s.players[e.0 as int].creatures@, dslot) {
        face_attack_result(face_attack_value(a), a.keywords, s.players[p.0 as int].life)
    } else {
        creature_combat_result(stats_of(unstealthed(a)), stats_at(s, e, dslot), s.players[p.0 as int].life)
    }
}

/// What an attack by the creature at (`p`, `aslot`) on `dslot` does to the
/// players (apart from the boards in a fight): on an empty slot the enemy
/// loses the attack value in life, the attacker's controller is credited
/// with it and may heal by Lifesteal, and the attacker (Stealth lost) is
/// marked as having attacked; in a fight Piercing hits the enemy player,
/// Lifesteal heals and the damage dealt is credited. The game then ends if
/// a player's life calls for it.
pub open spec fn attack_effects(s: GameState, fin: GameState, p: PlayerId, aslot: Slot, dslot: Slot) -> bool {
    let b = s.players[p.0 as int].creatures@;
    let k = slot_index(b, aslot);
    let a = b[k];
    let e = p.spec_opponent();
    let ap = p.0 as int;
    let ep = e.0 as int;
    let l = s.players[ap].life;
    let t = s.players[ap].total_damage_dealt;
    &&& game_over_applied(s, fin)
    &&& if !occupied(s.players[ep].creatures@, dslot) {
        let v = face_attack_value(a);
        &&& fin.players[ep] == (PlayerState { life: clamp_i16(s.players[ep].life - v), ..s.players[ep] })
        &&& fin.players[ap] == (PlayerState {
                life: face_attacker_life(l, v, a.keywords),
                total_damage_dealt: sat_u16(t + v),
                creatures: fin.players[ap].creatures,
                ..s.players[ap]
            })
        &&& fin.players[ap].creatures@ == marked_attacked(b.update(k, unstealthed(a)), aslot)
    } else {
        let sa = stats_of(unstealthed(a));
        let sd = stats_at(s, e, dslot);
        let pd = piercing_damage(sa, sd);
        let heal = lifesteal_amount(sa, sd);
        &&& fin.players[ep] == (PlayerState {
                life: clamp_i16(s.players[ep].life - pd),
                creatures: fin.players[ep].creatures,
                ..s.players[ep]
            })
        &&& fin.players[ap] == (PlayerState {
                life: if heal > 0 { lifesteal_life(l, heal) } else { l },
                total_damage_dealt: sat_u16(sat_u16(t + pd) + exchange(sa, sd).0),
                creatures: fin.players[ap].creatures,
                ..s.players[ap]
            })
        &&& !exchange(sa, sd).2 && !exchange(sa, sd).3 ==> {
            &&& fin.players[ep].creatures@ == defender_board_after(s.players[ep].creatures@, sa, sd, dslot)
            &&& fin.players[ap].creatures@ == attacker_board_after(b.update(k, unstealthed(a)), sa, sd, aslot)
        }
    }
}

/// Resolve an attack by the creature at (`attacker_player`, `attacker_slot`)
/// on slot `defender_slot` of the opponent: the attacker loses Stealth; an
/// empty slot means face damage (with Charge and Frenzy bonuses), otherwise
/// the two creatures fight.
pub fn resolve_combat(state: &mut GameState, card_db: &CardDatabase, effect_queue: &mut EffectQueue,
    attacker_player: PlayerId, attacker_slot: Slot, defender_slot: Slot, tracer: Option<&mut CombatTracer>)
    -> (r: CombatResult)
    requires
        old(state).wf(),
        old(effect_queue).wf(),
        attacker_player.valid(),
        occupied(old(state).players[attacker_player.0 as int].creatures@, attacker_slot),
    ensures
        r == combat_result_of(*old(state), attacker_player, attacker_slot, defender_slot),
        final(state).wf(),
        queue_grew(*old(effect_queue), *final(effect_queue)),
        final(state).active_player == old(state).active_player,
        final(state).current_turn == old(state).current_turn,
        final(state).game_mode == old(state).game_mode,
        total_creatures(*final(state)) <= total_creatures(*old(state)),
        r.defender_died ==> !occupied(final(state).players[attacker_player.spec_opponent().0 as int].creatures@, defender_slot),
        r.attacker_died ==> !occupied(final(state).players[attacker_player.0 as int].creatures@, attacker_slot),
        attack_effects(*old(state), *final(state), attacker_player, attacker_slot, defender_slot),
{
    match tracer {
        Some(t) => resolve_combat_traced(state, card_db, effect_queue, attacker_player, attacker_slot, defender_slot, t),
        None => {
            let mut silent = CombatTracer::new(false);
            resolve_combat_traced(state, card_db, effect_queue, attacker_player, attacker_slot, defender_slot, &mut silent)
        }
    }
}

/// `resolve_combat` with a tracer.
#[verifier::spinoff_prover]
#[verifier::rlimit(60)]
fn resolve_combat_traced(state: &mut GameState, card_db: &CardDatabase, effect_queue: &mut EffectQueue,
    attacker_player: PlayerId, attacker_slot: Slot, defender_slot: Slot, tracer: &mut CombatTracer) -> (r: CombatResult)
    requires
        old(state).wf(),
        old(effect_queue).wf(),
        attacker_player.valid(),
        occupied(old(state).players[attacker_player.0 as int].creatures@, attacker_slot),
    ensures
        r == combat_result_of(*old(state), attacker_player, attacker_slot, defender_slot),
        final(state).wf(),
        queue_grew(*old(effect_queue), *final(effect_queue)),
        final(state).active_player == old(state).active_player,
        final(state).current_turn == old(state).current_turn,
        final(state).game_mode == old(state).game_mode,
        total_creatures(*final(state)) <= total_creatures(*old(state)),
        r.defender_died ==> !occupied(final(state).players[attacker_player.spec_opponent().0 as int].creatures@, defender_slot),
        r.attacker_died ==> !occupied(final(state).players[attacker_player.0 as int].creatures@, attacker_slot),
        attack_effects(*old(state), *final(state), attacker_player, attacker_slot, defender_slot),
{
    let ghost pre = *state;
    let defender_player = attacker_player.opponent();
    let ap = attacker_player.index();
    proof { lemma_slot_index(pre.players[ap as int].creatures@, attacker_slot); }
    let idx = find_creature_index(&state.players[ap].creatures, attacker_slot).unwrap();
    let base: u8 = if state.players[ap].creatures[idx].attack < 0 { 0 } else { state.players[ap].creatures[idx].attack as u8 };
    let keywords = state.players[ap].creatures[idx].keywords;
    let mut attack = base;
    if keywords.has_charge() {
        attack = if attack as u16 + 2 > 255 { 255 } else { attack + 2 };
    }
    if keywords.has_frenzy() {
        let f = state.players[ap].creatures[idx].frenzy_stacks;
        attack = if attack as u16 + f as u16 > 255 { 255 } else { attack + f };
    }
    if keywords.has_stealth() {
        state.players[ap].creatures[idx].keywords.remove(Keywords::STEALTH);
        proof {
            let b = pre.players[ap as int].creatures@;
            assert(state.players[ap as int].creatures@ =~= b.update(idx as int, unstealthed(b[idx as int])));
            crate::gamecore::combat::creature_combat::lemma_slot_index_update(b, attacker_slot, unstealthed(b[idx as int]));
        }
    }
    let ghost mid = *state;
    proof { lemma_slot_index(mid.players[ap as int].creatures@, attacker_slot); }
    let dp = defender_player.index();
    proof { lemma_slot_index(mid.players[dp as int].creatures@, defender_slot); }
    proof {
        let b = pre.players[ap as int].creatures@;
        let k = slot_index(b, attacker_slot);
        assert(mid.players[ap as int].creatures@ =~= b.update(k, unstealthed(b[k])));
        assert(mid.players[dp as int] == pre.players[dp as int]);
        assert(mid.players[ap as int] == (PlayerState { creatures: mid.players[ap as int].creatures, ..pre.players[ap as int] }));
        assert(mid == (GameState { players: mid.players, ..pre }));
    }
    if find_creature_index(&state.players[dp].creatures, defender_slot).is_none() {
        let r = resolve_face_attack(state, card_db, effect_queue, attacker_player, attacker_slot, defender_player,
            defender_slot, attack, keywords, tracer);
        proof {
            assert(attack_effects(pre, *state, attacker_player, attacker_slot, defender_slot));
        }
        return r;
    }
    let r = resolve_creature_combat(state, card_db, effect_queue, attacker_player, attacker_slot, defender_player, defender_slot, tracer);
    proof {
        assert(attack_effects(pre, *state, attacker_player, attacker_slot, defender_slot));
    }
    r
}

} // verus!
