//! The Attack action.

use vstd::prelude::*;
use crate::gamecore::cards::CommanderTrigger;
use crate::gamecore::combat::resolve::resolve_combat;
use crate::gamecore::engine::actions::ActionContext;
use crate::gamecore::engine::effect_queue::{EffectQueue, resolved, same_turn};
use crate::gamecore::combat::resolve::attack_effects;
use crate::gamecore::combat::triggers::queue_grew;
use crate::gamecore::cards::CardDatabase;
use crate::gamecore::effects::{Effect, EffectSource};
use crate::gamecore::engine::triggers::pendings_of;
use crate::gamecore::engine::passive::{collect_commander_attack_effects, commander_fires, lemma_commander_fires};
use crate::gamecore::state::{GameState, find_creature_index, lemma_slot_index, occupied, slot_index};
use crate::gamecore::tracing::combat_tracer::CombatTracer;
use crate::gamecore::types::Slot;

verus! {

/// Why the active player's creature at `attacker_slot` cannot attack, if it cannot.
pub open spec fn attack_error(s: GameState, attacker_slot: Slot) -> Option<Seq<char>> {
    let b = s.players[s.active_player.0 as int].creatures@;
    let k = slot_index(b, attacker_slot);
    if k < 0 {
        Some("No creature at attacker slot"@)
    } else if !b[k].spec_can_attack(s.current_turn) {
        Some("Creature cannot attack"@)
    } else {
        None
    }
}

/// A successful attack from `(s0, q0)`: the commander's OnAttack effects
/// `r` are queued after what was there and resolved (`s2`, `q2`); if the
/// attacker is still there, combat does what `attack_effects` says (`s3`,
/// `q3`, the queue only growing) and the queue is resolved again (`fin`,
/// `qfin`); otherwise nothing more happens.
pub open spec fn attack_done(s0: GameState, q0: EffectQueue, db: CardDatabase, aslot: Slot, dslot: Slot,
    r: Seq<(Effect, EffectSource)>, q1: EffectQueue, s2: GameState, q2: EffectQueue, s3: GameState, q3: EffectQueue,
    fin: GameState, qfin: EffectQueue) -> bool
{
    let p = s0.active_player;
    &&& commander_fires(s0, p, CommanderTrigger::OnAttack, db, None, r)
    &&& q1.wf()
    &&& q1.pending() == q0.pending() + pendings_of(r)
    &&& q1.deaths() == q0.deaths()
    &&& q1.result() == q0.result()
    &&& resolved(s0, q1, s2, q2)
    &&& if occupied(s2.players[p.0 as int].creatures@, aslot) {
        &&& attack_effects(s2, s3, p, aslot, dslot)
        &&& queue_grew(q2, q3)
        &&& resolved(s3, q3, fin, qfin)
    } else {
        fin == s2 && qfin == q2
    }
}

/// Attack with the active player's creature at `attacker_slot` on the
/// opponent's `defender_slot`: the commander's OnAttack effects resolve
/// first, then combat (unless those effects removed the attacker), then the
/// queued effects.
pub fn execute_attack(ctx: &mut ActionContext, attacker_slot: Slot, defender_slot: Slot) -> (r: Result<(), String>)
    requires
        old(ctx).wf(),
    ensures
        final(ctx).wf(),
        final(ctx).card_db == old(ctx).card_db,
        same_turn(old(ctx).state, final(ctx).state),
        r is Err <==> attack_error(old(ctx).state, attacker_slot) is Some,
        r matches Err(m) ==> m@ == attack_error(old(ctx).state, attacker_slot)->0 && *final(ctx) == *old(ctx),
        r is Ok ==> exists|ce: Seq<(Effect, EffectSource)>, q1: EffectQueue, s2: GameState, q2: EffectQueue, s3: GameState,
            q3: EffectQueue| #[trigger] attack_done(old(ctx).state, old(ctx).effect_queue, *old(ctx).card_db, attacker_slot,
            defender_slot, ce, q1, s2, q2, s3, q3, final(ctx).state, final(ctx).effect_queue),
{
    execute_attack_internal(ctx, attacker_slot, defender_slot, None)
}

/// `execute_attack`, recording combat in `combat_tracer` when given.
pub fn execute_attack_with_tracers(ctx: &mut ActionContext, attacker_slot: Slot, defender_slot: Slot,
    combat_tracer: Option<&mut CombatTracer>) -> (r: Result<(), String>)
    requires
        old(ctx).wf(),
    ensures
        final(ctx).wf(),
        final(ctx).card_db == old(ctx).card_db,
        same_turn(old(ctx).state, final(ctx).state),
        r is Err <==> attack_error(old(ctx).state, attacker_slot) is Some,
        r matches Err(m) ==> m@ == attack_error(old(ctx).state, attacker_slot)->0 && *final(ctx) == *old(ctx),
        r is Ok ==> exists|ce: Seq<(Effect, EffectSource)>, q1: EffectQueue, s2: GameState, q2: EffectQueue, s3: GameState,
            q3: EffectQueue| #[trigger] attack_done(old(ctx).state, old(ctx).effect_queue, *old(ctx).card_db, attacker_slot,
            defender_slot, ce, q1, s2, q2, s3, q3, final(ctx).state, final(ctx).effect_queue),
{
    execute_attack_internal(ctx, attacker_slot, defender_slot, combat_tracer)
}

fn execute_attack_internal(ctx: &mut ActionContext, attacker_slot: Slot, defender_slot: Slot,
    combat_tracer: Option<&mut CombatTracer>) -> (r: Result<(), String>)
    requires
        old(ctx).wf(),
    ensures
        final(ctx).wf(),
        final(ctx).card_db == old(ctx).card_db,
        same_turn(old(ctx).state, final(ctx).state),
        r is Err <==> attack_error(old(ctx).state, attacker_slot) is Some,
        r matches Err(m) ==> m@ == attack_error(old(ctx).state, attacker_slot)->0 && *final(ctx) == *old(ctx),
        r is Ok ==> exists|ce: Seq<(Effect, EffectSource)>, q1: EffectQueue, s2: GameState, q2: EffectQueue, s3: GameState,
            q3: EffectQueue| #[trigger] attack_done(old(ctx).state, old(ctx).effect_queue, *old(ctx).card_db, attacker_slot,
            defender_slot, ce, q1, s2, q2, s3, q3, final(ctx).state, final(ctx).effect_queue),
{
    let current_player = ctx.state.active_player;
    let p = current_player.index();
    proof { lemma_slot_index(ctx.state.players[p as int].creatures@, attacker_slot); }
    let idx = match find_creature_index(&ctx.state.players[p].creatures, attacker_slot) {
        Some(i) => i,
        None => return Err(String::from_str("No creature at attacker slot")),
    };
    if !ctx.state.players[p].creatures[idx].can_attack(ctx.state.current_turn) {
        return Err(String::from_str("Creature cannot attack"));
    }
    let attack_effects = collect_commander_attack_effects(&ctx.state, current_player, ctx.card_db);
    proof { lemma_commander_fires(ctx.state, current_player, CommanderTrigger::OnAttack, *ctx.card_db, None, attack_effects@); }
    let ghost ce = attack_effects@;
    ctx.effect_queue.push_commander_effects(attack_effects, current_player);
    let ghost q1 = ctx.effect_queue;
    ctx.process_effects_reborrow();
    let ghost s2 = ctx.state;
    let ghost q2 = ctx.effect_queue;
    proof { lemma_slot_index(ctx.state.players[p as int].creatures@, attacker_slot); }
    if find_creature_index(&ctx.state.players[p].creatures, attacker_slot).is_some() {
        let _result = resolve_combat(&mut ctx.state, ctx.card_db, &mut ctx.effect_queue, current_player, attacker_slot,
            defender_slot, combat_tracer);
        let ghost s3 = ctx.state;
        let ghost q3 = ctx.effect_queue;
        ctx.process_effects();
        proof {
            assert(attack_done(old(ctx).state, old(ctx).effect_queue, *old(ctx).card_db, attacker_slot, defender_slot, ce, q1,
                s2, q2, s3, q3, ctx.state, ctx.effect_queue));
        }
    } else {
        proof {
            assert(attack_done(old(ctx).state, old(ctx).effect_queue, *old(ctx).card_db, attacker_slot, defender_slot, ce, q1,
                s2, q2, s2, q2, ctx.state, ctx.effect_queue));
        }
    }
    Ok(())
}

} // verus!
