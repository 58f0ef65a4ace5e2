//! Creature ability triggers during combat and deaths.

use vstd::prelude::*;
use crate::gamecore::cards::{AbilityDefinition, CardDatabase, EffectDefinition};
use crate::gamecore::effects::{Effect, EffectSource, PendingEffect, TargetingRule, Trigger};
use crate::gamecore::engine::effect_convert::{effect_def_to_triggered_effect, triggered_effect};
use crate::gamecore::engine::passive::converted;
use crate::gamecore::engine::effect_queue::EffectQueue;
use crate::gamecore::state::{GameState, find_creature_index};
use crate::gamecore::types::{PlayerId, Slot};

verus! {

/// The queue grew at the back, leaving what was there.
pub open spec fn queue_grew(pre: EffectQueue, post: EffectQueue) -> bool {
    &&& post.wf()
    &&& post.pending().len() >= pre.pending().len()
    &&& post.pending().subrange(0, pre.pending().len() as int) == pre.pending()
    &&& post.deaths() == pre.deaths()
    &&& post.result() == pre.result()
}

/// Growing the queue is transitive.
pub proof fn lemma_queue_grew_trans(a: EffectQueue, b: EffectQueue, c: EffectQueue)
    requires
        queue_grew(a, b),
        queue_grew(b, c),
    ensures
        queue_grew(a, c),
{
    assert(c.pending().subrange(0, a.pending().len() as int)
        =~= c.pending().subrange(0, b.pending().len() as int).subrange(0, a.pending().len() as int));
}

/// Growing the queue is reflexive.
pub proof fn lemma_queue_grew_refl(a: EffectQueue)
    requires
        a.wf(),
    ensures
        queue_grew(a, a),
{
    assert(a.pending().subrange(0, a.pending().len() as int) =~= a.pending());
}

/// `out` is what queuing the definitions of one ability of the creature at
/// (`owner`, `slot`) gives, in order: one entry from the creature for each
/// definition that converts (`triggered_effect` for the ability's
/// targeting, or a token summon).
pub open spec fn triggered_defs_queued(defs: Seq<EffectDefinition>, targeting: TargetingRule, out: Seq<PendingEffect>,
    owner: PlayerId, slot: Slot) -> bool
    decreases defs.len(),
{
    if defs.len() == 0 {
        out.len() == 0
    } else {
        let d = defs.last();
        let exp = triggered_effect(d, owner, slot, targeting);
        if d is SummonToken || exp is Some {
            &&& out.len() > 0
            &&& out.last().source == (EffectSource::Creature { owner, slot })
            &&& converted(d, Some(out.last().effect), exp, owner)
            &&& triggered_defs_queued(defs.drop_last(), targeting, out.drop_last(), owner, slot)
        } else {
            triggered_defs_queued(defs.drop_last(), targeting, out, owner, slot)
        }
    }
}

/// How many definitions of one ability convert.
pub open spec fn triggered_defs_count(defs: Seq<EffectDefinition>, targeting: TargetingRule, owner: PlayerId, slot: Slot) -> int
    decreases defs.len(),
{
    if defs.len() == 0 {
        0
    } else {
        triggered_defs_count(defs.drop_last(), targeting, owner, slot)
            + if defs.last() is SummonToken || triggered_effect(defs.last(), owner, slot, targeting) is Some { 1int } else { 0int }
    }
}

/// How many entries the abilities with this trigger queue.
pub open spec fn abilities_count(abs: Seq<AbilityDefinition>, trigger: Trigger, owner: PlayerId, slot: Slot) -> int
    decreases abs.len(),
{
    if abs.len() == 0 {
        0
    } else {
        abilities_count(abs.drop_last(), trigger, owner, slot) + if abs.last().trigger == trigger {
            triggered_defs_count(abs.last().effects@, abs.last().targeting, owner, slot)
        } else {
            0
        }
    }
}

/// `out` is what queuing the abilities `abs` with this trigger of the
/// creature at (`owner`, `slot`) gives, ability by ability.
pub open spec fn abilities_queued(abs: Seq<AbilityDefinition>, trigger: Trigger, out: Seq<PendingEffect>, owner: PlayerId,
    slot: Slot) -> bool
    decreases abs.len(),
{
    if abs.len() == 0 {
        out.len() == 0
    } else {
        let a = abs.last();
        if a.trigger == trigger {
            let k = out.len() - triggered_defs_count(a.effects@, a.targeting, owner, slot);
            &&& 0 <= k
            &&& abilities_queued(abs.drop_last(), trigger, out.subrange(0, k), owner, slot)
            &&& triggered_defs_queued(a.effects@, a.targeting, out.subrange(k, out.len() as int), owner, slot)
        } else {
            abilities_queued(abs.drop_last(), trigger, out, owner, slot)
        }
    }
}

proof fn lemma_triggered_defs_len(defs: Seq<EffectDefinition>, targeting: TargetingRule, out: Seq<PendingEffect>,
    owner: PlayerId, slot: Slot)
    requires
        triggered_defs_queued(defs, targeting, out, owner, slot),
    ensures
        out.len() == triggered_defs_count(defs, targeting, owner, slot),
    decreases defs.len(),
{
    if defs.len() > 0 {
        let d = defs.last();
        if d is SummonToken || triggered_effect(d, owner, slot, targeting) is Some {
            lemma_triggered_defs_len(defs.drop_last(), targeting, out.drop_last(), owner, slot);
        } else {
            lemma_triggered_defs_len(defs.drop_last(), targeting, out, owner, slot);
        }
    }
}

/// The entries queued for abilities number as counted.
pub proof fn lemma_abilities_len(abs: Seq<AbilityDefinition>, trigger: Trigger, out: Seq<PendingEffect>, owner: PlayerId, slot: Slot)
    requires
        abilities_queued(abs, trigger, out, owner, slot),
    ensures
        out.len() == abilities_count(abs, trigger, owner, slot),
    decreases abs.len(),
{
    if abs.len() > 0 {
        let a = abs.last();
        if a.trigger == trigger {
            let k = out.len() - triggered_defs_count(a.effects@, a.targeting, owner, slot);
            lemma_abilities_len(abs.drop_last(), trigger, out.subrange(0, k), owner, slot);
            lemma_triggered_defs_len(a.effects@, a.targeting, out.subrange(k, out.len() as int), owner, slot);
        } else {
            lemma_abilities_len(abs.drop_last(), trigger, out, owner, slot);
        }
    }
}

proof fn lemma_triggered_step(defs: Seq<EffectDefinition>, targeting: TargetingRule, out: Seq<PendingEffect>, owner: PlayerId,
    slot: Slot, d: EffectDefinition, r: Option<Effect>)
    requires
        triggered_defs_queued(defs, targeting, out, owner, slot),
        converted(d, r, triggered_effect(d, owner, slot, targeting), owner),
    ensures
        triggered_defs_queued(defs.push(d), targeting,
            match r { Some(e) => out.push(PendingEffect { effect: e, source: EffectSource::Creature { owner, slot } }), None => out },
            owner, slot),
{
    assert(defs.push(d).drop_last() =~= defs);
    if let Some(e) = r {
        assert(out.push(PendingEffect { effect: e, source: EffectSource::Creature { owner, slot } }).drop_last() =~= out);
    }
}

/// Splitting a queue at an earlier length.
pub proof fn lemma_queue_split(q0: Seq<PendingEffect>, before: Seq<PendingEffect>, after: Seq<PendingEffect>)
    requires
        q0.len() <= before.len() <= after.len(),
        after.subrange(0, before.len() as int) == before,
    ensures
        after.subrange(q0.len() as int, after.len() as int).subrange(0, before.len() - q0.len())
            == before.subrange(q0.len() as int, before.len() as int),
        after.subrange(q0.len() as int, after.len() as int).subrange(before.len() - q0.len(),
            after.len() - q0.len()) == after.subrange(before.len() as int, after.len() as int),
{
    assert(after.subrange(q0.len() as int, after.len() as int).subrange(0, before.len() - q0.len())
        =~= before.subrange(q0.len() as int, before.len() as int));
    assert(after.subrange(q0.len() as int, after.len() as int).subrange(before.len() - q0.len(),
        after.len() - q0.len()) =~= after.subrange(before.len() as int, after.len() as int));
}

/// Queue, from the creature at (`player`, `slot`), the effects of its
/// abilities with the given trigger (targets chosen by each ability's
/// targeting rule).
pub fn queue_triggered_abilities(effect_queue: &mut EffectQueue, abilities: &[AbilityDefinition], trigger: Trigger,
    player: PlayerId, slot: Slot)
    requires
        old(effect_queue).wf(),
        player.valid(),
    ensures
        queue_grew(*old(effect_queue), *final(effect_queue)),
        abilities_queued(abilities@, trigger,
            final(effect_queue).pending().subrange(old(effect_queue).pending().len() as int, final(effect_queue).pending().len() as int),
            player, slot),
{
    proof { lemma_queue_grew_refl(*effect_queue); }
    let ghost q0 = effect_queue.pending();
    proof { assert(q0.subrange(q0.len() as int, q0.len() as int) =~= Seq::<PendingEffect>::empty()); }
    let source = EffectSource::Creature { owner: player, slot };
    let mut a: usize = 0;
    while a < abilities.len()
        invariant
            player.valid(),
            a <= abilities@.len(),
            q0 == old(effect_queue).pending(),
            source == (EffectSource::Creature { owner: player, slot }),
            queue_grew(*old(effect_queue), *effect_queue),
            abilities_queued(abilities@.subrange(0, a as int), trigger,
                effect_queue.pending().subrange(q0.len() as int, effect_queue.pending().len() as int), player, slot),
        decreases abilities@.len() - a,
    {
        let ability = &abilities[a];
        let ghost m1 = effect_queue.pending();
        let ghost t1 = abilities@.subrange(0, a + 1);
        proof { assert(t1.drop_last() =~= abilities@.subrange(0, a as int)); }
        if ability.trigger == trigger {
            proof { assert(m1.subrange(m1.len() as int, m1.len() as int) =~= Seq::<PendingEffect>::empty()); }
            let mut k: usize = 0;
            while k < ability.effects.len()
                invariant
                    player.valid(),
                    k <= ability.effects@.len(),
                    source == (EffectSource::Creature { owner: player, slot }),
                    queue_grew(*old(effect_queue), *effect_queue),
                    effect_queue.pending().len() >= m1.len(),
                    effect_queue.pending().subrange(0, m1.len() as int) == m1,
                    triggered_defs_queued(ability.effects@.subrange(0, k as int), ability.targeting,
                        effect_queue.pending().subrange(m1.len() as int, effect_queue.pending().len() as int), player, slot),
                decreases ability.effects@.len() - k,
            {
                let ghost before = *effect_queue;
                let r = effect_def_to_triggered_effect(&ability.effects[k], player, slot, ability);
                proof {
                    lemma_triggered_step(ability.effects@.subrange(0, k as int), ability.targeting,
                        before.pending().subrange(m1.len() as int, before.pending().len() as int), player, slot,
                        ability.effects@[k as int], r);
                    assert(ability.effects@.subrange(0, k as int).push(ability.effects@[k as int]) =~= ability.effects@.subrange(0, k + 1));
                }
                if let Some(effect) = r {
                    effect_queue.push(effect, source);
                    proof {
                        assert(effect_queue.pending().subrange(0, before.pending().len() as int) =~= before.pending());
                        lemma_queue_grew_trans(*old(effect_queue), before, *effect_queue);
                        assert(effect_queue.pending().subrange(0, m1.len() as int) =~= before.pending().subrange(0, m1.len() as int));
                        assert(effect_queue.pending().subrange(m1.len() as int, effect_queue.pending().len() as int)
                            =~= before.pending().subrange(m1.len() as int, before.pending().len() as int).push(PendingEffect { effect, source }));
                    }
                }
                k = k + 1;
            }
            proof {
                let q = effect_queue.pending();
                assert(ability.effects@.subrange(0, ability.effects@.len() as int) =~= ability.effects@);
                lemma_triggered_defs_len(ability.effects@, ability.targeting, q.subrange(m1.len() as int, q.len() as int), player, slot);
                assert(q.subrange(0, q0.len() as int) == q0);
                lemma_queue_split(q0, m1, q);
                assert(abilities_queued(t1, trigger, q.subrange(q0.len() as int, q.len() as int), player, slot));
            }
        }
        a = a + 1;
    }
    proof { assert(abilities@.subrange(0, abilities@.len() as int) =~= abilities@); }
}

/// Queue the abilities of the creature at (`player`, `slot`) with the given
/// trigger, unless it is missing or silenced.
pub fn trigger_creature_ability(state: &GameState, card_db: &CardDatabase, effect_queue: &mut EffectQueue,
    player: PlayerId, slot: Slot, trigger: Trigger)
    requires
        old(effect_queue).wf(),
        player.valid(),
    ensures
        queue_grew(*old(effect_queue), *final(effect_queue)),
{
    proof { lemma_queue_grew_refl(*effect_queue); }
    let idx = match find_creature_index(&state.players[player.index()].creatures, slot) {
        Some(i) => i,
        None => return,
    };
    if state.players[player.index()].creatures[idx].status.is_silenced() {
        return;
    }
    let card_def = match card_db.get(state.players[player.index()].creatures[idx].card_id) {
        Some(c) => c,
        None => return,
    };
    let abilities = match card_def.creature_abilities() {
        Some(a) => a,
        None => return,
    };
    queue_triggered_abilities(effect_queue, abilities, trigger, player, slot);
}

/// Queue the OnAllyDeath abilities of the other (not silenced) creatures of
/// the player whose creature at `dead_slot` died.
pub fn trigger_ally_death_for_allies(state: &GameState, card_db: &CardDatabase, effect_queue: &mut EffectQueue,
    player: PlayerId, dead_slot: Slot)
    requires
        old(effect_queue).wf(),
        player.valid(),
    ensures
        queue_grew(*old(effect_queue), *final(effect_queue)),
{
    proof { lemma_queue_grew_refl(*effect_queue); }
    let creatures = &state.players[player.index()].creatures;
    let mut i: usize = 0;
    while i < creatures.len()
        invariant
            player.valid(),
            queue_grew(*old(effect_queue), *effect_queue),
        decreases creatures@.len() - i,
    {
        let c = &creatures[i];
        if c.slot != dead_slot && !c.status.is_silenced() {
            if let Some(card_def) = card_db.get(c.card_id) {
                if let Some(abilities) = card_def.creature_abilities() {
                    let ghost before = *effect_queue;
                    queue_triggered_abilities(effect_queue, abilities, Trigger::OnAllyDeath, player, c.slot);
                    proof { lemma_queue_grew_trans(*old(effect_queue), before, *effect_queue); }
                }
            }
        }
        i = i + 1;
    }
}

} // verus!
