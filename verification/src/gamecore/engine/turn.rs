//! Turn flow: starting and ending turns.

use vstd::prelude::*;
use crate::gamecore::arith::clamp_i8;
use crate::gamecore::cards::{AbilityDefinition, CardDatabase, CardType, CommanderTrigger, EffectDefinition};
use crate::gamecore::effects::TargetingRule;
use crate::gamecore::config::{game, player};
use crate::gamecore::effects::{Effect, EffectSource, EffectTarget, PendingEffect, Trigger};
use crate::gamecore::engine::triggers::pendings_of;
use crate::gamecore::engine::effect_context::{effect_wf, pending_wf, source_wf};
use crate::gamecore::engine::effect_convert::{effect_def_to_effect_with_target, targeted_converted, targeted_effect};
use crate::gamecore::engine::effect_queue::{EffectQueue, resolved, same_turn};
use crate::gamecore::engine::init::{card_drawn, draw_card};
use crate::gamecore::engine::passive::{
    collect_commander_start_of_turn_effects, commander_fires, lemma_commander_fires, remove_support_passives_from_all_creatures,
    converted, support_effect, support_effect_def_to_effect, support_modifiers, without_modifiers,
};
use crate::gamecore::engine::victory::{check_turn_limit_victory, ended_with, tiebreak_winner};
use crate::gamecore::keywords::Keywords;
use crate::gamecore::state::{board_ok, slot_index, 
    Creature, CreatureStatus, GameResult, GameState, PlayerState, Support, WinReason, find_creature_index,
};
use crate::gamecore::types::{CardId, PlayerId, Slot};

verus! {

/// A creature at the start of its owner's turn: no longer exhausted, and
/// healed by 2 (up to its maximum) if it has Regenerate and is alive.
pub open spec fn readied(c: Creature) -> Creature {
    let c1 = Creature { status: CreatureStatus(c.status.0 & 0xfe), ..c };
    if c1.current_health > 0 && c1.keywords.spec_has(Keywords::REGENERATE) && c1.current_health < c1.max_health {
        let h = clamp_i8(c1.current_health + 2);
        Creature { current_health: if h < c1.max_health { h } else { c1.max_health }, ..c1 }
    } else {
        c1
    }
}

/// Essence capacity after a turn starts: one more, up to the maximum.
pub open spec fn grown_essence(m: u8) -> u8 {
    if m < player::MAX_ESSENCE { (m + player::ESSENCE_PER_TURN) as u8 } else { m }
}

/// `post` is `pre` with player `p`'s turn begun: Commander's Insight
/// available again, essence grown and refilled, a card drawn, action points
/// restored, creatures readied.
pub open spec fn turn_begun(pre: GameState, post: GameState, p: PlayerId) -> bool {
    let ps = pre.players[p.0 as int];
    let qs = post.players[p.0 as int];
    let m = grown_essence(ps.max_essence);
    &&& post == GameState { players: post.players, ..pre }
    &&& post.players[p.spec_opponent().0 as int] == pre.players[p.spec_opponent().0 as int]
    &&& qs == PlayerState {
            used_commander_insight: false,
            max_essence: m,
            current_essence: m,
            action_points: player::AP_PER_TURN,
            hand: qs.hand,
            deck: qs.deck,
            creatures: qs.creatures,
            ..ps
        }
    &&& (qs.hand@, crate::gamecore::state::deck_cards(qs.deck))
        == crate::gamecore::engine::init::drawn_top(ps.hand@, crate::gamecore::state::deck_cards(ps.deck))
    &&& qs.creatures@ == Seq::new(ps.creatures@.len(), |i: int| readied(ps.creatures@[i]))
}

/// Law: when a player's turn begins, their essence is refilled to the new
/// maximum, which grows by one until the cap; they get the turn's action
/// points and Commander's Insight back, and the opponent is untouched.
pub proof fn lemma_turn_begun_refills(pre: GameState, post: GameState, p: PlayerId)
    requires
        p.valid(),
        turn_begun(pre, post, p),
    ensures
        post.players[p.0 as int].current_essence == post.players[p.0 as int].max_essence,
        pre.players[p.0 as int].max_essence < player::MAX_ESSENCE
            ==> post.players[p.0 as int].max_essence == pre.players[p.0 as int].max_essence + 1,
        pre.players[p.0 as int].max_essence >= player::MAX_ESSENCE
            ==> post.players[p.0 as int].max_essence == pre.players[p.0 as int].max_essence,
        post.players[p.0 as int].current_essence >= pre.players[p.0 as int].max_essence,
        post.players[p.0 as int].action_points == player::AP_PER_TURN,
        !post.players[p.0 as int].used_commander_insight,
        post.players[p.spec_opponent().0 as int] == pre.players[p.spec_opponent().0 as int],
        post.players[p.0 as int].creatures@.len() == pre.players[p.0 as int].creatures@.len(),
        forall|j: int| 0 <= j < post.players[p.0 as int].creatures@.len()
            ==> !(#[trigger] post.players[p.0 as int].creatures@[j]).status.spec_exhausted(),
        ({
            let hand = pre.players[p.0 as int].hand@;
            let deck = crate::gamecore::state::deck_cards(pre.players[p.0 as int].deck);
            deck.len() > 0 && hand.len() < player::MAX_HAND_SIZE ==> {
                &&& post.players[p.0 as int].hand@ == hand.push(deck.last())
                &&& crate::gamecore::state::deck_cards(post.players[p.0 as int].deck) == deck.drop_last()
            }
        }),
{
    let b = pre.players[p.0 as int].creatures@;
    assert forall|j: int| 0 <= j < post.players[p.0 as int].creatures@.len()
        implies !(#[trigger] post.players[p.0 as int].creatures@[j]).status.spec_exhausted() by {
        let x = b[j].status.0;
        assert((x & 0xfe) & 1 == 0) by (bit_vector);
        assert(post.players[p.0 as int].creatures@[j] == readied(b[j]));
    }
}

/// Ready every creature of a board.
fn ready_creatures(cs: &mut Vec<Creature>)
    ensures
        final(cs)@ == Seq::new(old(cs)@.len(), |i: int| readied(old(cs)@[i])),
{
    let ghost orig = cs@;
    let mut i: usize = 0;
    while i < cs.len()
        invariant
            i <= cs@.len(),
            cs@.len() == orig.len(),
            forall|j: int| 0 <= j < i ==> #[trigger] cs@[j] == readied(orig[j]),
            forall|j: int| i <= j < cs@.len() ==> #[trigger] cs@[j] == orig[j],
        decreases cs@.len() - i,
    {
        cs[i].status.set_exhausted(false);
        let h = cs[i].current_health;
        let m = cs[i].max_health;
        if h > 0 && cs[i].keywords.has_regenerate() && h < m {
            let r = crate::gamecore::arith::sat_add_i8(h, 2);
            cs[i].current_health = if r < m { r } else { m };
        }
        i = i + 1;
    }
    proof {
        assert(cs@ =~= Seq::new(orig.len(), |i: int| readied(orig[i])));
    }
}

/// Begin player `p`'s turn (before any triggered effect).
pub fn begin_turn(state: &mut GameState, p: PlayerId)
    requires
        p.valid(),
    ensures
        turn_begun(*old(state), *final(state), p),
{
    let ghost pre = *state;
    let i = p.index();
    state.players[i].used_commander_insight = false;
    if state.players[i].max_essence < player::MAX_ESSENCE {
        state.players[i].max_essence = state.players[i].max_essence + player::ESSENCE_PER_TURN;
    }
    state.players[i].current_essence = state.players[i].max_essence;
    let ghost mid = *state;
    draw_card(state, p);
    state.players[i].action_points = player::AP_PER_TURN;
    ready_creatures(&mut state.players[i].creatures);
}

/// `out` is what queuing the definitions of one support ability gives, in
/// order: one entry from the support for each definition that converts
/// (`support_effect` for the ability's targeting, or a token summon).
pub open spec fn support_defs_queued(defs: Seq<EffectDefinition>, targeting: TargetingRule, out: Seq<PendingEffect>,
    owner: PlayerId, slot: Slot) -> bool
    decreases defs.len(),
{
    if defs.len() == 0 {
        out.len() == 0
    } else {
        let d = defs.last();
        let exp = support_effect(d, owner, targeting);
        if d is SummonToken || exp is Some {
            &&& out.len() > 0
            &&& out.last().source == (EffectSource::Support { owner, slot })
            &&& converted(d, Some(out.last().effect), exp, owner)
            &&& support_defs_queued(defs.drop_last(), targeting, out.drop_last(), owner, slot)
        } else {
            support_defs_queued(defs.drop_last(), targeting, out, owner, slot)
        }
    }
}

/// How many definitions of a support ability convert.
pub open spec fn support_defs_count(defs: Seq<EffectDefinition>, targeting: TargetingRule, owner: PlayerId) -> int
    decreases defs.len(),
{
    if defs.len() == 0 {
        0
    } else {
        support_defs_count(defs.drop_last(), targeting, owner)
            + if defs.last() is SummonToken || support_effect(defs.last(), owner, targeting) is Some { 1int } else { 0int }
    }
}

/// How many entries the StartOfTurn abilities of a support queue.
pub open spec fn support_abilities_count(abs: Seq<AbilityDefinition>, trigger: Trigger, owner: PlayerId) -> int
    decreases abs.len(),
{
    if abs.len() == 0 {
        0
    } else {
        support_abilities_count(abs.drop_last(), trigger, owner) + if abs.last().trigger == trigger {
            support_defs_count(abs.last().effects@, abs.last().targeting, owner)
        } else {
            0
        }
    }
}

/// `out` is what queuing the StartOfTurn abilities `abs` of the support at
/// `slot` gives, ability by ability.
pub open spec fn support_abilities_queued(abs: Seq<AbilityDefinition>, trigger: Trigger, out: Seq<PendingEffect>, owner: PlayerId, slot: Slot) -> bool
    decreases abs.len(),
{
    if abs.len() == 0 {
        out.len() == 0
    } else {
        let a = abs.last();
        if a.trigger == trigger {
            let k = out.len() - support_defs_count(a.effects@, a.targeting, owner);
            &&& 0 <= k
            &&& support_abilities_queued(abs.drop_last(), trigger, out.subrange(0, k), owner, slot)
            &&& support_defs_queued(a.effects@, a.targeting, out.subrange(k, out.len() as int), owner, slot)
        } else {
            support_abilities_queued(abs.drop_last(), trigger, out, owner, slot)
        }
    }
}

/// The triggered abilities of support card `id` (none when unknown or not a support).
pub open spec fn support_card_abilities(db: CardDatabase, id: CardId) -> Seq<AbilityDefinition> {
    match db.spec_get(id) {
        Some(def) => match def.card_type {
            CardType::Support { triggered_effects, .. } => triggered_effects@,
            _ => Seq::empty(),
        },
        None => Seq::empty(),
    }
}

/// `out` is what queuing the StartOfTurn abilities of the supports `ss`
/// gives, support by support in board order.
pub open spec fn supports_start_queued(ss: Seq<Support>, db: CardDatabase, owner: PlayerId, out: Seq<PendingEffect>) -> bool
    decreases ss.len(),
{
    if ss.len() == 0 {
        out.len() == 0
    } else {
        let abs = support_card_abilities(db, ss.last().card_id);
        let k = out.len() - support_abilities_count(abs, Trigger::StartOfTurn, owner);
        &&& 0 <= k
        &&& supports_start_queued(ss.drop_last(), db, owner, out.subrange(0, k))
        &&& support_abilities_queued(abs, Trigger::StartOfTurn, out.subrange(k, out.len() as int), owner, ss.last().slot)
    }
}

pub proof fn lemma_support_defs_len(defs: Seq<EffectDefinition>, targeting: TargetingRule, out: Seq<PendingEffect>, owner: PlayerId, slot: Slot)
    requires
        support_defs_queued(defs, targeting, out, owner, slot),
    ensures
        out.len() == support_defs_count(defs, targeting, owner),
    decreases defs.len(),
{
    if defs.len() > 0 {
        let d = defs.last();
        if d is SummonToken || support_effect(d, owner, targeting) is Some {
            lemma_support_defs_len(defs.drop_last(), targeting, out.drop_last(), owner, slot);
        } else {
            lemma_support_defs_len(defs.drop_last(), targeting, out, owner, slot);
        }
    }
}

pub proof fn lemma_support_abilities_len(abs: Seq<AbilityDefinition>, trigger: Trigger, out: Seq<PendingEffect>, owner: PlayerId, slot: Slot)
    requires
        support_abilities_queued(abs, trigger, out, owner, slot),
    ensures
        out.len() == support_abilities_count(abs, trigger, owner),
    decreases abs.len(),
{
    if abs.len() > 0 {
        let a = abs.last();
        if a.trigger == trigger {
            let k = out.len() - support_defs_count(a.effects@, a.targeting, owner);
            lemma_support_abilities_len(abs.drop_last(), trigger, out.subrange(0, k), owner, slot);
            lemma_support_defs_len(a.effects@, a.targeting, out.subrange(k, out.len() as int), owner, slot);
        } else {
            lemma_support_abilities_len(abs.drop_last(), trigger, out, owner, slot);
        }
    }
}

pub proof fn lemma_support_step(defs: Seq<EffectDefinition>, targeting: TargetingRule, out: Seq<PendingEffect>, owner: PlayerId,
    slot: Slot, d: EffectDefinition, r: Option<Effect>)
    requires
        support_defs_queued(defs, targeting, out, owner, slot),
        converted(d, r, support_effect(d, owner, targeting), owner),
    ensures
        support_defs_queued(defs.push(d), targeting,
            match r { Some(e) => out.push(PendingEffect { effect: e, source: EffectSource::Support { owner, slot } }), None => out },
            owner, slot),
{
    assert(defs.push(d).drop_last() =~= defs);
    if let Some(e) = r {
        assert(out.push(PendingEffect { effect: e, source: EffectSource::Support { owner, slot } }).drop_last() =~= out);
    }
}

/// Splitting a queue at an earlier length.
pub proof fn lemma_split(q0: Seq<PendingEffect>, before: Seq<PendingEffect>, after: Seq<PendingEffect>)
    requires
        q0.len() <= before.len() <= after.len(),
        after.subrange(0, before.len() as int) == before,
    ensures
        after.subrange(q0.len() as int, after.len() as int).subrange(0, before.len() - q0.len())
            == before.subrange(q0.len() as int, before.len() as int),
        after.subrange(q0.len() as int, after.len() as int).subrange(before.len() - q0.len(),
            after.len() - q0.len()) == after.subrange(before.len() as int, after.len() as int),
{
    assert(after.subrange(q0.len() as int, after.len() as int).subrange(0, before.len() - q0.len())
        =~= before.subrange(q0.len() as int, before.len() as int));
    assert(after.subrange(q0.len() as int, after.len() as int).subrange(before.len() - q0.len(),
        after.len() - q0.len()) =~= after.subrange(before.len() as int, after.len() as int));
}

/// Queue the StartOfTurn abilities of a player's supports.
fn queue_support_start_of_turn_triggers(state: &GameState, card_db: &CardDatabase, effect_queue: &mut EffectQueue,
    p: PlayerId)
    requires
        p.valid(),
        old(effect_queue).wf(),
    ensures
        final(effect_queue).wf(),
        final(effect_queue).pending().len() >= old(effect_queue).pending().len(),
        final(effect_queue).pending().subrange(0, old(effect_queue).pending().len() as int) == old(effect_queue).pending(),
        supports_start_queued(state.players[p.0 as int].supports@, *card_db, p,
            final(effect_queue).pending().subrange(old(effect_queue).pending().len() as int, final(effect_queue).pending().len() as int)),
        final(effect_queue).deaths() == old(effect_queue).deaths(),
        final(effect_queue).result() == old(effect_queue).result(),
{
    let ghost q0 = effect_queue.pending();
    let supports = &state.players[p.index()].supports;
    proof { assert(q0.subrange(q0.len() as int, q0.len() as int) =~= Seq::<PendingEffect>::empty()); }
    let mut i: usize = 0;
    while i < supports.len()
        invariant
            p.valid(),
            i <= supports@.len(),
            effect_queue.wf(),
            effect_queue.pending().len() >= q0.len(),
            effect_queue.pending().subrange(0, q0.len() as int) == q0,
            supports_start_queued(supports@.subrange(0, i as int), *card_db, p,
                effect_queue.pending().subrange(q0.len() as int, effect_queue.pending().len() as int)),
            effect_queue.deaths() == old(effect_queue).deaths(),
            effect_queue.result() == old(effect_queue).result(),
        decreases supports@.len() - i,
    {
        let slot = supports[i].slot;
        let ghost m0 = effect_queue.pending();
        let ghost abs = support_card_abilities(*card_db, supports@[i as int].card_id);
        proof { assert(m0.subrange(m0.len() as int, m0.len() as int) =~= Seq::<PendingEffect>::empty()); }
        if let Some(card_def) = card_db.get(supports[i].card_id) {
            if let CardType::Support { triggered_effects, .. } = &card_def.card_type {
                let mut a: usize = 0;
                while a < triggered_effects.len()
                    invariant
                        p.valid(),
                        a <= triggered_effects@.len(),
                        abs == triggered_effects@,
                        effect_queue.wf(),
                        effect_queue.pending().len() >= m0.len(),
                        effect_queue.pending().subrange(0, m0.len() as int) == m0,
                        support_abilities_queued(triggered_effects@.subrange(0, a as int), Trigger::StartOfTurn,
                            effect_queue.pending().subrange(m0.len() as int, effect_queue.pending().len() as int), p, slot),
                        effect_queue.deaths() == old(effect_queue).deaths(),
                        effect_queue.result() == old(effect_queue).result(),
                    decreases triggered_effects@.len() - a,
                {
                    let ability = &triggered_effects[a];
                    let ghost m1 = effect_queue.pending();
                    let ghost t1 = triggered_effects@.subrange(0, a + 1);
                    proof { assert(t1.drop_last() =~= triggered_effects@.subrange(0, a as int)); }
                    if ability.trigger == Trigger::StartOfTurn {
                        let source = EffectSource::Support { owner: p, slot };
                        proof { assert(m1.subrange(m1.len() as int, m1.len() as int) =~= Seq::<PendingEffect>::empty()); }
                        let mut k: usize = 0;
                        while k < ability.effects.len()
                            invariant
                                p.valid(),
                                k <= ability.effects@.len(),
                                source == (EffectSource::Support { owner: p, slot }),
                                effect_queue.wf(),
                                effect_queue.pending().len() >= m1.len(),
                                effect_queue.pending().subrange(0, m1.len() as int) == m1,
                                support_defs_queued(ability.effects@.subrange(0, k as int), ability.targeting,
                                    effect_queue.pending().subrange(m1.len() as int, effect_queue.pending().len() as int), p, slot),
                                effect_queue.deaths() == old(effect_queue).deaths(),
                                effect_queue.result() == old(effect_queue).result(),
                            decreases ability.effects@.len() - k,
                        {
                            let ghost before = effect_queue.pending();
                            let r = support_effect_def_to_effect(&ability.effects[k], p, ability);
                            proof {
                                lemma_support_step(ability.effects@.subrange(0, k as int), ability.targeting,
                                    before.subrange(m1.len() as int, before.len() as int), p, slot, ability.effects@[k as int], r);
                                assert(ability.effects@.subrange(0, k as int).push(ability.effects@[k as int])
                                    =~= ability.effects@.subrange(0, k + 1));
                            }
                            if let Some(effect) = r {
                                effect_queue.push(effect, source);
                                proof {
                                    assert(effect_queue.pending().subrange(0, m1.len() as int)
                                        =~= before.subrange(0, m1.len() as int));
                                    assert(effect_queue.pending().subrange(m1.len() as int, effect_queue.pending().len() as int)
                                        =~= before.subrange(m1.len() as int, before.len() as int).push(PendingEffect { effect, source }));
                                }
                            }
                            k = k + 1;
                        }
                        proof {
                            let q = effect_queue.pending();
                            assert(ability.effects@.subrange(0, ability.effects@.len() as int) =~= ability.effects@);
                            lemma_support_defs_len(ability.effects@, ability.targeting, q.subrange(m1.len() as int, q.len() as int), p, slot);
                            lemma_split(m0, m1, q);
                            assert(q.subrange(0, m0.len() as int) =~= m0);
                            assert(support_abilities_queued(t1, Trigger::StartOfTurn, q.subrange(m0.len() as int, q.len() as int), p, slot));
                        }
                    }
                    a = a + 1;
                }
                proof { assert(triggered_effects@.subrange(0, triggered_effects@.len() as int) =~= triggered_effects@); }
            }
        }
        proof {
            let q = effect_queue.pending();
            let s1 = supports@.subrange(0, i + 1);
            assert(s1.drop_last() =~= supports@.subrange(0, i as int));
            assert(s1.last() == supports@[i as int]);
            lemma_support_abilities_len(abs, Trigger::StartOfTurn, q.subrange(m0.len() as int, q.len() as int), p, slot);
            assert(q.subrange(0, m0.len() as int) =~= m0);
            lemma_split(q0, m0, q);
            assert(q.subrange(0, q0.len() as int) =~= q0);
            assert(supports_start_queued(s1, *card_db, p, q.subrange(q0.len() as int, q.len() as int)));
        }
        i = i + 1;
    }
    proof { assert(supports@.subrange(0, supports@.len() as int) =~= supports@); }
}

/// Queue the StartOfTurn effects of a player's commander.
fn queue_commander_start_of_turn_triggers(state: &GameState, card_db: &CardDatabase, effect_queue: &mut EffectQueue,
    p: PlayerId)
    requires
        p.valid(),
        old(effect_queue).wf(),
    ensures
        final(effect_queue).wf(),
        exists|r: Seq<(Effect, EffectSource)>| #[trigger] commander_fires(*state, p, CommanderTrigger::StartOfTurn, *card_db, None, r)
            && final(effect_queue).pending() == old(effect_queue).pending() + pendings_of(r),
        final(effect_queue).pending().len() >= old(effect_queue).pending().len(),
        final(effect_queue).pending().subrange(0, old(effect_queue).pending().len() as int) == old(effect_queue).pending(),
        final(effect_queue).deaths() == old(effect_queue).deaths(),
        final(effect_queue).result() == old(effect_queue).result(),
{
    let ghost q0 = effect_queue.pending();
    let mut effects = collect_commander_start_of_turn_effects(state, p, card_db);
    let ghost all = effects@;
    proof { lemma_commander_fires(*state, p, CommanderTrigger::StartOfTurn, *card_db, None, effects@); }
    while effects.len() > 0
        invariant
            p.valid(),
            forall|j: int| 0 <= j < effects@.len() ==>
                (#[trigger] effects@[j]).1 == (EffectSource::Commander { owner: p }) && effect_wf(effects@[j].0),
            effects@.len() <= all.len(),
            effects@ == all.subrange(all.len() - effects@.len(), all.len() as int),
            effect_queue.wf(),
            effect_queue.pending() == q0 + pendings_of(all.subrange(0, all.len() - effects@.len())),
            effect_queue.deaths() == old(effect_queue).deaths(),
            effect_queue.result() == old(effect_queue).result(),
        decreases effects@.len(),
    {
        let ghost rest = effects@;
        let ghost k = all.len() - effects@.len();
        let (effect, source) = effects.remove(0);
        proof {
            assert(rest[0] == (effect, source));
            assert(all[k] == rest[0]);
            assert(effects@ =~= all.subrange(all.len() - effects@.len(), all.len() as int));
            assert forall|j: int| 0 <= j < effects@.len() implies
                (#[trigger] effects@[j]).1 == (EffectSource::Commander { owner: p }) && effect_wf(effects@[j].0) by {
                assert(effects@[j] == rest[j + 1]);
            }
        }
        let ghost before = effect_queue.pending();
        effect_queue.push(effect, source);
        proof {
            assert(pendings_of(all.subrange(0, k + 1)) =~= pendings_of(all.subrange(0, k)).push(PendingEffect { effect, source }));
        }
    }
    proof {
        assert(all.subrange(0, all.len() as int) =~= all);
        assert(effect_queue.pending().subrange(0, q0.len() as int) =~= q0);
    }
}

/// How many entries the StartOfTurn abilities of the supports `ss` queue.
pub open spec fn supports_start_count(ss: Seq<Support>, db: CardDatabase, owner: PlayerId) -> int
    decreases ss.len(),
{
    if ss.len() == 0 {
        0
    } else {
        supports_start_count(ss.drop_last(), db, owner)
            + support_abilities_count(support_card_abilities(db, ss.last().card_id), Trigger::StartOfTurn, owner)
    }
}

proof fn lemma_supports_start_len(ss: Seq<Support>, db: CardDatabase, owner: PlayerId, out: Seq<PendingEffect>)
    requires
        supports_start_queued(ss, db, owner, out),
    ensures
        out.len() == supports_start_count(ss, db, owner),
    decreases ss.len(),
{
    if ss.len() > 0 {
        let abs = support_card_abilities(db, ss.last().card_id);
        let k = out.len() - support_abilities_count(abs, Trigger::StartOfTurn, owner);
        lemma_supports_start_len(ss.drop_last(), db, owner, out.subrange(0, k));
        lemma_support_abilities_len(abs, Trigger::StartOfTurn, out.subrange(k, out.len() as int), owner, ss.last().slot);
    }
}

/// A turn started from `(s0, q0)` gives `(s1, q1)` before resolution: the
/// turn counter is up by one, the active player's turn has begun (essence,
/// action points, insight, readied creatures, one card drawn), and queued
/// after what was there are the StartOfTurn abilities of the player's
/// supports and then the commander's StartOfTurn effects.
pub open spec fn turn_started(s0: GameState, q0: EffectQueue, db: CardDatabase, s1: GameState, q1: EffectQueue) -> bool {
    let p = s0.active_player;
    let q = q1.pending();
    let n0 = q0.pending().len() as int;
    let n1 = n0 + supports_start_count(s1.players[p.0 as int].supports@, db, p);
    &&& turn_begun(GameState { current_turn: (s0.current_turn + 1) as u16, ..s0 }, s1, p)
    &&& q1.wf()
    &&& q1.deaths() == q0.deaths()
    &&& q1.result() == q0.result()
    &&& n0 <= n1 <= q.len()
    &&& q.subrange(0, n0) == q0.pending()
    &&& supports_start_queued(s1.players[p.0 as int].supports@, db, p, q.subrange(n0, n1))
    &&& exists|r: Seq<(Effect, EffectSource)>| #[trigger] commander_fires(s1, p, CommanderTrigger::StartOfTurn, db, None, r)
            && q.subrange(n1, q.len() as int) == pendings_of(r)
}

/// What starting a turn from `(s0, q0)` gives: past the turn limit, the
/// game ends by tiebreaker (queue untouched); otherwise the turn starts as
/// `turn_started` says and the queue is resolved.
pub open spec fn turn_start_outcome(s0: GameState, q0: EffectQueue, db: CardDatabase, s: GameState, q: EffectQueue) -> bool {
    if s0.current_turn + 1 > game::TURN_LIMIT {
        &&& ended_with(GameState { current_turn: (s0.current_turn + 1) as u16, ..s0 }, s,
                GameResult::Win { winner: tiebreak_winner(s0), reason: WinReason::TurnLimitTiebreaker })
        &&& q == q0
    } else {
        exists|s1: GameState, q1: EffectQueue| #[trigger] turn_started(s0, q0, db, s1, q1) && resolved(s1, q1, s, q)
    }
}

/// Start the active player's turn: the turn counter advances and, past the
/// turn limit, the game ends by tiebreaker; otherwise the turn begins, the
/// StartOfTurn abilities of supports and commander are queued, and the
/// queue is resolved.
pub fn start_turn(state: &mut GameState, card_db: &CardDatabase, effect_queue: &mut EffectQueue)
    requires
        old(state).wf(),
        old(effect_queue).wf(),
        old(state).current_turn < u16::MAX,
    ensures
        final(state).wf(),
        final(effect_queue).wf(),
        final(state).current_turn == old(state).current_turn + 1,
        final(state).active_player == old(state).active_player,
        final(state).game_mode == old(state).game_mode,
        old(state).current_turn + 1 > game::TURN_LIMIT ==> ended_with(
            GameState { current_turn: (old(state).current_turn + 1) as u16, ..*old(state) }, *final(state),
            GameResult::Win { winner: tiebreak_winner(*old(state)), reason: WinReason::TurnLimitTiebreaker }),
        turn_start_outcome(*old(state), *old(effect_queue), *card_db, *final(state), *final(effect_queue)),
{
    let ghost s0 = *state;
    let ghost e0 = *effect_queue;
    state.current_turn = state.current_turn + 1;
    if state.current_turn > game::TURN_LIMIT {
        check_turn_limit_victory(state);
        proof { assert(turn_start_outcome(s0, e0, *card_db, *state, *effect_queue)); }
        return;
    }
    let p = state.active_player;
    begin_turn(state, p);
    let ghost s1 = *state;
    queue_support_start_of_turn_triggers(state, card_db, effect_queue, p);
    let ghost m1 = effect_queue.pending();
    proof {
        lemma_supports_start_len(s1.players[p.0 as int].supports@, *card_db, p,
            m1.subrange(e0.pending().len() as int, m1.len() as int));
    }
    queue_commander_start_of_turn_triggers(state, card_db, effect_queue, p);
    proof {
        let q = effect_queue.pending();
        let n0 = e0.pending().len() as int;
        let n1 = m1.len() as int;
        let r = choose|r: Seq<(Effect, EffectSource)>| #[trigger] commander_fires(*state, p, CommanderTrigger::StartOfTurn, *card_db, None, r)
            && effect_queue.pending() == m1 + pendings_of(r);
        assert(q.subrange(0, n1) =~= m1);
        assert(q.subrange(n1, q.len() as int) =~= pendings_of(r));
        assert(q.subrange(0, n0) =~= m1.subrange(0, n0));
        assert(q.subrange(n0, n1) =~= m1.subrange(n0, n1));
        assert(turn_started(s0, e0, *card_db, s1, *effect_queue));
    }
    let ghost qm = *effect_queue;
    effect_queue.process_all(state, card_db);
    proof {
        assert(resolved(s1, qm, *state, *effect_queue));
        assert(turn_start_outcome(s0, e0, *card_db, *state, *effect_queue));
    }
}

/// The supports of `ss` not at `slot`, in order.
pub open spec fn supports_without_slot(ss: Seq<Support>, slot: Slot) -> Seq<Support>
    decreases ss.len(),
{
    if ss.len() == 0 {
        ss
    } else {
        let rest = supports_without_slot(ss.drop_last(), slot);
        if ss.last().slot != slot { rest.push(ss.last()) } else { rest }
    }
}

/// Each support kept is one of the supports given, at or before the same place.
proof fn lemma_without_slot_from(ss: Seq<Support>, slot: Slot)
    ensures
        supports_without_slot(ss, slot).len() <= ss.len(),
        forall|j: int| 0 <= j < supports_without_slot(ss, slot).len() ==>
            exists|m: int| 0 <= m < ss.len() && ss[m] == #[trigger] supports_without_slot(ss, slot)[j],
    decreases ss.len(),
{
    if ss.len() > 0 {
        let rest = supports_without_slot(ss.drop_last(), slot);
        lemma_without_slot_from(ss.drop_last(), slot);
        let r = supports_without_slot(ss, slot);
        assert forall|j: int| 0 <= j < r.len() implies exists|m: int| 0 <= m < ss.len() && ss[m] == #[trigger] r[j] by {
            if j < rest.len() {
                let m = choose|m: int| 0 <= m < ss.drop_last().len() && ss.drop_last()[m] == rest[j];
                assert(ss[m] == r[j]);
            } else {
                assert(ss[ss.len() - 1] == r[j]);
            }
        }
    }
}

/// Removing the supports of a slot keeps the supports on distinct slots of the two.
pub proof fn lemma_supports_ok_without_slot(ss: Seq<Support>, slot: Slot)
    requires
        crate::gamecore::state::supports_ok(ss),
    ensures
        crate::gamecore::state::supports_ok(supports_without_slot(ss, slot)),
    decreases ss.len(),
{
    if ss.len() > 0 {
        let d = ss.drop_last();
        assert(crate::gamecore::state::supports_ok(d)) by {
            assert forall|j: int, k: int| 0 <= j < k < d.len() implies (#[trigger] d[j]).slot != (#[trigger] d[k]).slot by {
                assert(d[j] == ss[j] && d[k] == ss[k]);
            }
            assert forall|j: int| 0 <= j < d.len() implies (#[trigger] d[j]).slot.0 < 2 by {
                assert(d[j] == ss[j]);
            }
        }
        lemma_supports_ok_without_slot(d, slot);
        lemma_without_slot_from(d, slot);
        let rest = supports_without_slot(d, slot);
        let r = supports_without_slot(ss, slot);
        if ss.last().slot != slot {
            assert forall|j: int, k: int| 0 <= j < k < r.len() implies (#[trigger] r[j]).slot != (#[trigger] r[k]).slot by {
                if k == rest.len() {
                    let m = choose|m: int| 0 <= m < d.len() && d[m] == #[trigger] rest[j];
                    assert(d[m] == ss[m]);
                    assert(ss[m].slot != ss[ss.len() - 1].slot);
                } else {
                    assert(r[j] == rest[j] && r[k] == rest[k]);
                }
            }
            assert forall|j: int| 0 <= j < r.len() implies (#[trigger] r[j]).slot.0 < 2 by {
                if j < rest.len() {
                    assert(r[j] == rest[j]);
                } else {
                    assert(r[j] == ss[ss.len() - 1]);
                }
            }
        }
    }
}

/// Remove the supports at `slot`, keeping the others in order.
pub fn remove_supports_at(ss: &mut Vec<Support>, slot: Slot)
    ensures
        final(ss)@ == supports_without_slot(old(ss)@, slot),
{
    let ghost orig = ss@;
    let mut kept: Vec<Support> = Vec::new();
    let mut i: usize = 0;
    while i < ss.len()
        invariant
            i <= orig.len(),
            ss@ == orig,
            kept@ == supports_without_slot(orig.subrange(0, i as int), slot),
        decreases orig.len() - i,
    {
        proof {
            assert(orig.subrange(0, i + 1).drop_last() =~= orig.subrange(0, i as int));
        }
        if ss[i].slot != slot {
            kept.push(ss[i]);
        }
        i = i + 1;
    }
    proof { assert(orig.subrange(0, orig.len() as int) =~= orig); }
    *ss = kept;
}

/// A support after the end of its owner's turn: one durability less (not below 0).
pub open spec fn worn(s: Support) -> Support {
    Support { current_durability: if s.current_durability > 0 { (s.current_durability - 1) as u8 } else { 0 }, ..s }
}

/// The slots and cards of the supports that are worn out, in order.
pub open spec fn worn_out(ss: Seq<Support>) -> Seq<(Slot, CardId)>
    decreases ss.len(),
{
    if ss.len() == 0 {
        Seq::empty()
    } else {
        let rest = worn_out(ss.drop_last());
        if worn(ss.last()).current_durability == 0 { rest.push((ss.last().slot, ss.last().card_id)) } else { rest }
    }
}

/// Wear every support down by one; returns the ones worn out.
pub fn wear_supports(ss: &mut Vec<Support>) -> (r: Vec<(Slot, CardId)>)
    ensures
        final(ss)@ == Seq::new(old(ss)@.len(), |i: int| worn(old(ss)@[i])),
        r@ == worn_out(old(ss)@),
{
    let ghost orig = ss@;
    let mut out: Vec<(Slot, CardId)> = Vec::new();
    let mut i: usize = 0;
    while i < ss.len()
        invariant
            i <= ss@.len(),
            ss@.len() == orig.len(),
            forall|j: int| 0 <= j < i ==> #[trigger] ss@[j] == worn(orig[j]),
            forall|j: int| i <= j < ss@.len() ==> #[trigger] ss@[j] == orig[j],
            out@ == worn_out(orig.subrange(0, i as int)),
        decreases ss@.len() - i,
    {
        proof {
            assert(orig.subrange(0, i + 1).drop_last() =~= orig.subrange(0, i as int));
        }
        let d = ss[i].current_durability;
        let nd: u8 = if d > 0 { d - 1 } else { 0 };
        ss[i].current_durability = nd;
        if nd == 0 {
            out.push((ss[i].slot, ss[i].card_id));
        }
        i = i + 1;
    }
    proof {
        assert(orig.subrange(0, orig.len() as int) =~= orig);
        assert(ss@ =~= Seq::new(orig.len(), |i: int| worn(orig[i])));
    }
    out
}

/// The creatures of a board without Ephemeral, in order.
pub open spec fn without_ephemeral(cs: Seq<Creature>) -> Seq<Creature>
    decreases cs.len(),
{
    if cs.len() == 0 {
        cs
    } else {
        let rest = without_ephemeral(cs.drop_last());
        if !cs.last().keywords.spec_has(Keywords::EPHEMERAL) { rest.push(cs.last()) } else { rest }
    }
}

/// What is left of a board without its Ephemeral creatures comes from the
/// board, and stays well formed.
proof fn lemma_without_ephemeral_ok(cs: Seq<Creature>)
    ensures
        forall|j: int| 0 <= j < without_ephemeral(cs).len() ==> cs.contains(#[trigger] without_ephemeral(cs)[j]),
        board_ok(cs) ==> board_ok(without_ephemeral(cs)),
    decreases cs.len(),
{
    if cs.len() > 0 {
        let init = cs.drop_last();
        lemma_without_ephemeral_ok(init);
        let rest = without_ephemeral(init);
        assert forall|j: int| 0 <= j < without_ephemeral(cs).len() implies cs.contains(#[trigger] without_ephemeral(cs)[j]) by {
            if j < rest.len() {
                assert(without_ephemeral(cs)[j] == rest[j]);
                let k = choose|k: int| 0 <= k < init.len() && init[k] == rest[j];
                assert(cs[k] == init[k]);
            } else {
                assert(cs[cs.len() - 1] == cs.last());
            }
        }
        if board_ok(cs) {
            assert(board_ok(init)) by {
                assert forall|j: int, l: int| 0 <= j < l < init.len() implies (#[trigger] init[j]).slot != (#[trigger] init[l]).slot by {
                    assert(cs[j].slot != cs[l].slot);
                }
                assert forall|j: int| 0 <= j < init.len() implies (#[trigger] init[j]).slot.0 < 5 by {
                    assert(cs[j].slot.0 < 5);
                }
            }
            if !cs.last().keywords.spec_has(Keywords::EPHEMERAL) {
                let t = rest.push(cs.last());
                assert forall|j: int, l: int| 0 <= j < l < t.len() implies (#[trigger] t[j]).slot != (#[trigger] t[l]).slot by {
                    if l == rest.len() {
                        let k = choose|k: int| 0 <= k < init.len() && init[k] == rest[j];
                        assert(cs[k] == init[k]);
                        assert(cs[k].slot != cs[cs.len() - 1].slot);
                    } else {
                        assert(t[j] == rest[j] && t[l] == rest[l]);
                    }
                }
                assert forall|j: int| 0 <= j < t.len() implies (#[trigger] t[j]).slot.0 < 5 by {
                    if j < rest.len() {
                        let k = choose|k: int| 0 <= k < init.len() && init[k] == rest[j];
                        assert(cs[k] == init[k]);
                    } else {
                        assert(cs[cs.len() - 1].slot.0 < 5);
                    }
                }
            }
        }
    }
}

/// Remove the Ephemeral creatures of a board.
fn remove_ephemeral(cs: &mut Vec<Creature>)
    ensures
        final(cs)@ == without_ephemeral(old(cs)@),
{
    let ghost orig = cs@;
    let ghost mut k: int = 0;
    let mut i: usize = 0;
    while i < cs.len()
        invariant
            0 <= k <= orig.len(),
            cs@ == without_ephemeral(orig.subrange(0, k)) + orig.subrange(k, orig.len() as int),
            i == without_ephemeral(orig.subrange(0, k)).len(),
            i <= cs@.len(),
            (i == cs@.len()) ==> k == orig.len(),
        decreases orig.len() - k,
    {
        let ghost kept = without_ephemeral(orig.subrange(0, k));
        proof {
            assert(orig.subrange(0, k + 1).drop_last() =~= orig.subrange(0, k));
            assert(orig.subrange(0, k + 1).last() == orig[k]);
            assert(cs@[i as int] == orig[k]);
        }
        if cs[i].keywords.has_ephemeral() {
            let _removed = cs.remove(i);
            proof {
                assert(cs@ =~= kept + orig.subrange(k + 1, orig.len() as int));
                k = k + 1;
            }
        } else {
            proof {
                assert(without_ephemeral(orig.subrange(0, k + 1)) =~= kept.push(orig[k]));
                assert(cs@ =~= kept.push(orig[k]) + orig.subrange(k + 1, orig.len() as int));
                k = k + 1;
            }
            i = i + 1;
        }
    }
    proof {
        assert(orig.subrange(k, orig.len() as int) =~= Seq::<Creature>::empty());
        assert(orig.subrange(0, k) =~= orig);
        assert(cs@ =~= without_ephemeral(orig));
    }
}

/// The slots of the Ephemeral creatures of a board, in board order.
pub open spec fn ephemeral_slots(cs: Seq<Creature>) -> Seq<Slot>
    decreases cs.len(),
{
    if cs.len() == 0 {
        Seq::empty()
    } else {
        let rest = ephemeral_slots(cs.drop_last());
        if cs.last().keywords.spec_has(Keywords::EPHEMERAL) { rest.push(cs.last().slot) } else { rest }
    }
}

/// Without Ephemeral creatures, a board stays as it is.
proof fn lemma_no_ephemeral(cs: Seq<Creature>)
    requires
        ephemeral_slots(cs).len() == 0,
    ensures
        without_ephemeral(cs) == cs,
    decreases cs.len(),
{
    if cs.len() > 0 {
        lemma_no_ephemeral(cs.drop_last());
        assert(cs.drop_last().push(cs.last()) =~= cs);
    }
}

/// Whether definition `d` gives an effect aimed at a target.
pub open spec fn targeted_converts(d: EffectDefinition, target: EffectTarget, owner: PlayerId) -> bool {
    d is Transform || d is SummonToken || targeted_effect(d, target, owner) is Some
}

/// `out` is what queuing the definitions `defs` aimed at `target` from
/// `source` gives, in order: one entry per definition that converts.
pub open spec fn targeted_defs_queued(defs: Seq<EffectDefinition>, target: EffectTarget, source: EffectSource,
    out: Seq<PendingEffect>, owner: PlayerId) -> bool
    decreases defs.len(),
{
    if defs.len() == 0 {
        out.len() == 0
    } else {
        let d = defs.last();
        if targeted_converts(d, target, owner) {
            &&& out.len() > 0
            &&& out.last().source == source
            &&& targeted_converted(d, Some(out.last().effect), target, owner)
            &&& targeted_defs_queued(defs.drop_last(), target, source, out.drop_last(), owner)
        } else {
            targeted_defs_queued(defs.drop_last(), target, source, out, owner)
        }
    }
}

/// How many of the definitions give an effect aimed at `target`.
pub open spec fn targeted_count(defs: Seq<EffectDefinition>, target: EffectTarget, owner: PlayerId) -> int
    decreases defs.len(),
{
    if defs.len() == 0 {
        0
    } else {
        targeted_count(defs.drop_last(), target, owner) + if targeted_converts(defs.last(), target, owner) { 1int } else { 0int }
    }
}

/// How many entries the OnDeath abilities of the creature at (`owner`, `slot`) queue.
pub open spec fn death_count(abs: Seq<AbilityDefinition>, owner: PlayerId, slot: Slot) -> int
    decreases abs.len(),
{
    if abs.len() == 0 {
        0
    } else {
        death_count(abs.drop_last(), owner, slot) + if abs.last().trigger == Trigger::OnDeath {
            targeted_count(abs.last().effects@, EffectTarget::Creature { owner, slot }, owner)
        } else {
            0
        }
    }
}

/// `out` is what queuing the OnDeath abilities `abs` of the creature at
/// (`owner`, `slot`), aimed at itself, gives.
pub open spec fn death_abilities_queued(abs: Seq<AbilityDefinition>, out: Seq<PendingEffect>, owner: PlayerId, slot: Slot) -> bool
    decreases abs.len(),
{
    if abs.len() == 0 {
        out.len() == 0
    } else {
        let a = abs.last();
        if a.trigger == Trigger::OnDeath {
            let target = EffectTarget::Creature { owner, slot };
            let k = out.len() - targeted_count(a.effects@, target, owner);
            &&& 0 <= k
            &&& death_abilities_queued(abs.drop_last(), out.subrange(0, k), owner, slot)
            &&& targeted_defs_queued(a.effects@, target, EffectSource::Creature { owner, slot }, out.subrange(k, out.len() as int), owner)
        } else {
            death_abilities_queued(abs.drop_last(), out, owner, slot)
        }
    }
}

/// The creature abilities of the card of the first creature at `s` (none
/// when the slot is empty, the card unknown or not a creature).
pub open spec fn abilities_at(cs: Seq<Creature>, s: Slot, db: CardDatabase) -> Seq<AbilityDefinition> {
    let k = slot_index(cs, s);
    if k < 0 {
        Seq::empty()
    } else {
        match db.spec_get(cs[k].card_id) {
            Some(def) => match def.card_type {
                CardType::Creature { abilities, .. } => abilities@,
                _ => Seq::empty(),
            },
            None => Seq::empty(),
        }
    }
}

/// `out` is what queuing the OnDeath abilities of the creatures at the
/// slots `slots` of board `cs` gives, slot by slot.
pub open spec fn ephemeral_queued(slots: Seq<Slot>, cs: Seq<Creature>, db: CardDatabase, owner: PlayerId, out: Seq<PendingEffect>) -> bool
    decreases slots.len(),
{
    if slots.len() == 0 {
        out.len() == 0
    } else {
        let s = slots.last();
        let abs = abilities_at(cs, s, db);
        let k = out.len() - death_count(abs, owner, s);
        &&& 0 <= k
        &&& ephemeral_queued(slots.drop_last(), cs, db, owner, out.subrange(0, k))
        &&& death_abilities_queued(abs, out.subrange(k, out.len() as int), owner, s)
    }
}

/// Ephemeral deaths of player `p` from `(s0, q0)` give `(s1, q1)` before
/// resolution: the Ephemeral creatures leave the board and the OnDeath
/// abilities of each (aimed at itself) are queued after what was there.
pub open spec fn ephemeral_died(s0: GameState, q0: EffectQueue, db: CardDatabase, p: PlayerId, s1: GameState, q1: EffectQueue) -> bool {
    let i = p.0 as int;
    let cs = s0.players[i].creatures@;
    &&& s1 == (GameState { players: s1.players, ..s0 })
    &&& s1.players[p.spec_opponent().0 as int] == s0.players[p.spec_opponent().0 as int]
    &&& s1.players[i] == (PlayerState { creatures: s1.players[i].creatures, ..s0.players[i] })
    &&& s1.players[i].creatures@ == without_ephemeral(cs)
    &&& q1.wf()
    &&& q1.deaths() == q0.deaths()
    &&& q1.result() == q0.result()
    &&& q1.pending().len() >= q0.pending().len()
    &&& q1.pending().subrange(0, q0.pending().len() as int) == q0.pending()
    &&& ephemeral_queued(ephemeral_slots(cs), cs, db, p,
            q1.pending().subrange(q0.pending().len() as int, q1.pending().len() as int))
}

proof fn lemma_targeted_len(defs: Seq<EffectDefinition>, target: EffectTarget, source: EffectSource, out: Seq<PendingEffect>, owner: PlayerId)
    requires
        targeted_defs_queued(defs, target, source, out, owner),
    ensures
        out.len() == targeted_count(defs, target, owner),
    decreases defs.len(),
{
    if defs.len() > 0 {
        if targeted_converts(defs.last(), target, owner) {
            lemma_targeted_len(defs.drop_last(), target, source, out.drop_last(), owner);
        } else {
            lemma_targeted_len(defs.drop_last(), target, source, out, owner);
        }
    }
}

proof fn lemma_death_len(abs: Seq<AbilityDefinition>, out: Seq<PendingEffect>, owner: PlayerId, slot: Slot)
    requires
        death_abilities_queued(abs, out, owner, slot),
    ensures
        out.len() == death_count(abs, owner, slot),
    decreases abs.len(),
{
    if abs.len() > 0 {
        let a = abs.last();
        if a.trigger == Trigger::OnDeath {
            let target = EffectTarget::Creature { owner, slot };
            let k = out.len() - targeted_count(a.effects@, target, owner);
            lemma_death_len(abs.drop_last(), out.subrange(0, k), owner, slot);
            lemma_targeted_len(a.effects@, target, EffectSource::Creature { owner, slot }, out.subrange(k, out.len() as int), owner);
        } else {
            lemma_death_len(abs.drop_last(), out, owner, slot);
        }
    }
}

proof fn lemma_targeted_step(defs: Seq<EffectDefinition>, target: EffectTarget, source: EffectSource, out: Seq<PendingEffect>,
    owner: PlayerId, d: EffectDefinition, r: Option<Effect>)
    requires
        targeted_defs_queued(defs, target, source, out, owner),
        targeted_converted(d, r, target, owner),
    ensures
        targeted_defs_queued(defs.push(d), target, source,
            match r { Some(e) => out.push(PendingEffect { effect: e, source }), None => out }, owner),
{
    assert(defs.push(d).drop_last() =~= defs);
    if let Some(e) = r {
        assert(out.push(PendingEffect { effect: e, source }).drop_last() =~= out);
    }
}

/// Ephemeral creatures die at the end of their owner's turn: their OnDeath
/// abilities are queued (aimed at themselves), they leave the board, and the
/// queue is resolved.
fn process_ephemeral_deaths(state: &mut GameState, card_db: &CardDatabase, effect_queue: &mut EffectQueue, p: PlayerId)
    requires
        p.valid(),
        old(state).wf(),
        old(effect_queue).wf(),
    ensures
        final(state).wf(),
        final(effect_queue).wf(),
        same_turn(*old(state), *final(state)),
        exists|s1: GameState, q1: EffectQueue| #[trigger] ephemeral_died(*old(state), *old(effect_queue), *card_db, p, s1, q1)
            && if ephemeral_slots(old(state).players[p.0 as int].creatures@).len() == 0 {
                *final(state) == s1 && *final(effect_queue) == q1
            } else {
                resolved(s1, q1, *final(state), *final(effect_queue))
            },
{
    let ghost s0 = *state;
    let ghost q0 = effect_queue.pending();
    let ghost cs = state.players[p.0 as int].creatures@;
    let i = p.index();
    let mut slots: Vec<Slot> = Vec::new();
    let mut k: usize = 0;
    while k < state.players[i].creatures.len()
        invariant
            i == p.0,
            p.valid(),
            *state == s0,
            cs == state.players[i as int].creatures@,
            k <= state.players[i as int].creatures@.len(),
            slots@ == ephemeral_slots(cs.subrange(0, k as int)),
        decreases state.players[i as int].creatures@.len() - k,
    {
        proof {
            assert(cs.subrange(0, k + 1).drop_last() =~= cs.subrange(0, k as int));
            assert(cs.subrange(0, k + 1).last() == cs[k as int]);
        }
        if state.players[i].creatures[k].keywords.has_ephemeral() {
            slots.push(state.players[i].creatures[k].slot);
        }
        k = k + 1;
    }
    proof { assert(cs.subrange(0, cs.len() as int) =~= cs); }
    if slots.len() == 0 {
        proof {
            lemma_no_ephemeral(cs);
            assert(q0.subrange(0, q0.len() as int) =~= q0);
            assert(q0.subrange(q0.len() as int, q0.len() as int) =~= Seq::<PendingEffect>::empty());
            assert(state.players[i as int] == (PlayerState { creatures: state.players[i as int].creatures, ..s0.players[i as int] }));
            assert(ephemeral_died(s0, *effect_queue, *card_db, p, *state, *effect_queue));
        }
        return;
    }
    proof { assert(q0.subrange(q0.len() as int, q0.len() as int) =~= Seq::<PendingEffect>::empty()); }
    let mut s: usize = 0;
    while s < slots.len()
        invariant
            p.valid(),
            i == p.0,
            *state == s0,
            cs == state.players[i as int].creatures@,
            s <= slots@.len(),
            effect_queue.wf(),
            effect_queue.deaths() == old(effect_queue).deaths(),
            effect_queue.result() == old(effect_queue).result(),
            q0 == old(effect_queue).pending(),
            effect_queue.pending().len() >= q0.len(),
            effect_queue.pending().subrange(0, q0.len() as int) == q0,
            ephemeral_queued(slots@.subrange(0, s as int), cs, *card_db, p,
                effect_queue.pending().subrange(q0.len() as int, effect_queue.pending().len() as int)),
        decreases slots@.len() - s,
    {
        let slot = slots[s];
        let ghost m0 = effect_queue.pending();
        let ghost sl1 = slots@.subrange(0, s + 1);
        let ghost abs = abilities_at(cs, slot, *card_db);
        proof {
            assert(sl1.drop_last() =~= slots@.subrange(0, s as int));
            assert(sl1.last() == slot);
            assert(m0.subrange(m0.len() as int, m0.len() as int) =~= Seq::<PendingEffect>::empty());
        }
        if let Some(idx) = find_creature_index(&state.players[i].creatures, slot) {
            let card_id = state.players[i].creatures[idx].card_id;
            if let Some(card_def) = card_db.get(card_id) {
                if let CardType::Creature { abilities, .. } = &card_def.card_type {
                    let source = EffectSource::Creature { owner: p, slot };
                    let target = EffectTarget::Creature { owner: p, slot };
                    let mut a: usize = 0;
                    while a < abilities.len()
                        invariant
                            p.valid(),
                            a <= abilities@.len(),
                            abs == abilities@,
                            source == (EffectSource::Creature { owner: p, slot }),
                            target == (EffectTarget::Creature { owner: p, slot }),
                            effect_queue.wf(),
                            effect_queue.deaths() == old(effect_queue).deaths(),
                            effect_queue.result() == old(effect_queue).result(),
                            effect_queue.pending().len() >= m0.len(),
                            effect_queue.pending().subrange(0, m0.len() as int) == m0,
                            death_abilities_queued(abilities@.subrange(0, a as int),
                                effect_queue.pending().subrange(m0.len() as int, effect_queue.pending().len() as int), p, slot),
                        decreases abilities@.len() - a,
                    {
                        let ghost m1 = effect_queue.pending();
                        let ghost t1 = abilities@.subrange(0, a + 1);
                        proof { assert(t1.drop_last() =~= abilities@.subrange(0, a as int)); }
                        if abilities[a].trigger == Trigger::OnDeath {
                            let effects = &abilities[a].effects;
                            proof { assert(m1.subrange(m1.len() as int, m1.len() as int) =~= Seq::<PendingEffect>::empty()); }
                            let mut e: usize = 0;
                            while e < effects.len()
                                invariant
                                    p.valid(),
                                    e <= effects@.len(),
                                    source == (EffectSource::Creature { owner: p, slot }),
                                    target == (EffectTarget::Creature { owner: p, slot }),
                                    effect_queue.wf(),
                                    effect_queue.deaths() == old(effect_queue).deaths(),
                                    effect_queue.result() == old(effect_queue).result(),
                                    effect_queue.pending().len() >= m1.len(),
                                    effect_queue.pending().subrange(0, m1.len() as int) == m1,
                                    targeted_defs_queued(effects@.subrange(0, e as int), target, source,
                                        effect_queue.pending().subrange(m1.len() as int, effect_queue.pending().len() as int), p),
                                decreases effects@.len() - e,
                            {
                                let ghost before = effect_queue.pending();
                                let r = effect_def_to_effect_with_target(&effects[e], target, p);
                                proof {
                                    lemma_targeted_step(effects@.subrange(0, e as int), target, source,
                                        before.subrange(m1.len() as int, before.len() as int), p, effects@[e as int], r);
                                    assert(effects@.subrange(0, e as int).push(effects@[e as int]) =~= effects@.subrange(0, e + 1));
                                }
                                if let Some(effect) = r {
                                    effect_queue.push(effect, source);
                                    proof {
                                        assert(effect_queue.pending().subrange(0, m1.len() as int) =~= before.subrange(0, m1.len() as int));
                                        assert(effect_queue.pending().subrange(m1.len() as int, effect_queue.pending().len() as int)
                                            =~= before.subrange(m1.len() as int, before.len() as int).push(PendingEffect { effect, source }));
                                    }
                                }
                                e = e + 1;
                            }
                            proof {
                                let q = effect_queue.pending();
                                assert(effects@.subrange(0, effects@.len() as int) =~= effects@);
                                lemma_targeted_len(effects@, target, source, q.subrange(m1.len() as int, q.len() as int), p);
                                lemma_split(m0, m1, q);
                                assert(q.subrange(0, m0.len() as int) =~= m0);
                                assert(death_abilities_queued(t1, q.subrange(m0.len() as int, q.len() as int), p, slot));
                            }
                        }
                        a = a + 1;
                    }
                    proof { assert(abilities@.subrange(0, abilities@.len() as int) =~= abilities@); }
                }
            }
        }
        proof {
            let q = effect_queue.pending();
            lemma_death_len(abs, q.subrange(m0.len() as int, q.len() as int), p, slot);
            assert(q.subrange(0, m0.len() as int) =~= m0);
            lemma_split(q0, m0, q);
            assert(q.subrange(0, q0.len() as int) =~= q0);
            assert(ephemeral_queued(sl1, cs, *card_db, p, q.subrange(q0.len() as int, q.len() as int)));
        }
        s = s + 1;
    }
    proof { assert(slots@.subrange(0, slots@.len() as int) =~= slots@); }
    let ghost before = state.players[i as int].creatures@;
    remove_ephemeral(&mut state.players[i].creatures);
    proof { lemma_without_ephemeral_ok(before); }
    let ghost s1 = *state;
    let ghost qm = *effect_queue;
    proof {
        assert(ephemeral_died(s0, *old(effect_queue), *card_db, p, s1, qm));
    }
    effect_queue.process_all(state, card_db);
    proof {
        assert(resolved(s1, qm, *state, *effect_queue));
    }
}

/// Reset the Frenzy stacks of every creature of a board.
fn reset_frenzy(cs: &mut Vec<Creature>)
    ensures
        final(cs)@ == Seq::new(old(cs)@.len(), |j: int| (Creature { frenzy_stacks: 0, ..old(cs)@[j] })),
{
    let ghost orig = cs@;
    let mut i: usize = 0;
    while i < cs.len()
        invariant
            i <= cs@.len(),
            cs@.len() == orig.len(),
            forall|j: int| 0 <= j < i ==> #[trigger] cs@[j] == (Creature { frenzy_stacks: 0, ..orig[j] }),
            forall|j: int| i <= j < cs@.len() ==> #[trigger] cs@[j] == orig[j],
        decreases cs@.len() - i,
    {
        cs[i].frenzy_stacks = 0;
        i = i + 1;
    }
    proof {
        assert(cs@ =~= Seq::new(orig.len(), |j: int| (Creature { frenzy_stacks: 0, ..orig[j] })));
    }
}

/// The supports left after the worn-out ones `removed` leave, in order.
pub open spec fn supports_after(ss: Seq<Support>, removed: Seq<(Slot, CardId)>) -> Seq<Support>
    decreases removed.len(),
{
    if removed.len() == 0 { ss } else { supports_without_slot(supports_after(ss, removed.drop_last()), removed.last().0) }
}

/// The creatures after the passives of the supports `removed` are taken off, in order.
pub open spec fn creatures_after(cs: Seq<Creature>, db: CardDatabase, removed: Seq<(Slot, CardId)>) -> Seq<Creature>
    decreases removed.len(),
{
    if removed.len() == 0 {
        cs
    } else {
        let prev = creatures_after(cs, db, removed.drop_last());
        Seq::new(prev.len(), |j: int| without_modifiers(prev[j], support_modifiers(db, removed.last().1)))
    }
}

/// The end of player `p`'s turn up to the start of the next: from `s0`,
/// supports wear down and the worn-out ones leave with their passives
/// (`sa`); Ephemeral creatures die (`s1`, `q1` before resolution; `sb`, `qb`
/// after); Frenzy resets and the opponent becomes active (`sc`).
pub open spec fn turn_ended(s0: GameState, q0: EffectQueue, db: CardDatabase, sa: GameState, s1: GameState, q1: EffectQueue,
    sb: GameState, qb: EffectQueue, sc: GameState) -> bool
{
    let p = s0.active_player;
    let i = p.0 as int;
    let o = p.spec_opponent().0 as int;
    let w = Seq::new(s0.players[i].supports@.len(), |j: int| worn(s0.players[i].supports@[j]));
    let gone = worn_out(s0.players[i].supports@);
    &&& sa == (GameState { players: sa.players, ..s0 })
    &&& sa.players[o] == s0.players[o]
    &&& sa.players[i] == (PlayerState { supports: sa.players[i].supports, creatures: sa.players[i].creatures, ..s0.players[i] })
    &&& sa.players[i].supports@ == supports_after(w, gone)
    &&& sa.players[i].creatures@ == creatures_after(s0.players[i].creatures@, db, gone)
    &&& ephemeral_died(sa, q0, db, p, s1, q1)
    &&& if ephemeral_slots(sa.players[i].creatures@).len() == 0 { sb == s1 && qb == q1 } else { resolved(s1, q1, sb, qb) }
    &&& sc == (GameState { players: sc.players, active_player: p.spec_opponent(), ..sb })
    &&& sc.players[o] == sb.players[o]
    &&& sc.players[i] == (PlayerState { creatures: sc.players[i].creatures, ..sb.players[i] })
    &&& sc.players[i].creatures@ == Seq::new(sb.players[i].creatures@.len(),
            |j: int| (Creature { frenzy_stacks: 0, ..sb.players[i].creatures@[j] }))
}

/// End the active player's turn: supports wear down and the worn-out ones
/// leave (taking their passives with them), Ephemeral creatures die, Frenzy
/// resets, and the opponent's turn starts.
pub fn end_turn(state: &mut GameState, card_db: &CardDatabase, effect_queue: &mut EffectQueue)
    requires
        old(state).wf(),
        old(effect_queue).wf(),
        old(state).current_turn < u16::MAX,
    ensures
        final(state).wf(),
        final(effect_queue).wf(),
        final(state).active_player == old(state).active_player.spec_opponent(),
        final(state).current_turn == old(state).current_turn + 1,
        final(state).game_mode == old(state).game_mode,
        exists|sa: GameState, s1: GameState, q1: EffectQueue, sb: GameState, qb: EffectQueue, sc: GameState|
            #[trigger] turn_ended(*old(state), *old(effect_queue), *card_db, sa, s1, q1, sb, qb, sc)
            && turn_start_outcome(sc, qb, *card_db, *final(state), *final(effect_queue)),
{
    let ghost s0 = *state;
    let ghost e0 = *effect_queue;
    let p = state.active_player;
    let i = p.index();
    let ghost sup0 = state.players[i as int].supports@;
    let ghost c0 = state.players[i as int].creatures@;
    let to_remove = wear_supports(&mut state.players[i].supports);
    proof {
        let w = state.players[i as int].supports@;
        assert forall|j: int| 0 <= j < w.len() implies (#[trigger] w[j]).slot.0 < 2 by {
            assert(w[j] == worn(sup0[j]));
        }
        assert forall|j: int, k: int| 0 <= j < k < w.len() implies (#[trigger] w[j]).slot != (#[trigger] w[k]).slot by {
            assert(w[j] == worn(sup0[j]) && w[k] == worn(sup0[k]));
        }
    }
    let ghost w = state.players[i as int].supports@;
    let mut k: usize = 0;
    while k < to_remove.len()
        invariant
            state.wf(),
            state.active_player == p,
            state.current_turn == old(state).current_turn,
            state.game_mode == old(state).game_mode,
            i == p.0,
            p == s0.active_player,
            k <= to_remove@.len(),
            *state == (GameState { players: state.players, ..s0 }),
            state.players[p.spec_opponent().0 as int] == s0.players[p.spec_opponent().0 as int],
            state.players[i as int] == (PlayerState { supports: state.players[i as int].supports,
                creatures: state.players[i as int].creatures, ..s0.players[i as int] }),
            state.players[i as int].supports@ == supports_after(w, to_remove@.subrange(0, k as int)),
            state.players[i as int].creatures@ == creatures_after(c0, *card_db, to_remove@.subrange(0, k as int)),
        decreases to_remove@.len() - k,
    {
        let (slot, card_id) = to_remove[k];
        let ghost before = state.players[i as int].creatures@;
        let ghost sup_before = state.players[i as int].supports@;
        proof {
            assert(to_remove@.subrange(0, k + 1).drop_last() =~= to_remove@.subrange(0, k as int));
            assert(to_remove@.subrange(0, k + 1).last() == (slot, card_id));
        }
        remove_support_passives_from_all_creatures(card_id, &mut state.players[i].creatures, card_db);
        proof {
            assert(state.players[i as int].creatures@ =~= creatures_after(c0, *card_db, to_remove@.subrange(0, k + 1)));
        }
        proof {
            assert forall|j: int| 0 <= j < before.len() implies
                (#[trigger] state.players[i as int].creatures@[j]).slot == before[j].slot by {
                crate::gamecore::engine::passive::lemma_without_modifiers_slot(before[j],
                    crate::gamecore::engine::passive::support_modifiers(*card_db, card_id));
            }
            crate::gamecore::state::lemma_board_ok_same_slots(before, state.players[i as int].creatures@);
        }
        proof { lemma_supports_ok_without_slot(state.players[i as int].supports@, slot); }
        remove_supports_at(&mut state.players[i].supports, slot);
        k = k + 1;
    }
    proof { assert(to_remove@.subrange(0, to_remove@.len() as int) =~= to_remove@); }
    let ghost sa = *state;
    process_ephemeral_deaths(state, card_db, effect_queue, p);
    let ghost sb = *state;
    let ghost qb = *effect_queue;
    let ghost before_reset = state.players[i as int].creatures@;
    reset_frenzy(&mut state.players[i].creatures);
    proof {
        crate::gamecore::state::lemma_board_ok_same_slots(before_reset, state.players[i as int].creatures@);
    }
    state.active_player = p.opponent();
    let ghost sc = *state;
    start_turn(state, card_db, effect_queue);
    proof {
        let (s1, q1) = choose|s1: GameState, q1: EffectQueue| #[trigger] ephemeral_died(sa, e0, *card_db, p, s1, q1)
            && if ephemeral_slots(sa.players[i as int].creatures@).len() == 0 { sb == s1 && qb == q1 } else { resolved(s1, q1, sb, qb) };
        assert(turn_ended(s0, e0, *card_db, sa, s1, q1, sb, qb, sc));
    }
}

} // verus!
