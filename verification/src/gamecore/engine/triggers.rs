//! Creature triggers and death processing.

use vstd::prelude::*;
use std::collections::VecDeque;
use crate::gamecore::cards::{AbilityDefinition, CardDatabase, EffectDefinition};
use crate::gamecore::effects::{Effect, EffectSource, EffectTarget, PendingEffect, Trigger};
use crate::gamecore::engine::effect_context::{
    EffectContext, ctx_evolves, effect_wf, pending_wf, queue_wf, deaths_wf, lemma_ctx_evolves_refl,
};
use crate::gamecore::engine::passive::{
    collect_commander_ally_death_effects, collect_commander_any_death_effects,
    collect_commander_enemy_death_effects, commander_fires, converted, lemma_commander_fires,
};
use crate::gamecore::keywords::{Keywords, keyword_bits_of_name};
use crate::gamecore::state::{
    Creature, GameState, PlayerState, without_slot, remove_creatures_at, find_creature_index, lemma_slot_index,
};
use crate::gamecore::types::{PlayerId, Slot};

verus! {

/// The effect a creature's triggered ability produces from a definition
/// (token summons are described by `converted`): damage and bounce hit all
/// enemy creatures, other creature effects target the creature itself.
pub open spec fn creature_trigger_effect(def: EffectDefinition, owner: PlayerId, slot: Slot) -> Option<Effect> {
    let me = EffectTarget::Creature { owner, slot };
    match def {
        EffectDefinition::Damage { amount, filter } =>
            Some(Effect::Damage { target: EffectTarget::AllEnemyCreatures(owner), amount, filter }),
        EffectDefinition::Heal { amount, filter } => Some(Effect::Heal { target: me, amount, filter }),
        EffectDefinition::Draw { count } => Some(Effect::Draw { player: owner, count }),
        EffectDefinition::BuffStats { attack, health, filter } => Some(Effect::BuffStats { target: me, attack, health, filter }),
        EffectDefinition::GrantKeyword { keyword, filter } =>
            Some(Effect::GrantKeyword { target: me, keyword: keyword_bits_of_name(keyword@), filter }),
        EffectDefinition::RemoveKeyword { keyword, filter } =>
            Some(Effect::RemoveKeyword { target: me, keyword: keyword_bits_of_name(keyword@), filter }),
        EffectDefinition::Silence { filter } => Some(Effect::Silence { target: me, filter }),
        EffectDefinition::GainEssence { amount } => Some(Effect::GainEssence { player: owner, amount }),
        EffectDefinition::RefreshCreature => Some(Effect::RefreshCreature { target: me }),
        EffectDefinition::Bounce { filter } => Some(Effect::Bounce { target: EffectTarget::AllEnemyCreatures(owner), filter }),
        _ => None,
    }
}

/// Convert a definition to an effect for a creature's triggered ability.
pub fn effect_def_to_effect(def: &EffectDefinition, source_owner: PlayerId, source_slot: Slot) -> (r: Option<Effect>)
    requires
        source_owner.valid(),
    ensures
        converted(*def, r, creature_trigger_effect(*def, source_owner, source_slot), source_owner),
        r matches Some(e) ==> effect_wf(e),
{
    let me = EffectTarget::Creature { owner: source_owner, slot: source_slot };
    match def {
        EffectDefinition::Damage { amount, filter } => Some(Effect::Damage {
            target: EffectTarget::AllEnemyCreatures(source_owner),
            amount: *amount,
            filter: *filter,
        }),
        EffectDefinition::Heal { amount, filter } => Some(Effect::Heal { target: me, amount: *amount, filter: *filter }),
        EffectDefinition::Draw { count } => Some(Effect::Draw { player: source_owner, count: *count }),
        EffectDefinition::BuffStats { attack, health, filter } =>
            Some(Effect::BuffStats { target: me, attack: *attack, health: *health, filter: *filter }),
        EffectDefinition::Destroy { .. } => None,
        EffectDefinition::GrantKeyword { keyword, filter } => {
            let kw = Keywords::parse_keyword_name(keyword.as_str());
            Some(Effect::GrantKeyword { target: me, keyword: kw, filter: *filter })
        }
        EffectDefinition::RemoveKeyword { keyword, filter } => {
            let kw = Keywords::parse_keyword_name(keyword.as_str());
            Some(Effect::RemoveKeyword { target: me, keyword: kw, filter: *filter })
        }
        EffectDefinition::Silence { filter } => Some(Effect::Silence { target: me, filter: *filter }),
        EffectDefinition::GainEssence { amount } => Some(Effect::GainEssence { player: source_owner, amount: *amount }),
        EffectDefinition::RefreshCreature => Some(Effect::RefreshCreature { target: me }),
        EffectDefinition::Bounce { filter } => Some(Effect::Bounce {
            target: EffectTarget::AllEnemyCreatures(source_owner),
            filter: *filter,
        }),
        EffectDefinition::SummonToken { token } => Some(Effect::SummonToken {
            owner: source_owner,
            token: token.to_token_definition(),
            slot: None,
        }),
        EffectDefinition::Transform { .. } => None,
        EffectDefinition::Copy => None,
    }
}

/// The effect definitions of the abilities with this trigger, in order.
pub open spec fn triggered_defs(abilities: Seq<AbilityDefinition>, trigger: Trigger) -> Seq<EffectDefinition>
    decreases abilities.len(),
{
    if abilities.len() == 0 {
        Seq::empty()
    } else {
        let rest = triggered_defs(abilities.drop_last(), trigger);
        if abilities.last().trigger == trigger { rest + abilities.last().effects@ } else { rest }
    }
}

/// `out` is what queuing the definitions `defs` of a creature's triggered
/// abilities gives: in order, one entry from the creature for each
/// definition that converts (`creature_trigger_effect`, or a token summon).
pub open spec fn creature_effects_queued(defs: Seq<EffectDefinition>, out: Seq<PendingEffect>, owner: PlayerId, slot: Slot) -> bool
    decreases defs.len(),
{
    if defs.len() == 0 {
        out.len() == 0
    } else {
        let d = defs.last();
        let exp = creature_trigger_effect(d, owner, slot);
        if d is SummonToken || exp is Some {
            &&& out.len() > 0
            &&& out.last().source == (EffectSource::Creature { owner, slot })
            &&& converted(d, Some(out.last().effect), exp, owner)
            &&& creature_effects_queued(defs.drop_last(), out.drop_last(), owner, slot)
        } else {
            creature_effects_queued(defs.drop_last(), out, owner, slot)
        }
    }
}

/// How many of the definitions convert to an effect of a creature's
/// triggered ability.
pub open spec fn converting_count(defs: Seq<EffectDefinition>, owner: PlayerId, slot: Slot) -> int
    decreases defs.len(),
{
    if defs.len() == 0 {
        0
    } else {
        converting_count(defs.drop_last(), owner, slot)
            + if defs.last() is SummonToken || creature_trigger_effect(defs.last(), owner, slot) is Some { 1int } else { 0int }
    }
}

/// One entry is queued per converting definition.
proof fn lemma_creature_queued_len(defs: Seq<EffectDefinition>, out: Seq<PendingEffect>, owner: PlayerId, slot: Slot)
    requires
        creature_effects_queued(defs, out, owner, slot),
    ensures
        out.len() == converting_count(defs, owner, slot),
    decreases defs.len(),
{
    if defs.len() > 0 {
        let d = defs.last();
        if d is SummonToken || creature_trigger_effect(d, owner, slot) is Some {
            lemma_creature_queued_len(defs.drop_last(), out.drop_last(), owner, slot);
        } else {
            lemma_creature_queued_len(defs.drop_last(), out, owner, slot);
        }
    }
}

/// Queuing one more definition extends the relation.
proof fn lemma_creature_queued_step(defs: Seq<EffectDefinition>, out: Seq<PendingEffect>, owner: PlayerId, slot: Slot,
    d: EffectDefinition, r: Option<Effect>)
    requires
        creature_effects_queued(defs, out, owner, slot),
        converted(d, r, creature_trigger_effect(d, owner, slot), owner),
    ensures
        creature_effects_queued(defs.push(d),
            match r { Some(e) => out.push(PendingEffect { effect: e, source: EffectSource::Creature { owner, slot } }), None => out },
            owner, slot),
{
    assert(defs.push(d).drop_last() =~= defs);
    if let Some(e) = r {
        assert(out.push(PendingEffect { effect: e, source: EffectSource::Creature { owner, slot } }).drop_last() =~= out);
    }
}

/// The triggered definitions of a prefix grow by the next ability's.
proof fn lemma_triggered_defs_step(abilities: Seq<AbilityDefinition>, trigger: Trigger, i: int)
    requires
        0 <= i < abilities.len(),
    ensures
        triggered_defs(abilities.subrange(0, i + 1), trigger) == (if abilities[i].trigger == trigger {
            triggered_defs(abilities.subrange(0, i), trigger) + abilities[i].effects@
        } else {
            triggered_defs(abilities.subrange(0, i), trigger)
        }),
{
    assert(abilities.subrange(0, i + 1).drop_last() =~= abilities.subrange(0, i));
}

/// Queue, from `source`, the effects of each ability with the given trigger.
pub(crate) fn queue_ability_effects(
    queue: &mut VecDeque<PendingEffect>,
    abilities: &[AbilityDefinition],
    trigger: Trigger,
    owner: PlayerId,
    slot: Slot,
)
    requires
        owner.valid(),
        queue_wf(old(queue)@),
    ensures
        queue_wf(final(queue)@),
        final(queue)@.len() >= old(queue)@.len(),
        final(queue)@.subrange(0, old(queue)@.len() as int) == old(queue)@,
        creature_effects_queued(triggered_defs(abilities@, trigger),
            final(queue)@.subrange(old(queue)@.len() as int, final(queue)@.len() as int), owner, slot),
        forall|j: int| old(queue)@.len() <= j < final(queue)@.len() ==>
            (#[trigger] final(queue)@[j]).source == (EffectSource::Creature { owner, slot }),
{
    let ghost q0 = queue@;
    let source = EffectSource::Creature { owner, slot };
    let mut i: usize = 0;
    while i < abilities.len()
        invariant
            i <= abilities@.len(),
            owner.valid(),
            source == (EffectSource::Creature { owner, slot }),
            queue_wf(queue@),
            queue@.len() >= q0.len(),
            queue@.subrange(0, q0.len() as int) == q0,
            forall|j: int| q0.len() <= j < queue@.len() ==> (#[trigger] queue@[j]).source == source,
            creature_effects_queued(triggered_defs(abilities@.subrange(0, i as int), trigger),
                queue@.subrange(q0.len() as int, queue@.len() as int), owner, slot),
        decreases abilities@.len() - i,
    {
        proof { lemma_triggered_defs_step(abilities@, trigger, i as int); }
        let ghost base = triggered_defs(abilities@.subrange(0, i as int), trigger);
        if abilities[i].trigger == trigger {
            let effects = &abilities[i].effects;
            let mut k: usize = 0;
            while k < effects.len()
                invariant
                    k <= effects@.len(),
                    owner.valid(),
                    source == (EffectSource::Creature { owner, slot }),
                    queue_wf(queue@),
                    queue@.len() >= q0.len(),
                    queue@.subrange(0, q0.len() as int) == q0,
                    forall|j: int| q0.len() <= j < queue@.len() ==> (#[trigger] queue@[j]).source == source,
                    creature_effects_queued(base + effects@.subrange(0, k as int),
                        queue@.subrange(q0.len() as int, queue@.len() as int), owner, slot),
                decreases effects@.len() - k,
            {
                let ghost before = queue@;
                let r = effect_def_to_effect(&effects[k], owner, slot);
                proof {
                    lemma_creature_queued_step(base + effects@.subrange(0, k as int),
                        before.subrange(q0.len() as int, before.len() as int), owner, slot, effects@[k as int], r);
                    assert((base + effects@.subrange(0, k as int)).push(effects@[k as int]) =~= base + effects@.subrange(0, k + 1));
                }
                if let Some(effect) = r {
                    queue.push_back(PendingEffect::new(effect, source));
                    proof {
                        assert(queue@ == before.push(PendingEffect { effect, source }));
                        assert(queue@.subrange(0, q0.len() as int) =~= before.subrange(0, q0.len() as int));
                        assert(queue@.subrange(q0.len() as int, queue@.len() as int)
                            =~= before.subrange(q0.len() as int, before.len() as int).push(PendingEffect { effect, source }));
                        assert forall|j: int| 0 <= j < queue@.len() implies pending_wf(#[trigger] queue@[j]) by {
                            if j < before.len() { assert(queue@[j] == before[j]); }
                        }
                    }
                }
                k = k + 1;
            }
            proof { assert(effects@.subrange(0, effects@.len() as int) =~= effects@); }
        }
        i = i + 1;
    }
    proof { assert(abilities@.subrange(0, abilities@.len() as int) =~= abilities@); }
}

/// Queue the triggered abilities of a creature for a trigger, unless it is
/// silenced or missing.
pub fn check_creature_triggers(ctx: &mut EffectContext, trigger: Trigger, owner: PlayerId, slot: Slot)
    requires
        old(ctx).wf(),
        owner.valid(),
    ensures
        ctx_evolves(*old(ctx), *final(ctx)),
        final(ctx).state == old(ctx).state,
        final(ctx).pending_deaths == old(ctx).pending_deaths,
        final(ctx).accumulated_result == old(ctx).accumulated_result,
{
    proof { lemma_ctx_evolves_refl(*ctx); }
    let idx = match find_creature_index(&ctx.state.players[owner.index()].creatures, slot) {
        Some(i) => i,
        None => return,
    };
    if ctx.state.players[owner.index()].creatures[idx].status.is_silenced() {
        return;
    }
    let card_id = ctx.state.players[owner.index()].creatures[idx].card_id;
    let card_def = match ctx.card_db.get(card_id) {
        Some(c) => c,
        None => return,
    };
    let abilities = match card_def.creature_abilities() {
        Some(a) => a,
        None => return,
    };
    let ghost pre = *ctx;
    queue_ability_effects(&mut ctx.queue, abilities, trigger, owner, slot);
}

/// The boards after processing deaths in order: each death removes the
/// creatures at its slot from its owner's board.
pub open spec fn boards_after_deaths(b0: Seq<Creature>, b1: Seq<Creature>, deaths: Seq<(PlayerId, Slot)>) -> (Seq<Creature>, Seq<Creature>)
    decreases deaths.len(),
{
    if deaths.len() == 0 {
        (b0, b1)
    } else {
        let (o, s) = deaths[0];
        let rest = deaths.drop_first();
        if o.0 == 0 {
            boards_after_deaths(without_slot(b0, s), b1, rest)
        } else {
            boards_after_deaths(b0, without_slot(b1, s), rest)
        }
    }
}

/// Removing the dead keeps both boards well formed.
pub proof fn lemma_boards_after_deaths_ok(b0: Seq<Creature>, b1: Seq<Creature>, deaths: Seq<(PlayerId, Slot)>)
    requires
        crate::gamecore::state::board_ok(b0),
        crate::gamecore::state::board_ok(b1),
    ensures
        crate::gamecore::state::board_ok(boards_after_deaths(b0, b1, deaths).0),
        crate::gamecore::state::board_ok(boards_after_deaths(b0, b1, deaths).1),
    decreases deaths.len(),
{
    if deaths.len() > 0 {
        let (o, s) = deaths[0];
        crate::gamecore::state::lemma_board_ok_without_slot(b0, s);
        crate::gamecore::state::lemma_board_ok_without_slot(b1, s);
        if o.0 == 0 {
            lemma_boards_after_deaths_ok(without_slot(b0, s), b1, deaths.drop_first());
        } else {
            lemma_boards_after_deaths_ok(b0, without_slot(b1, s), deaths.drop_first());
        }
    }
}

/// What handling the death of `owner`'s creature at `slot` in `s` queues:
/// nothing when the slot is empty; else its OnDeath effects (unless it is
/// silenced), its allies' OnAllyDeath abilities and the commander death
/// triggers, in that order.
pub open spec fn death_block(s: GameState, db: CardDatabase, owner: PlayerId, slot: Slot, block: Seq<PendingEffect>) -> bool {
    let b = s.players[owner.0 as int].creatures@;
    let k = crate::gamecore::state::slot_index(b, slot);
    if k < 0 {
        block.len() == 0
    } else {
        exists|n1: int, n2: int, a: Seq<(Effect, EffectSource)>, bb: Seq<(Effect, EffectSource)>, c: Seq<(Effect, EffectSource)>,
            d: Seq<(Effect, EffectSource)>|
            #![trigger block.subrange(0, n1), block.subrange(n1, n2), commander_death_parts(s, db, owner, a, bb, c, d)]
            0 <= n1 <= n2 <= block.len()
            && (if b[k].status.spec_silenced() {
                n1 == 0
            } else {
                creature_effects_queued(card_trigger_defs(db, b[k].card_id, Trigger::OnDeath), block.subrange(0, n1), owner, slot)
            })
            && ally_death_queued(b, db, owner, slot, block.subrange(n1, n2))
            && commander_death_parts(s, db, owner, a, bb, c, d)
            && block.subrange(n2, block.len() as int) == pendings_of(a) + pendings_of(bb) + pendings_of(c) + pendings_of(d)
    }
}

/// `s1` is `s` once the creatures of `owner` at `slot` left the board.
pub open spec fn death_removed(s: GameState, owner: PlayerId, slot: Slot, s1: GameState) -> bool {
    &&& s1 == (GameState { players: s1.players, ..s })
    &&& s1.players[owner.spec_opponent().0 as int] == s.players[owner.spec_opponent().0 as int]
    &&& s1.players[owner.0 as int] == (PlayerState { creatures: s1.players[owner.0 as int].creatures, ..s.players[owner.0 as int] })
    &&& s1.players[owner.0 as int].creatures@ == without_slot(s.players[owner.0 as int].creatures@, slot)
}

/// The blocks `bs` one after the other.
pub open spec fn concat_blocks(bs: Seq<Seq<PendingEffect>>) -> Seq<PendingEffect>
    decreases bs.len(),
{
    if bs.len() == 0 { Seq::empty() } else { concat_blocks(bs.drop_last()) + bs.last() }
}

/// Handling the deaths `ds` in the order they occurred, from `s0`: `sts[i]`
/// is the state when death `i` is handled and `blocks[i]` what it queues.
pub open spec fn deaths_handled(s0: GameState, db: CardDatabase, ds: Seq<(PlayerId, Slot)>, sts: Seq<GameState>,
    blocks: Seq<Seq<PendingEffect>>) -> bool
{
    &&& sts.len() == ds.len() + 1
    &&& blocks.len() == ds.len()
    &&& sts[0] == s0
    &&& forall|i: int| 0 <= i < ds.len() ==> #[trigger] death_block(sts[i], db, ds[i].0, ds[i].1, blocks[i])
        && death_removed(sts[i], ds[i].0, ds[i].1, sts[i + 1])
}

/// Whether two states agree on everything but the creatures on the boards.
pub open spec fn same_but_boards(a: GameState, b: GameState) -> bool {
    &&& a.active_player == b.active_player
    &&& a.current_turn == b.current_turn
    &&& a.phase == b.phase
    &&& a.result == b.result
    &&& a.rng_state == b.rng_state
    &&& a.game_mode == b.game_mode
    &&& a.commander_p1 == b.commander_p1
    &&& a.commander_p2 == b.commander_p2
    &&& a.next_instance_id == b.next_instance_id
    &&& forall|p: int| 0 <= p < 2 ==> {
        &&& #[trigger] a.players[p].life == b.players[p].life
        &&& a.players[p].max_essence == b.players[p].max_essence
        &&& a.players[p].current_essence == b.players[p].current_essence
        &&& a.players[p].action_points == b.players[p].action_points
        &&& a.players[p].hand == b.players[p].hand
        &&& a.players[p].deck == b.players[p].deck
        &&& a.players[p].supports == b.players[p].supports
        &&& a.players[p].total_damage_dealt == b.players[p].total_damage_dealt
        &&& a.players[p].used_commander_insight == b.players[p].used_commander_insight
        &&& a.players[p].commander_passive == b.players[p].commander_passive
    }
}

/// A state that agrees with a well-formed one on everything but the
/// boards, with well-formed boards, is well formed.
pub proof fn lemma_same_but_boards_wf(a: GameState, b: GameState)
    requires
        a.wf(),
        same_but_boards(a, b),
        crate::gamecore::state::board_ok(b.players[0].creatures@),
        crate::gamecore::state::board_ok(b.players[1].creatures@),
    ensures
        b.wf(),
{
    assert(a.players[0].life == b.players[0].life);
    assert(a.players[1].life == b.players[1].life);
}

/// Agreement on everything but the boards is reflexive.
pub proof fn lemma_same_but_boards_refl(a: GameState)
    ensures
        same_but_boards(a, a),
{
}

/// Agreement on everything but the boards is transitive.
pub proof fn lemma_same_but_boards_trans(a: GameState, b: GameState, c: GameState)
    requires
        same_but_boards(a, b),
        same_but_boards(b, c),
    ensures
        same_but_boards(a, c),
{
    assert(a.players[0].life == b.players[0].life && b.players[0].life == c.players[0].life);
    assert(a.players[1].life == b.players[1].life && b.players[1].life == c.players[1].life);
}

/// Queue entries for effects with their sources, in order.
pub open spec fn pendings_of(effects: Seq<(Effect, EffectSource)>) -> Seq<PendingEffect> {
    effects.map_values(|e: (Effect, EffectSource)| PendingEffect { effect: e.0, source: e.1 })
}

/// Append commander effects to the queue.
fn queue_commander_effects(queue: &mut VecDeque<PendingEffect>, effects: Vec<(Effect, EffectSource)>)
    requires
        queue_wf(old(queue)@),
        forall|j: int| 0 <= j < effects@.len() ==> effect_wf((#[trigger] effects@[j]).0)
            && crate::gamecore::engine::effect_context::source_wf(effects@[j].1),
    ensures
        queue_wf(final(queue)@),
        final(queue)@ == old(queue)@ + pendings_of(effects@),
        final(queue)@.len() >= old(queue)@.len(),
        final(queue)@.subrange(0, old(queue)@.len() as int) == old(queue)@,
{
    let ghost q0 = queue@;
    let ghost all = effects@;
    let mut effects = effects;
    let mut rev: Vec<(Effect, EffectSource)> = Vec::new();
    while effects.len() > 0
        invariant
            forall|j: int| 0 <= j < effects@.len() ==> effect_wf((#[trigger] effects@[j]).0)
                && crate::gamecore::engine::effect_context::source_wf(effects@[j].1),
            forall|j: int| 0 <= j < rev@.len() ==> effect_wf((#[trigger] rev@[j]).0)
                && crate::gamecore::engine::effect_context::source_wf(rev@[j].1),
            effects@.len() + rev@.len() == all.len(),
            effects@ == all.subrange(0, effects@.len() as int),
            forall|j: int| 0 <= j < rev@.len() ==> #[trigger] rev@[j] == all[all.len() - 1 - j],
        decreases effects@.len(),
    {
        let ghost before = effects@;
        let e = effects.pop().unwrap();
        proof { assert(effects@ =~= all.subrange(0, effects@.len() as int)); }
        rev.push(e);
    }
    while rev.len() > 0
        invariant
            forall|j: int| 0 <= j < rev@.len() ==> effect_wf((#[trigger] rev@[j]).0)
                && crate::gamecore::engine::effect_context::source_wf(rev@[j].1),
            rev@.len() <= all.len(),
            forall|j: int| 0 <= j < rev@.len() ==> #[trigger] rev@[j] == all[all.len() - 1 - j],
            queue_wf(queue@),
            queue@ == q0 + pendings_of(all.subrange(0, all.len() - rev@.len())),
        decreases rev@.len(),
    {
        let ghost before = queue@;
        let ghost k = all.len() - rev@.len();
        let (effect, source) = rev.pop().unwrap();
        proof { assert((effect, source) == all[k]); }
        queue.push_back(PendingEffect::new(effect, source));
        proof {
            assert(pendings_of(all.subrange(0, k + 1)) =~= pendings_of(all.subrange(0, k)).push(PendingEffect { effect, source }));
            assert(queue@ =~= q0 + pendings_of(all.subrange(0, k + 1)));
            assert forall|j: int| 0 <= j < queue@.len() implies pending_wf(#[trigger] queue@[j]) by {
                if j < before.len() { assert(queue@[j] == before[j]); }
            }
        }
    }
    proof {
        assert(all.subrange(0, all.len() as int) =~= all);
        assert(queue@.subrange(0, q0.len() as int) =~= q0);
    }
}

/// The effect definitions of card `id`'s creature abilities with this
/// trigger (none when the card is unknown or not a creature).
pub open spec fn card_trigger_defs(db: CardDatabase, id: crate::gamecore::types::CardId, trigger: Trigger) -> Seq<EffectDefinition> {
    match db.spec_get(id) {
        Some(def) => match def.card_type {
            crate::gamecore::cards::CardType::Creature { abilities, .. } => triggered_defs(abilities@, trigger),
            _ => Seq::empty(),
        },
        None => Seq::empty(),
    }
}

/// `out` is what queuing the OnAllyDeath abilities of the creatures `cs`
/// gives, in board order: each creature not at `dead_slot` and not
/// silenced queues its card's abilities.
pub open spec fn ally_death_queued(cs: Seq<Creature>, db: CardDatabase, owner: PlayerId, dead_slot: Slot,
    out: Seq<PendingEffect>) -> bool
    decreases cs.len(),
{
    if cs.len() == 0 {
        out.len() == 0
    } else {
        let c = cs.last();
        if c.slot != dead_slot && !c.status.spec_silenced() {
            let defs = card_trigger_defs(db, c.card_id, Trigger::OnAllyDeath);
            let k = out.len() - converting_count(defs, owner, c.slot);
            &&& 0 <= k
            &&& ally_death_queued(cs.drop_last(), db, owner, dead_slot, out.subrange(0, k))
            &&& creature_effects_queued(defs, out.subrange(k, out.len() as int), owner, c.slot)
        } else {
            ally_death_queued(cs.drop_last(), db, owner, dead_slot, out)
        }
    }
}

/// Queue the abilities with the given trigger of the card `card_id`, as
/// fired by the creature at (`owner`, `slot`).
fn queue_card_trigger(
    queue: &mut VecDeque<PendingEffect>,
    card_db: &CardDatabase,
    card_id: crate::gamecore::types::CardId,
    trigger: Trigger,
    owner: PlayerId,
    slot: Slot,
)
    requires
        owner.valid(),
        queue_wf(old(queue)@),
    ensures
        queue_wf(final(queue)@),
        final(queue)@.len() >= old(queue)@.len(),
        final(queue)@.subrange(0, old(queue)@.len() as int) == old(queue)@,
        creature_effects_queued(card_trigger_defs(*card_db, card_id, trigger),
            final(queue)@.subrange(old(queue)@.len() as int, final(queue)@.len() as int), owner, slot),
{
    proof { assert(old(queue)@.subrange(old(queue)@.len() as int, old(queue)@.len() as int) =~= Seq::<PendingEffect>::empty()); }
    if let Some(card_def) = card_db.get(card_id) {
        if let Some(abilities) = card_def.creature_abilities() {
            queue_ability_effects(queue, abilities, trigger, owner, slot);
        }
    }
}

/// Queue OnAllyDeath abilities of the owner's other, unsilenced creatures.
fn queue_ally_death_triggers(
    queue: &mut VecDeque<PendingEffect>,
    creatures: &Vec<Creature>,
    card_db: &CardDatabase,
    owner: PlayerId,
    dead_slot: Slot,
)
    requires
        owner.valid(),
        queue_wf(old(queue)@),
    ensures
        queue_wf(final(queue)@),
        final(queue)@.len() >= old(queue)@.len(),
        final(queue)@.subrange(0, old(queue)@.len() as int) == old(queue)@,
        ally_death_queued(creatures@, *card_db, owner, dead_slot,
            final(queue)@.subrange(old(queue)@.len() as int, final(queue)@.len() as int)),
{
    let ghost q0 = queue@;
    proof { assert(q0.subrange(q0.len() as int, q0.len() as int) =~= Seq::<PendingEffect>::empty()); }
    let mut i: usize = 0;
    while i < creatures.len()
        invariant
            i <= creatures@.len(),
            owner.valid(),
            queue_wf(queue@),
            queue@.len() >= q0.len(),
            queue@.subrange(0, q0.len() as int) == q0,
            ally_death_queued(creatures@.subrange(0, i as int), *card_db, owner, dead_slot,
                queue@.subrange(q0.len() as int, queue@.len() as int)),
        decreases creatures@.len() - i,
    {
        let c = &creatures[i];
        let ghost cs1 = creatures@.subrange(0, i + 1);
        proof { assert(cs1.drop_last() =~= creatures@.subrange(0, i as int)); assert(cs1.last() == creatures@[i as int]); }
        if c.slot != dead_slot && !c.status.is_silenced() {
            let ghost before = queue@;
            queue_card_trigger(queue, card_db, c.card_id, Trigger::OnAllyDeath, owner, c.slot);
            proof {
                let out = queue@.subrange(q0.len() as int, queue@.len() as int);
                let k = before.len() - q0.len();
                assert(out.subrange(0, k) =~= before.subrange(q0.len() as int, before.len() as int));
                assert(out.subrange(k, out.len() as int) =~= queue@.subrange(before.len() as int, queue@.len() as int));
                assert(ally_death_queued(cs1.drop_last(), *card_db, owner, dead_slot, out.subrange(0, k)));
                lemma_creature_queued_len(card_trigger_defs(*card_db, c.card_id, Trigger::OnAllyDeath),
                    out.subrange(k, out.len() as int), owner, c.slot);
                assert(ally_death_queued(cs1, *card_db, owner, dead_slot, out));
                assert(queue@.subrange(0, q0.len() as int) =~= queue@.subrange(0, before.len() as int).subrange(0, q0.len() as int));
            }
        } else {
            proof {
                assert(ally_death_queued(cs1, *card_db, owner, dead_slot, queue@.subrange(q0.len() as int, queue@.len() as int)));
            }
        }
        i = i + 1;
    }
    proof { assert(creatures@.subrange(0, creatures@.len() as int) =~= creatures@); }
}

/// The commander effects a death of one of `owner`'s creatures fires, in
/// queue order: the owner's OnAllyDeath, the opponent's OnEnemyDeath, the
/// owner's OnAnyDeath, the opponent's OnAnyDeath.
pub open spec fn commander_death_parts(state: GameState, db: CardDatabase, owner: PlayerId,
    a: Seq<(Effect, EffectSource)>, b: Seq<(Effect, EffectSource)>, c: Seq<(Effect, EffectSource)>,
    d: Seq<(Effect, EffectSource)>) -> bool
{
    &&& commander_fires(state, owner, crate::gamecore::cards::CommanderTrigger::OnAllyDeath, db, None, a)
    &&& commander_fires(state, owner.spec_opponent(), crate::gamecore::cards::CommanderTrigger::OnEnemyDeath, db, None, b)
    &&& commander_fires(state, owner, crate::gamecore::cards::CommanderTrigger::OnAnyDeath, db, None, c)
    &&& commander_fires(state, owner.spec_opponent(), crate::gamecore::cards::CommanderTrigger::OnAnyDeath, db, None, d)
}

/// Queue the commander triggers of a creature's death: the owner's
/// OnAllyDeath, the opponent's OnEnemyDeath, and both OnAnyDeath.
pub(crate) fn queue_commander_death_triggers(
    queue: &mut VecDeque<PendingEffect>,
    state: &GameState,
    card_db: &CardDatabase,
    owner: PlayerId,
)
    requires
        owner.valid(),
        queue_wf(old(queue)@),
    ensures
        queue_wf(final(queue)@),
        exists|a: Seq<(Effect, EffectSource)>, b: Seq<(Effect, EffectSource)>, c: Seq<(Effect, EffectSource)>,
            d: Seq<(Effect, EffectSource)>| #[trigger] commander_death_parts(*state, *card_db, owner, a, b, c, d)
            && final(queue)@ == old(queue)@ + pendings_of(a) + pendings_of(b) + pendings_of(c) + pendings_of(d),
        final(queue)@.len() >= old(queue)@.len(),
        final(queue)@.subrange(0, old(queue)@.len() as int) == old(queue)@,
{
    let ghost q0 = queue@;
    let a = collect_commander_ally_death_effects(state, owner, card_db);
    proof { lemma_commander_fires(*state, owner, crate::gamecore::cards::CommanderTrigger::OnAllyDeath, *card_db, None, a@); }
    queue_commander_effects(queue, a);
    let ghost q1 = queue@;
    let b = collect_commander_enemy_death_effects(state, owner, card_db);
    proof { lemma_commander_fires(*state, owner.spec_opponent(), crate::gamecore::cards::CommanderTrigger::OnEnemyDeath, *card_db, None, b@); }
    queue_commander_effects(queue, b);
    let ghost q2 = queue@;
    let c = collect_commander_any_death_effects(state, owner, card_db);
    proof { lemma_commander_fires(*state, owner, crate::gamecore::cards::CommanderTrigger::OnAnyDeath, *card_db, None, c@); }
    queue_commander_effects(queue, c);
    let ghost q3 = queue@;
    let opp = owner.opponent();
    let d = collect_commander_any_death_effects(state, opp, card_db);
    proof { lemma_commander_fires(*state, opp, crate::gamecore::cards::CommanderTrigger::OnAnyDeath, *card_db, None, d@); }
    queue_commander_effects(queue, d);
    proof {
        assert(commander_death_parts(*state, *card_db, owner, a@, b@, c@, d@));
        assert(queue@ == q0 + pendings_of(a@) + pendings_of(b@) + pendings_of(c@) + pendings_of(d@));
        assert(q2.subrange(0, q0.len() as int) =~= q1.subrange(0, q0.len() as int));
        assert(q3.subrange(0, q0.len() as int) =~= q2.subrange(0, q0.len() as int));
        assert(queue@.subrange(0, q0.len() as int) =~= q3.subrange(0, q0.len() as int));
    }
}

proof fn lemma_deaths_handled_push(s0: GameState, db: CardDatabase, d0: Seq<(PlayerId, Slot)>, i: int, sts: Seq<GameState>,
    blocks: Seq<Seq<PendingEffect>>, s1: GameState, blk: Seq<PendingEffect>)
    requires
        0 <= i < d0.len(),
        deaths_handled(s0, db, d0.subrange(0, i), sts, blocks),
        death_block(sts.last(), db, d0[i].0, d0[i].1, blk),
        death_removed(sts.last(), d0[i].0, d0[i].1, s1),
    ensures
        deaths_handled(s0, db, d0.subrange(0, i + 1), sts.push(s1), blocks.push(blk)),
{
    let ds1 = d0.subrange(0, i + 1);
    let sts1 = sts.push(s1);
    let blocks1 = blocks.push(blk);
    assert forall|j: int| 0 <= j < ds1.len() implies #[trigger] death_block(sts1[j], db, ds1[j].0, ds1[j].1, blocks1[j])
        && death_removed(sts1[j], ds1[j].0, ds1[j].1, sts1[j + 1]) by {
        if j < i {
            assert(ds1[j] == d0.subrange(0, i)[j]);
            assert(sts1[j] == sts[j] && sts1[j + 1] == sts[j + 1] && blocks1[j] == blocks[j]);
            assert(death_block(sts[j], db, d0.subrange(0, i)[j].0, d0.subrange(0, i)[j].1, blocks[j]));
        } else {
            assert(ds1[j] == d0[i]);
            assert(sts1[j] == sts.last());
        }
    }
}

/// Process every creature marked for death, in the order they were marked:
/// queue its OnDeath abilities (unless silenced), its allies' OnAllyDeath
/// abilities and the commander death triggers, then remove it from the board.
#[verifier::spinoff_prover]
#[verifier::rlimit(50)]
pub fn process_deaths(
    pending_deaths: &mut Vec<(PlayerId, Slot)>,
    state: &mut GameState,
    card_db: &CardDatabase,
    queue: &mut VecDeque<PendingEffect>,
)
    requires
        deaths_wf(old(pending_deaths)@),
        queue_wf(old(queue)@),
    ensures
        final(pending_deaths)@.len() == 0,
        (final(state).players[0].creatures@, final(state).players[1].creatures@)
            == boards_after_deaths(old(state).players[0].creatures@, old(state).players[1].creatures@, old(pending_deaths)@),
        same_but_boards(*old(state), *final(state)),
        queue_wf(final(queue)@),
        final(queue)@.len() >= old(queue)@.len(),
        final(queue)@.subrange(0, old(queue)@.len() as int) == old(queue)@,
        exists|sts: Seq<GameState>, blocks: Seq<Seq<PendingEffect>>| #[trigger] deaths_handled(*old(state), *card_db,
            old(pending_deaths)@, sts, blocks) && *final(state) == sts.last()
            && final(queue)@ == old(queue)@ + concat_blocks(blocks),
{
    let ghost s0 = *state;
    let ghost q0 = queue@;
    let ghost d0 = pending_deaths@;
    let ghost mut sts: Seq<GameState> = seq![s0];
    let ghost mut blocks: Seq<Seq<PendingEffect>> = Seq::empty();
    proof {
        assert(d0.subrange(0, d0.len() as int) =~= d0);
        assert(q0 + concat_blocks(blocks) =~= q0);
    }
    let mut i: usize = 0;
    while i < pending_deaths.len()
        invariant
            pending_deaths@ == d0,
            deaths_wf(d0),
            i <= d0.len(),
            boards_after_deaths(state.players[0].creatures@, state.players[1].creatures@, d0.subrange(i as int, d0.len() as int))
                == boards_after_deaths(s0.players[0].creatures@, s0.players[1].creatures@, d0),
            same_but_boards(s0, *state),
            queue_wf(queue@),
            queue@.len() >= q0.len(),
            queue@.subrange(0, q0.len() as int) == q0,
            deaths_handled(s0, *card_db, d0.subrange(0, i as int), sts, blocks),
            sts.last() == *state,
            queue@ == q0 + concat_blocks(blocks),
        decreases d0.len() - i,
    {
        let (owner, slot) = pending_deaths[i];
        proof {
            assert(d0[i as int] == (owner, slot));
            assert(d0[i as int].0.valid());
            assert(d0.subrange(i as int, d0.len() as int)[0] == (owner, slot));
            assert(d0.subrange(i as int, d0.len() as int).drop_first() =~= d0.subrange(i + 1, d0.len() as int));
        }
        let ghost qb = queue@;
        let ghost st_before = *state;
        proof { lemma_slot_index(state.players[owner.0 as int].creatures@, slot); }
        match find_creature_index(&state.players[owner.index()].creatures, slot) {
            Some(idx) => {
                let card_id = state.players[owner.index()].creatures[idx].card_id;
                let is_silenced = state.players[owner.index()].creatures[idx].status.is_silenced();
                if !is_silenced {
                    queue_card_trigger(queue, card_db, card_id, Trigger::OnDeath, owner, slot);
                }
                let ghost q1 = queue@;
                queue_ally_death_triggers(queue, &state.players[owner.index()].creatures, card_db, owner, slot);
                let ghost q2 = queue@;
                queue_commander_death_triggers(queue, state, card_db, owner);
                proof {
                    assert(q2.subrange(0, qb.len() as int) =~= q1.subrange(0, qb.len() as int));
                    assert(queue@.subrange(0, qb.len() as int) =~= q2.subrange(0, qb.len() as int));
                    let blk = queue@.subrange(qb.len() as int, queue@.len() as int);
                    let n1 = q1.len() - qb.len();
                    let n2 = q2.len() - qb.len();
                    let (a, bb, c, d) = choose|a: Seq<(Effect, EffectSource)>, bb: Seq<(Effect, EffectSource)>,
                        c: Seq<(Effect, EffectSource)>, d: Seq<(Effect, EffectSource)>|
                        #[trigger] commander_death_parts(st_before, *card_db, owner, a, bb, c, d)
                        && queue@ == q2 + pendings_of(a) + pendings_of(bb) + pendings_of(c) + pendings_of(d);
                    assert(blk.subrange(0, n1) =~= q1.subrange(qb.len() as int, q1.len() as int));
                    assert(blk.subrange(n1, n2) =~= q2.subrange(q1.len() as int, q2.len() as int));
                    assert(blk.subrange(n2, blk.len() as int) =~= pendings_of(a) + pendings_of(bb) + pendings_of(c) + pendings_of(d));
                    if is_silenced {
                        assert(q1 == qb);
                    }
                    assert(death_block(st_before, *card_db, owner, slot, blk));
                }
                remove_creatures_at(&mut state.players[owner.index()].creatures, slot);
            }
            None => {
                proof {
                    crate::gamecore::state::lemma_without_slot(state.players[owner.0 as int].creatures@, slot);
                    assert(queue@.subrange(qb.len() as int, queue@.len() as int) =~= Seq::<PendingEffect>::empty());
                }
            }
        }
        proof {
            let blk = queue@.subrange(qb.len() as int, queue@.len() as int);
            assert(queue@.subrange(0, q0.len() as int) =~= queue@.subrange(0, qb.len() as int).subrange(0, q0.len() as int));
            if owner.0 == 0 {
                assert(state.players[1] == st_before.players[1]);
            } else {
                assert(state.players[0] == st_before.players[0]);
            }
            assert(state.players[0].life == st_before.players[0].life);
            assert(state.players[1].life == st_before.players[1].life);
            lemma_same_but_boards_trans(s0, st_before, *state);
            assert(death_removed(st_before, owner, slot, *state));
            let sts1 = sts.push(*state);
            let blocks1 = blocks.push(blk);
            assert(blocks1.drop_last() =~= blocks);
            assert(queue@ =~= qb + blk);
            assert(queue@ =~= q0 + concat_blocks(blocks1));
            lemma_deaths_handled_push(s0, *card_db, d0, i as int, sts, blocks, *state, blk);
            sts = sts1;
            blocks = blocks1;
        }
        i = i + 1;
    }
    pending_deaths.clear();
    proof {
        assert(d0.subrange(0, d0.len() as int) =~= d0);
        assert(d0.subrange(d0.len() as int, d0.len() as int) =~= Seq::<(PlayerId, Slot)>::empty());
    }
}

} // verus!
