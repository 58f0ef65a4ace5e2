//! Effect handlers: one per effect kind.

use vstd::prelude::*;
use crate::gamecore::effects::{CreatureFilter, Effect, EffectTarget};
use crate::gamecore::engine::effect_context::effect_wf;
use damage::{DamageHandler, HealHandler};
use stats::{BuffStatsHandler, SetStatsHandler};
use keyword::{GrantKeywordHandler, RemoveKeywordHandler, SilenceHandler};
use utility::{DrawHandler, GainEssenceHandler, RefreshCreatureHandler, BounceHandler, DestroyHandler, DestroySelfHandler};
use summon::{SummonHandler, SummonTokenHandler, TransformHandler, CopyHandler};
use crate::gamecore::engine::effect_context::{
    EffectContext, ctx_evolves, target_wf, area_positions, target_positions, filtered_slots, lemma_filtered_slots,
};
use crate::gamecore::state::{Creature, GameState, slot_index, occupied, lemma_slot_index};
use crate::gamecore::types::{PlayerId, Slot};

pub mod damage;
pub mod stats;
pub mod keyword;
pub mod utility;
pub mod summon;

verus! {

/// A board with `f` applied to the creature at `s` (unchanged if empty).
pub open spec fn apply_at(b: Seq<Creature>, s: Slot, f: spec_fn(Creature) -> Creature) -> Seq<Creature> {
    let k = slot_index(b, s);
    if k >= 0 { b.update(k, f(b[k])) } else { b }
}

/// Both boards after applying `f` at one position.
pub open spec fn board_step(b: (Seq<Creature>, Seq<Creature>), p: (PlayerId, Slot), f: spec_fn(Creature) -> Creature)
    -> (Seq<Creature>, Seq<Creature>)
{
    if p.0.0 == 0 { (apply_at(b.0, p.1, f), b.1) } else { (b.0, apply_at(b.1, p.1, f)) }
}

/// Both boards after applying `f` at each position in order.
pub open spec fn boards_after(b: (Seq<Creature>, Seq<Creature>), ps: Seq<(PlayerId, Slot)>, f: spec_fn(Creature) -> Creature)
    -> (Seq<Creature>, Seq<Creature>)
    decreases ps.len(),
{
    if ps.len() == 0 {
        b
    } else {
        board_step(boards_after(b, ps.drop_last(), f), ps.last(), f)
    }
}

/// Applying at a single position is one step.
pub proof fn lemma_boards_after_one(b: (Seq<Creature>, Seq<Creature>), p: (PlayerId, Slot), f: spec_fn(Creature) -> Creature)
    ensures
        boards_after(b, seq![p], f) == board_step(b, p, f),
{
    assert(seq![p].drop_last() =~= Seq::<(PlayerId, Slot)>::empty());
    reveal_with_fuel(boards_after, 2);
}

/// One more step of a fold over positions.
pub proof fn lemma_boards_after_step(b: (Seq<Creature>, Seq<Creature>), ps: Seq<(PlayerId, Slot)>, i: int,
    f: spec_fn(Creature) -> Creature)
    requires
        0 <= i < ps.len(),
    ensures
        boards_after(b, ps.subrange(0, i + 1), f) == board_step(boards_after(b, ps.subrange(0, i), f), ps[i], f),
{
    assert(ps.subrange(0, i + 1).drop_last() =~= ps.subrange(0, i));
}

/// The two boards of a state.
pub open spec fn boards(s: GameState) -> (Seq<Creature>, Seq<Creature>) {
    (s.players[0].creatures@, s.players[1].creatures@)
}

/// Every position an area target names belongs to a seat.
pub proof fn lemma_area_positions_valid(t: EffectTarget, f: Option<CreatureFilter>, s: GameState)
    requires
        target_wf(t),
    ensures
        forall|j: int| 0 <= j < area_positions(t, f, s).len() ==> (#[trigger] area_positions(t, f, s)[j]).0.valid(),
{
    let ps = area_positions(t, f, s);
    lemma_filtered_slots(s.players[0].creatures@, PlayerId(0), f);
    lemma_filtered_slots(s.players[1].creatures@, PlayerId(1), f);
    match t {
        EffectTarget::AllAllyCreatures(p) => lemma_filtered_slots(s.players[p.0 as int].creatures@, p, f),
        EffectTarget::AllEnemyCreatures(p) => lemma_filtered_slots(s.players[p.spec_opponent().0 as int].creatures@, p.spec_opponent(), f),
        _ => {}
    }
    assert forall|j: int| 0 <= j < ps.len() implies (#[trigger] ps[j]).0.valid() by {
        match t {
            EffectTarget::AllCreatures => {
                let a = filtered_slots(s.players[0].creatures@, PlayerId(0), f);
                if j < a.len() { assert(ps[j] == a[j]); } else {
                    let b = filtered_slots(s.players[1].creatures@, PlayerId(1), f);
                    assert(ps[j] == b[j - a.len()]);
                }
            }
            _ => {}
        }
    }
}

/// Every position a target names belongs to a seat.
pub proof fn lemma_target_positions_valid(t: EffectTarget, f: Option<CreatureFilter>, s: GameState)
    requires
        target_wf(t),
    ensures
        forall|j: int| 0 <= j < target_positions(t, f, s).len() ==> (#[trigger] target_positions(t, f, s)[j]).0.valid(),
{
    lemma_area_positions_valid(t, f, s);
}

/// Every position a target names holds a creature.
pub proof fn lemma_target_positions_occupied(t: EffectTarget, f: Option<CreatureFilter>, s: GameState)
    requires
        target_wf(t),
    ensures
        forall|j: int| 0 <= j < target_positions(t, f, s).len() ==>
            slot_index(s.players[(#[trigger] target_positions(t, f, s)[j]).0.0 as int].creatures@, target_positions(t, f, s)[j].1) >= 0,
{
    let ps = target_positions(t, f, s);
    lemma_target_positions_valid(t, f, s);
    lemma_filtered_slots(s.players[0].creatures@, PlayerId(0), f);
    lemma_filtered_slots(s.players[1].creatures@, PlayerId(1), f);
    match t {
        EffectTarget::AllAllyCreatures(p) => lemma_filtered_slots(s.players[p.0 as int].creatures@, p, f),
        EffectTarget::AllEnemyCreatures(p) => lemma_filtered_slots(s.players[p.spec_opponent().0 as int].creatures@, p.spec_opponent(), f),
        _ => {}
    }
    assert forall|j: int| 0 <= j < ps.len() implies
        slot_index(s.players[(#[trigger] ps[j]).0.0 as int].creatures@, ps[j].1) >= 0 by {
        lemma_slot_index(s.players[ps[j].0.0 as int].creatures@, ps[j].1);
        match t {
            EffectTarget::AllCreatures => {
                let a = filtered_slots(s.players[0].creatures@, PlayerId(0), f);
                if j < a.len() { assert(ps[j] == a[j]); } else {
                    let b = filtered_slots(s.players[1].creatures@, PlayerId(1), f);
                    assert(ps[j] == b[j - a.len()]);
                }
            }
            _ => {}
        }
    }
}

/// The position a single-creature target names (none for other targets).
pub open spec fn single_position(t: EffectTarget) -> Seq<(PlayerId, Slot)> {
    match t {
        EffectTarget::Creature { owner, slot } => seq![(owner, slot)],
        _ => Seq::empty(),
    }
}

/// Marking a creature of a seat for death is a legal context step.
pub proof fn lemma_mark_for_death_evolves(pre: EffectContext, post: EffectContext, owner: PlayerId, slot: Slot)
    requires
        pre.wf(),
        owner.valid(),
        post.pending_deaths@ == (if pre.pending_deaths@.contains((owner, slot)) {
            pre.pending_deaths@
        } else {
            pre.pending_deaths@.push((owner, slot))
        }),
        post.accumulated_result.target_died == (pre.accumulated_result.target_died
            || !pre.pending_deaths@.contains((owner, slot))),
        post.state == pre.state,
        post.queue@ == pre.queue@,
        post.card_db == pre.card_db,
    ensures
        ctx_evolves(pre, post),
{
    assert(post.pending_deaths@.subrange(0, pre.pending_deaths@.len() as int) =~= pre.pending_deaths@);
    assert(post.queue@.subrange(0, pre.queue@.len() as int) =~= pre.queue@);
    assert forall|j: int| 0 <= j < post.pending_deaths@.len() implies (#[trigger] post.pending_deaths@[j]).0.valid() by {
        if j < pre.pending_deaths@.len() {
            assert(post.pending_deaths@[j] == pre.pending_deaths@[j]);
        }
    }
}

/// A handler for one kind of effect.
pub trait EffectHandler {
    /// The handler's player ids name seats.
    spec fn handler_wf(&self) -> bool;

    /// Apply the effect; false when it could not be applied (e.g. no target).
    fn apply(&self, ctx: &mut EffectContext) -> (r: bool)
        requires
            old(ctx).wf(),
            self.handler_wf(),
        ensures
            ctx_evolves(*old(ctx), *final(ctx));

    /// Whether Ward on a single target blocks this effect.
    fn blocked_by_ward(&self) -> (r: bool) {
        true
    }
}

/// The handler for one effect, by kind.
pub enum AnyHandler {
    Damage(DamageHandler),
    Heal(HealHandler),
    Draw(DrawHandler),
    BuffStats(BuffStatsHandler),
    SetStats(SetStatsHandler),
    Destroy(DestroyHandler),
    Summon(SummonHandler),
    SummonToken(SummonTokenHandler),
    Transform(TransformHandler),
    Copy(CopyHandler),
    GrantKeyword(GrantKeywordHandler),
    RemoveKeyword(RemoveKeywordHandler),
    Silence(SilenceHandler),
    GainEssence(GainEssenceHandler),
    RefreshCreature(RefreshCreatureHandler),
    Bounce(BounceHandler),
    DestroySelf(DestroySelfHandler),
}

impl AnyHandler {
    /// Whether this handler carries exactly the parameters of `e`.
    pub open spec fn handles(&self, e: Effect) -> bool {
        match (self, e) {
            (AnyHandler::Damage(h), Effect::Damage { target, amount, filter }) =>
                h.target == target && h.amount == amount && h.filter == filter,
            (AnyHandler::Heal(h), Effect::Heal { target, amount, filter }) =>
                h.target == target && h.amount == amount && h.filter == filter,
            (AnyHandler::Draw(h), Effect::Draw { player, count }) => h.player == player && h.count == count,
            (AnyHandler::BuffStats(h), Effect::BuffStats { target, attack, health, filter }) =>
                h.target == target && h.attack == attack && h.health == health && h.filter == filter,
            (AnyHandler::SetStats(h), Effect::SetStats { target, attack, health }) =>
                h.target == target && h.attack == attack && h.health == health,
            (AnyHandler::Destroy(h), Effect::Destroy { target, filter }) => h.target == target && h.filter == filter,
            (AnyHandler::Summon(h), Effect::Summon { owner, card_id, slot }) =>
                h.owner == owner && h.card_id == card_id && h.slot == slot,
            (AnyHandler::SummonToken(h), Effect::SummonToken { owner, token, slot }) =>
                h.owner == owner && h.token.same(&token) && h.slot == slot,
            (AnyHandler::Transform(h), Effect::Transform { target, into }) => h.target == target && h.into.same(&into),
            (AnyHandler::Copy(h), Effect::Copy { target, owner }) => h.target == target && h.owner == owner,
            (AnyHandler::GrantKeyword(h), Effect::GrantKeyword { target, keyword, filter }) =>
                h.target == target && h.keyword == keyword && h.filter == filter,
            (AnyHandler::RemoveKeyword(h), Effect::RemoveKeyword { target, keyword, filter }) =>
                h.target == target && h.keyword == keyword && h.filter == filter,
            (AnyHandler::Silence(h), Effect::Silence { target, filter }) => h.target == target && h.filter == filter,
            (AnyHandler::GainEssence(h), Effect::GainEssence { player, amount }) => h.player == player && h.amount == amount,
            (AnyHandler::RefreshCreature(h), Effect::RefreshCreature { target }) => h.target == target,
            (AnyHandler::Bounce(h), Effect::Bounce { target, filter }) => h.target == target && h.filter == filter,
            (AnyHandler::DestroySelf(h), Effect::DestroySelf { owner, slot }) => h.owner == owner && h.slot == slot,
            _ => false,
        }
    }

    /// Apply the effect this handler carries.
    pub fn apply(&self, ctx: &mut EffectContext) -> (r: bool)
        requires
            old(ctx).wf(),
            exists|e: Effect| self.handles(e) && effect_wf(e),
        ensures
            ctx_evolves(*old(ctx), *final(ctx)),
    {
        match self {
            AnyHandler::Damage(h) => h.apply(ctx),
            AnyHandler::Heal(h) => h.apply(ctx),
            AnyHandler::Draw(h) => h.apply(ctx),
            AnyHandler::BuffStats(h) => h.apply(ctx),
            AnyHandler::SetStats(h) => h.apply(ctx),
            AnyHandler::Destroy(h) => h.apply(ctx),
            AnyHandler::Summon(h) => h.apply(ctx),
            AnyHandler::SummonToken(h) => h.apply(ctx),
            AnyHandler::Transform(h) => h.apply(ctx),
            AnyHandler::Copy(h) => h.apply(ctx),
            AnyHandler::GrantKeyword(h) => h.apply(ctx),
            AnyHandler::RemoveKeyword(h) => h.apply(ctx),
            AnyHandler::Silence(h) => h.apply(ctx),
            AnyHandler::GainEssence(h) => h.apply(ctx),
            AnyHandler::RefreshCreature(h) => h.apply(ctx),
            AnyHandler::Bounce(h) => h.apply(ctx),
            AnyHandler::DestroySelf(h) => h.apply(ctx),
        }
    }

    /// Whether Ward on a single target blocks the effect: everything but
    /// draws, essence gains, summons and self-sacrifice.
    pub fn blocked_by_ward(&self) -> (r: bool)
        ensures
            r == !(self is Draw || self is GainEssence || self is Summon || self is SummonToken || self is DestroySelf),
    {
        match self {
            AnyHandler::Draw(_) | AnyHandler::GainEssence(_) | AnyHandler::Summon(_) | AnyHandler::SummonToken(_)
            | AnyHandler::DestroySelf(_) => false,
            _ => true,
        }
    }
}

/// Create the handler for an effect.
pub fn create_handler(effect: &Effect, source_player: PlayerId) -> (r: AnyHandler)
    ensures
        r.handles(*effect),
{
    match effect {
        Effect::Damage { target, amount, filter } =>
            AnyHandler::Damage(DamageHandler { target: *target, amount: *amount, filter: *filter }),
        Effect::Heal { target, amount, filter } =>
            AnyHandler::Heal(HealHandler { target: *target, amount: *amount, filter: *filter }),
        Effect::Draw { player, count } => AnyHandler::Draw(DrawHandler { player: *player, count: *count }),
        Effect::BuffStats { target, attack, health, filter } =>
            AnyHandler::BuffStats(BuffStatsHandler { target: *target, attack: *attack, health: *health, filter: *filter }),
        Effect::SetStats { target, attack, health } =>
            AnyHandler::SetStats(SetStatsHandler { target: *target, attack: *attack, health: *health }),
        Effect::Destroy { target, filter } => AnyHandler::Destroy(DestroyHandler { target: *target, filter: *filter }),
        Effect::Summon { owner, card_id, slot } =>
            AnyHandler::Summon(SummonHandler { owner: *owner, card_id: *card_id, slot: *slot }),
        Effect::SummonToken { owner, token, slot } =>
            AnyHandler::SummonToken(SummonTokenHandler { owner: *owner, token: token.duplicate(), slot: *slot }),
        Effect::Transform { target, into } =>
            AnyHandler::Transform(TransformHandler { target: *target, into: into.duplicate() }),
        Effect::Copy { target, owner } => AnyHandler::Copy(CopyHandler { target: *target, owner: *owner }),
        Effect::GrantKeyword { target, keyword, filter } =>
            AnyHandler::GrantKeyword(GrantKeywordHandler { target: *target, keyword: *keyword, filter: *filter }),
        Effect::RemoveKeyword { target, keyword, filter } =>
            AnyHandler::RemoveKeyword(RemoveKeywordHandler { target: *target, keyword: *keyword, filter: *filter }),
        Effect::Silence { target, filter } => AnyHandler::Silence(SilenceHandler { target: *target, filter: *filter }),
        Effect::GainEssence { player, amount } =>
            AnyHandler::GainEssence(GainEssenceHandler { player: *player, amount: *amount }),
        Effect::RefreshCreature { target } => AnyHandler::RefreshCreature(RefreshCreatureHandler { target: *target }),
        Effect::Bounce { target, filter } => AnyHandler::Bounce(BounceHandler { target: *target, filter: *filter }),
        Effect::DestroySelf { owner, slot } =>
            AnyHandler::DestroySelf(DestroySelfHandler { owner: *owner, slot: *slot }),
    }
}

} // verus!
