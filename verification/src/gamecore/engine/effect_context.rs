//! Effect context and target resolution.

use vstd::prelude::*;
use std::collections::VecDeque;
use crate::gamecore::cards::CardDatabase;
use crate::gamecore::effects::{
    CreatureFilter, Effect, EffectResult, EffectSource, EffectTarget, PendingEffect, filter_admits,
    optional_filter_admits,
};
use crate::gamecore::state::{Creature, GameState, occupied, lemma_slot_index, find_creature_index};
use crate::gamecore::types::{PlayerId, Slot};

verus! {

/// The filter behind an optional reference.
pub open spec fn deref_filter(f: Option<&CreatureFilter>) -> Option<CreatureFilter> {
    match f {
        Some(x) => Some(*x),
        None => None,
    }
}

/// Positions of the creatures of `cs` (owned by `owner`) admitted by the filter, in order.
pub open spec fn filtered_slots(cs: Seq<Creature>, owner: PlayerId, f: Option<CreatureFilter>) -> Seq<(PlayerId, Slot)>
    decreases cs.len(),
{
    if cs.len() == 0 {
        Seq::empty()
    } else {
        let rest = filtered_slots(cs.drop_last(), owner, f);
        if filter_admits(f, cs.last().current_health, cs.last().keywords.0) {
            rest.push((owner, cs.last().slot))
        } else {
            rest
        }
    }
}

/// Collect the positions of the admitted creatures of `cs`.
pub fn collect_filtered(cs: &Vec<Creature>, owner: PlayerId, filter: Option<&CreatureFilter>) -> (r: Vec<(PlayerId, Slot)>)
    ensures
        r@ == filtered_slots(cs@, owner, deref_filter(filter)),
{
    let mut out: Vec<(PlayerId, Slot)> = Vec::new();
    let mut i: usize = 0;
    while i < cs.len()
        invariant
            i <= cs@.len(),
            out@ == filtered_slots(cs@.subrange(0, i as int), owner, deref_filter(filter)),
        decreases cs@.len() - i,
    {
        proof {
            assert(cs@.subrange(0, i + 1).drop_last() =~= cs@.subrange(0, i as int));
            assert(cs@.subrange(0, i + 1).last() == cs@[i as int]);
        }
        if optional_filter_admits(filter, cs[i].current_health, cs[i].keywords.0) {
            out.push((owner, cs[i].slot));
        }
        i = i + 1;
    }
    proof {
        assert(cs@.subrange(0, cs@.len() as int) =~= cs@);
    }
    out
}

/// Every position in `filtered_slots` names the owner and a creature of the list.
pub proof fn lemma_filtered_slots(cs: Seq<Creature>, owner: PlayerId, f: Option<CreatureFilter>)
    ensures
        filtered_slots(cs, owner, f).len() <= cs.len(),
        forall|j: int| 0 <= j < filtered_slots(cs, owner, f).len() ==>
            (#[trigger] filtered_slots(cs, owner, f)[j]).0 == owner && occupied(cs, filtered_slots(cs, owner, f)[j].1),
    decreases cs.len(),
{
    if cs.len() > 0 {
        let init = cs.drop_last();
        lemma_filtered_slots(init, owner, f);
        let r = filtered_slots(cs, owner, f);
        assert forall|j: int| 0 <= j < r.len() implies (#[trigger] r[j]).0 == owner && occupied(cs, r[j].1) by {
            if j < filtered_slots(init, owner, f).len() {
                let s = r[j].1;
                assert(occupied(init, s));
                let k = choose|k: int| 0 <= k < init.len() && (#[trigger] init[k]).slot == s;
                assert(cs[k] == init[k]);
            } else {
                assert(cs[cs.len() - 1].slot == r[j].1);
            }
        }
    }
}

/// Result of resolving an effect target to board positions.
#[derive(Debug, Clone)]
pub enum ResolvedTargets {
    /// One creature.
    Single { owner: PlayerId, slot: Slot },
    /// Several creatures (area effects).
    Multiple(Vec<(PlayerId, Slot)>),
    /// A player.
    Player(PlayerId),
    /// Nothing to affect.
    NoTargets,
}

/// Whether every player id inside a target names a seat.
pub open spec fn target_wf(t: EffectTarget) -> bool {
    match t {
        EffectTarget::Creature { owner, .. } => owner.valid(),
        EffectTarget::Player(p) => p.valid(),
        EffectTarget::AllAllyCreatures(p) => p.valid(),
        EffectTarget::AllEnemyCreatures(p) => p.valid(),
        _ => true,
    }
}

/// The creature positions an area target covers.
pub open spec fn area_positions(t: EffectTarget, f: Option<CreatureFilter>, state: GameState) -> Seq<(PlayerId, Slot)> {
    match t {
        EffectTarget::AllCreatures =>
            filtered_slots(state.players[0].creatures@, PlayerId(0), f)
                + filtered_slots(state.players[1].creatures@, PlayerId(1), f),
        EffectTarget::AllAllyCreatures(p) => filtered_slots(state.players[p.0 as int].creatures@, p, f),
        EffectTarget::AllEnemyCreatures(p) =>
            filtered_slots(state.players[p.spec_opponent().0 as int].creatures@, p.spec_opponent(), f),
        _ => Seq::empty(),
    }
}

/// What a target resolves to in a state.
pub open spec fn resolves_to(t: EffectTarget, f: Option<CreatureFilter>, state: GameState, r: ResolvedTargets) -> bool {
    match t {
        EffectTarget::Creature { owner, slot } =>
            if occupied(state.players[owner.0 as int].creatures@, slot) {
                r == ResolvedTargets::Single { owner, slot }
            } else {
                r is NoTargets
            },
        EffectTarget::Player(p) => r == ResolvedTargets::Player(p),
        EffectTarget::AllCreatures | EffectTarget::AllAllyCreatures(_) | EffectTarget::AllEnemyCreatures(_) =>
            r matches ResolvedTargets::Multiple(v) && v@ == area_positions(t, f, state),
        _ => r is NoTargets,
    }
}

/// The creature positions a resolved target names.
pub open spec fn resolved_positions(r: ResolvedTargets) -> Seq<(PlayerId, Slot)> {
    match r {
        ResolvedTargets::Single { owner, slot } => seq![(owner, slot)],
        ResolvedTargets::Multiple(v) => v@,
        _ => Seq::empty(),
    }
}

/// The creature positions a target names in a state.
pub open spec fn target_positions(t: EffectTarget, f: Option<CreatureFilter>, state: GameState) -> Seq<(PlayerId, Slot)> {
    match t {
        EffectTarget::Creature { owner, slot } =>
            if occupied(state.players[owner.0 as int].creatures@, slot) {
                seq![(owner, slot)]
            } else {
                Seq::empty()
            },
        _ => area_positions(t, f, state),
    }
}

/// Resolves effect targets to concrete positions.
pub struct TargetResolver;

impl TargetResolver {
    /// Resolve a target to concrete positions, applying the filter to area targets.
    pub fn resolve(target: &EffectTarget, filter: Option<&CreatureFilter>, state: &GameState) -> (r: ResolvedTargets)
        requires
            target_wf(*target),
        ensures
            resolves_to(*target, deref_filter(filter), *state, r),
    {
        match target {
            EffectTarget::Creature { owner, slot } => {
                proof { lemma_slot_index(state.players[owner.0 as int].creatures@, *slot); }
                if find_creature_index(&state.players[owner.index()].creatures, *slot).is_some() {
                    ResolvedTargets::Single { owner: *owner, slot: *slot }
                } else {
                    ResolvedTargets::NoTargets
                }
            }
            EffectTarget::Player(player) => ResolvedTargets::Player(*player),
            EffectTarget::AllCreatures => {
                let mut v = collect_filtered(&state.players[0].creatures, PlayerId(0), filter);
                let mut w = collect_filtered(&state.players[1].creatures, PlayerId(1), filter);
                v.append(&mut w);
                ResolvedTargets::Multiple(v)
            }
            EffectTarget::AllAllyCreatures(player) => {
                ResolvedTargets::Multiple(collect_filtered(&state.players[player.index()].creatures, *player, filter))
            }
            EffectTarget::AllEnemyCreatures(player) => {
                let enemy = player.opponent();
                ResolvedTargets::Multiple(collect_filtered(&state.players[enemy.index()].creatures, enemy, filter))
            }
            EffectTarget::TriggerSource | EffectTarget::NoTarget => ResolvedTargets::NoTargets,
        }
    }

    /// Call `callback` once for each creature position the target names,
    /// in order (a player or no target calls nothing).
    pub fn for_each_creature<F: Fn(PlayerId, Slot)>(target: &EffectTarget, filter: Option<&CreatureFilter>, state: &GameState,
        callback: F)
        requires
            target_wf(*target),
            forall|o: PlayerId, s: Slot| #[trigger] callback.requires((o, s)),
    {
        let positions = Self::collect_creature_targets(target, filter, state);
        let mut i: usize = 0;
        while i < positions.len()
            invariant
                i <= positions@.len(),
                forall|o: PlayerId, s: Slot| #[trigger] callback.requires((o, s)),
            decreases positions@.len() - i,
        {
            let (o, s) = positions[i];
            callback(o, s);
            i = i + 1;
        }
    }

    /// Resolve a target and collect the creature positions it names.
    pub fn collect_creature_targets(target: &EffectTarget, filter: Option<&CreatureFilter>, state: &GameState)
        -> (r: Vec<(PlayerId, Slot)>)
        requires
            target_wf(*target),
        ensures
            r@ == target_positions(*target, deref_filter(filter), *state),
    {
        let t = Self::resolve(target, filter, state);
        let ghost tg = t;
        match t {
            ResolvedTargets::Single { owner, slot } => {
                let v = vec![(owner, slot)];
                proof {
                    assert(v@ =~= seq![(owner, slot)]);
                }
                v
            }
            ResolvedTargets::Multiple(creatures) => {
                proof { assert(resolves_to(*target, deref_filter(filter), *state, ResolvedTargets::Multiple(creatures))); }
                creatures
            }
            ResolvedTargets::Player(p) => {
                proof { assert(resolves_to(*target, deref_filter(filter), *state, ResolvedTargets::Player(p))); }
                Vec::new()
            }
            ResolvedTargets::NoTargets => {
                proof { assert(resolves_to(*target, deref_filter(filter), *state, ResolvedTargets::NoTargets)); }
                Vec::new()
            }
        }
    }
}

/// The state effect handlers work on: the game, the card definitions, the
/// creatures marked for death, the accumulated result and the effect queue.
pub struct EffectContext<'a> {
    /// The game state to modify.
    pub state: GameState,
    /// Card definitions.
    pub card_db: &'a CardDatabase,
    /// Creatures marked for death (processed after each effect).
    pub pending_deaths: Vec<(PlayerId, Slot)>,
    /// What has happened so far (for conditional effects).
    pub accumulated_result: EffectResult,
    /// The effect queue, for triggered effects.
    pub queue: VecDeque<PendingEffect>,
}

impl<'a> EffectContext<'a> {
    /// Bundle the state an effect handler works on.
    pub fn new(
        state: GameState,
        card_db: &'a CardDatabase,
        pending_deaths: Vec<(PlayerId, Slot)>,
        accumulated_result: EffectResult,
        queue: VecDeque<PendingEffect>,
    ) -> (r: Self)
        ensures
            r.state == state,
            r.card_db == card_db,
            r.pending_deaths == pending_deaths,
            r.accumulated_result == accumulated_result,
            r.queue == queue,
    {
        EffectContext { state, card_db, pending_deaths, accumulated_result, queue }
    }

    /// Take the parts back out of the context.
    pub fn into_parts(self) -> (r: (GameState, Vec<(PlayerId, Slot)>, EffectResult, VecDeque<PendingEffect>))
        ensures
            r.0 == self.state,
            r.1 == self.pending_deaths,
            r.2 == self.accumulated_result,
            r.3 == self.queue,
    {
        (self.state, self.pending_deaths, self.accumulated_result, self.queue)
    }

    /// Mark a creature for death, once; marking sets `target_died`.
    pub fn mark_for_death(&mut self, owner: PlayerId, slot: Slot)
        ensures
            final(self).pending_deaths@ == (if old(self).pending_deaths@.contains((owner, slot)) {
                old(self).pending_deaths@
            } else {
                old(self).pending_deaths@.push((owner, slot))
            }),
            final(self).accumulated_result == (if old(self).pending_deaths@.contains((owner, slot)) {
                old(self).accumulated_result
            } else {
                crate::gamecore::effects::EffectResult { target_died: true, ..old(self).accumulated_result }
            }),
            final(self).state == old(self).state,
            final(self).queue@ == old(self).queue@,
            final(self).card_db == old(self).card_db,
    {
        if !self.is_marked_for_death(owner, slot) {
            self.pending_deaths.push((owner, slot));
            self.accumulated_result.target_died = true;
        }
    }

    /// Whether a creature is already marked for death.
    pub fn is_marked_for_death(&self, owner: PlayerId, slot: Slot) -> (r: bool)
        ensures
            r == self.pending_deaths@.contains((owner, slot)),
    {
        let mut i: usize = 0;
        while i < self.pending_deaths.len()
            invariant
                i <= self.pending_deaths@.len(),
                forall|j: int| 0 <= j < i ==> self.pending_deaths@[j] != (owner, slot),
            decreases self.pending_deaths@.len() - i,
        {
            let (o, s) = self.pending_deaths[i];
            if o == owner && s == slot {
                proof { assert(self.pending_deaths@[i as int] == (owner, slot)); }
                return true;
            }
            i = i + 1;
        }
        false
    }

    /// Queue a further effect.
    pub fn push_effect(&mut self, effect: Effect, source: EffectSource)
        ensures
            final(self).queue@ == old(self).queue@.push(PendingEffect { effect, source }),
            final(self).state == old(self).state,
            final(self).pending_deaths@ == old(self).pending_deaths@,
            final(self).accumulated_result == old(self).accumulated_result,
            final(self).card_db == old(self).card_db,
    {
        self.queue.push_back(PendingEffect::new(effect, source));
    }

    /// The creatures marked for death.
    pub fn pending_deaths(&self) -> (r: &[(PlayerId, Slot)])
        ensures
            r@ == self.pending_deaths@,
    {
        self.pending_deaths.as_slice()
    }

    /// The accumulated result.
    pub fn accumulated_result(&self) -> (r: &EffectResult)
        ensures
            *r == self.accumulated_result,
    {
        &self.accumulated_result
    }
}

/// Whether every player id inside an effect names a seat.
pub open spec fn effect_wf(e: Effect) -> bool {
    match e {
        Effect::Damage { target, .. } => target_wf(target),
        Effect::Heal { target, .. } => target_wf(target),
        Effect::Draw { player, .. } => player.valid(),
        Effect::BuffStats { target, .. } => target_wf(target),
        Effect::SetStats { target, .. } => target_wf(target),
        Effect::Destroy { target, .. } => target_wf(target),
        Effect::Summon { owner, slot, .. } => owner.valid() && (slot matches Some(s) ==> s.0 < 5),
        Effect::SummonToken { owner, slot, .. } => owner.valid() && (slot matches Some(s) ==> s.0 < 5),
        Effect::Transform { target, .. } => target_wf(target),
        Effect::Copy { target, owner } => target_wf(target) && owner.valid(),
        Effect::GrantKeyword { target, .. } => target_wf(target),
        Effect::RemoveKeyword { target, .. } => target_wf(target),
        Effect::Silence { target, .. } => target_wf(target),
        Effect::GainEssence { player, .. } => player.valid(),
        Effect::RefreshCreature { target } => target_wf(target),
        Effect::Bounce { target, .. } => target_wf(target),
        Effect::DestroySelf { owner, .. } => owner.valid(),
    }
}

/// Whether every player id inside an effect source names a seat.
pub open spec fn source_wf(s: EffectSource) -> bool {
    match s {
        EffectSource::Creature { owner, .. } => owner.valid(),
        EffectSource::Support { owner, .. } => owner.valid(),
        EffectSource::Commander { owner } => owner.valid(),
        _ => true,
    }
}

/// A pending effect whose player ids all name seats.
pub open spec fn pending_wf(p: PendingEffect) -> bool {
    effect_wf(p.effect) && source_wf(p.source)
}

/// Every queued effect is well formed.
pub open spec fn queue_wf(q: Seq<PendingEffect>) -> bool {
    forall|j: int| 0 <= j < q.len() ==> pending_wf(#[trigger] q[j])
}

/// Every creature marked for death belongs to a seat.
pub open spec fn deaths_wf(d: Seq<(PlayerId, Slot)>) -> bool {
    forall|j: int| 0 <= j < d.len() ==> (#[trigger] d[j]).0.valid()
}

impl<'a> EffectContext<'a> {
    /// The context is consistent: a valid active player, well-formed queued
    /// effects and death marks.
    pub open spec fn wf(&self) -> bool {
        &&& self.state.wf()
        &&& queue_wf(self.queue@)
        &&& deaths_wf(self.pending_deaths@)
    }
}

/// How a context may evolve while an effect is applied: it stays well
/// formed, the card database, the active player, the turn and the game mode
/// are the same, queued effects and death marks are only appended to, and a
/// recorded death stays recorded.
pub open spec fn ctx_evolves(pre: EffectContext, post: EffectContext) -> bool {
    &&& post.wf()
    &&& post.card_db == pre.card_db
    &&& post.state.active_player == pre.state.active_player
    &&& post.state.current_turn == pre.state.current_turn
    &&& post.state.game_mode == pre.state.game_mode
    &&& post.queue@.len() >= pre.queue@.len()
    &&& post.queue@.subrange(0, pre.queue@.len() as int) == pre.queue@
    &&& post.pending_deaths@.len() >= pre.pending_deaths@.len()
    &&& post.pending_deaths@.subrange(0, pre.pending_deaths@.len() as int) == pre.pending_deaths@
    &&& (pre.accumulated_result.target_died ==> post.accumulated_result.target_died)
}

/// Context evolution is reflexive.
pub proof fn lemma_ctx_evolves_refl(c: EffectContext)
    requires
        c.wf(),
    ensures
        ctx_evolves(c, c),
{
    assert(c.queue@.subrange(0, c.queue@.len() as int) =~= c.queue@);
    assert(c.pending_deaths@.subrange(0, c.pending_deaths@.len() as int) =~= c.pending_deaths@);
}

/// Context evolution is transitive.
pub proof fn lemma_ctx_evolves_trans(a: EffectContext, b: EffectContext, c: EffectContext)
    requires
        ctx_evolves(a, b),
        ctx_evolves(b, c),
    ensures
        ctx_evolves(a, c),
{
    assert(c.queue@.subrange(0, a.queue@.len() as int) =~= c.queue@.subrange(0, b.queue@.len() as int).subrange(0, a.queue@.len() as int));
    assert(c.pending_deaths@.subrange(0, a.pending_deaths@.len() as int)
        =~= c.pending_deaths@.subrange(0, b.pending_deaths@.len() as int).subrange(0, a.pending_deaths@.len() as int));
}

} // verus!
