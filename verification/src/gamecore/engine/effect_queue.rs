//! The effect queue: effects resolve first in, first out; an effect that
//! triggers another puts it at the back.

use vstd::prelude::*;
use std::collections::VecDeque;
use crate::gamecore::cards::CardDatabase;
use crate::gamecore::effects::{Effect, EffectResult, EffectSource, EffectTarget, PendingEffect};
use crate::gamecore::engine::effect_context::{
    EffectContext, ctx_evolves, deaths_wf, effect_wf, pending_wf, queue_wf,
};
use crate::gamecore::engine::handlers::create_handler;
use crate::gamecore::engine::triggers::process_deaths;
use crate::gamecore::keywords::Keywords;
use crate::gamecore::state::{Creature, GameState, find_creature_index, slot_index};
use crate::gamecore::tracing::effect_tracer::{EffectTracer, effect_printable};
use crate::gamecore::types::{PlayerId, Slot};

verus! {

/// The most effects one resolution processes; a cascade of triggers that
/// keeps queueing effects stops there.
pub const MAX_EFFECTS_PER_RESOLUTION: usize = 10000;

/// Effects waiting to resolve, the creatures marked for death and what the
/// resolution has produced so far.
pub struct EffectQueue {
    queue: VecDeque<PendingEffect>,
    pending_deaths: Vec<(PlayerId, Slot)>,
    accumulated_result: EffectResult,
}

/// The creature a single-target effect aims at, for Ward.
pub open spec fn single_target_of(e: Effect) -> Option<(PlayerId, Slot)> {
    match e {
        Effect::Damage { target: EffectTarget::Creature { owner, slot }, .. }
        | Effect::Heal { target: EffectTarget::Creature { owner, slot }, .. }
        | Effect::BuffStats { target: EffectTarget::Creature { owner, slot }, .. }
        | Effect::SetStats { target: EffectTarget::Creature { owner, slot }, .. }
        | Effect::Destroy { target: EffectTarget::Creature { owner, slot }, .. }
        | Effect::GrantKeyword { target: EffectTarget::Creature { owner, slot }, .. }
        | Effect::RemoveKeyword { target: EffectTarget::Creature { owner, slot }, .. }
        | Effect::Silence { target: EffectTarget::Creature { owner, slot }, .. }
        | Effect::Bounce { target: EffectTarget::Creature { owner, slot }, .. }
        | Effect::Transform { target: EffectTarget::Creature { owner, slot }, .. } => Some((owner, slot)),
        _ => None,
    }
}

/// Whether Ward can block an effect of this kind.
pub open spec fn wardable(e: Effect) -> bool {
    !(e is Draw || e is GainEssence || e is Summon || e is SummonToken || e is DestroySelf)
}

/// Whether the creature at (`owner`, `slot`) has Ward.
pub open spec fn has_ward_at(s: GameState, owner: PlayerId, slot: Slot) -> bool {
    let b = s.players[owner.0 as int].creatures@;
    let k = slot_index(b, slot);
    k >= 0 && b[k].keywords.spec_has(Keywords::WARD)
}

/// `post` is `pre` with the Ward of the creature at (`owner`, `slot`) used up.
pub open spec fn ward_consumed(pre: GameState, post: GameState, owner: PlayerId, slot: Slot) -> bool {
    let b = pre.players[owner.0 as int].creatures@;
    let k = slot_index(b, slot);
    &&& post == GameState { players: post.players, ..pre }
    &&& post.players[owner.spec_opponent().0 as int] == pre.players[owner.spec_opponent().0 as int]
    &&& post.players[owner.0 as int] == crate::gamecore::state::PlayerState {
            creatures: post.players[owner.0 as int].creatures, ..pre.players[owner.0 as int]
        }
    &&& post.players[owner.0 as int].creatures@ == b.update(k, Creature {
            keywords: Keywords(b[k].keywords.0 & !Keywords::WARD), ..b[k]
        })
}

/// Effects keep the active player, the turn and the game mode.
pub open spec fn same_turn(a: GameState, b: GameState) -> bool {
    &&& b.active_player == a.active_player
    &&& b.current_turn == a.current_turn
    &&& b.game_mode == a.game_mode
}

/// `(s1, q1)` is what resolving the queue `q0` on `s0` may give: a
/// well-formed state of the same turn and an empty queue; with nothing
/// queued, nothing changes.
pub open spec fn resolved(s0: GameState, q0: EffectQueue, s1: GameState, q1: EffectQueue) -> bool {
    &&& s1.wf()
    &&& q1.wf()
    &&& q1.pending().len() == 0
    &&& same_turn(s0, s1)
    &&& q0.pending().len() == 0 ==> s1 == s0 && q1 == q0
}

/// Effects whose player ids name seats can be printed.
pub proof fn lemma_wf_printable(e: Effect)
    requires
        effect_wf(e),
    ensures
        effect_printable(e),
{
}

/// Whether an effect is stopped by Ward in a state.
pub open spec fn blocked_by_ward_in(s: GameState, e: Effect) -> bool {
    wardable(e) && (single_target_of(e) matches Some((o, sl)) && has_ward_at(s, o, sl))
}

impl EffectQueue {
    /// The effects waiting, front first.
    pub closed spec fn pending(&self) -> Seq<PendingEffect> {
        self.queue@
    }

    /// The creatures marked for death and not yet processed.
    pub closed spec fn deaths(&self) -> Seq<(PlayerId, Slot)> {
        self.pending_deaths@
    }

    /// What the resolution has produced so far.
    pub closed spec fn result(&self) -> EffectResult {
        self.accumulated_result
    }

    /// Every waiting effect and death mark names seats only.
    pub closed spec fn wf(&self) -> bool {
        queue_wf(self.queue@) && deaths_wf(self.pending_deaths@)
    }

    /// An empty queue.
    pub fn new() -> (r: EffectQueue)
        ensures
            r.wf(),
            r.pending().len() == 0,
            r.deaths().len() == 0,
            r.result().target_died == false,
    {
        EffectQueue { queue: VecDeque::new(), pending_deaths: Vec::new(), accumulated_result: EffectResult::none() }
    }

    /// Forget what earlier resolutions produced.
    pub fn reset_accumulated_result(&mut self)
        requires
            old(self).wf(),
        ensures
            final(self).wf(),
            final(self).result().target_died == false,
            final(self).pending() == old(self).pending(),
            final(self).deaths() == old(self).deaths(),
    {
        self.accumulated_result = EffectResult::none();
    }

    /// What the resolution has produced so far.
    pub fn accumulated_result(&self) -> (r: &EffectResult)
        ensures
            *r == self.result(),
    {
        &self.accumulated_result
    }

    /// Queue an effect at the back.
    pub fn push(&mut self, effect: Effect, source: EffectSource)
        requires
            old(self).wf(),
            pending_wf(PendingEffect { effect, source }),
        ensures
            final(self).wf(),
            final(self).pending() == old(self).pending().push(PendingEffect { effect, source }),
            final(self).deaths() == old(self).deaths(),
            final(self).result() == old(self).result(),
    {
        self.queue.push_back(PendingEffect::new(effect, source));
    }

    /// Queue a pending effect at the back.
    pub fn push_pending(&mut self, pending: PendingEffect)
        requires
            old(self).wf(),
            pending_wf(pending),
        ensures
            final(self).wf(),
            final(self).pending() == old(self).pending().push(pending),
            final(self).deaths() == old(self).deaths(),
            final(self).result() == old(self).result(),
    {
        self.queue.push_back(pending);
    }

    /// Queue several effects at the back, in order.
    pub fn push_all(&mut self, effects: Vec<PendingEffect>)
        requires
            old(self).wf(),
            queue_wf(effects@),
        ensures
            final(self).wf(),
            final(self).pending() == old(self).pending() + effects@,
            final(self).deaths() == old(self).deaths(),
            final(self).result() == old(self).result(),
    {
        let mut effects = effects;
        let ghost all = effects@;
        let ghost start = self.queue@;
        let mut rest: Vec<PendingEffect> = Vec::new();
        std::mem::swap(&mut rest, &mut effects);
        let mut i: usize = 0;
        let n = rest.len();
        let mut q = VecDeque::new();
        std::mem::swap(&mut q, &mut self.queue);
        while rest.len() > 0
            invariant
                queue_wf(all),
                queue_wf(q@),
                rest@ == all.subrange(i as int, all.len() as int),
                q@ == start + all.subrange(0, i as int),
                i <= n,
                n == all.len(),
            decreases rest@.len(),
        {
            let e = rest.remove(0);
            proof {
                assert(all.subrange(i as int, all.len() as int)[0] == all[i as int]);
            }
            q.push_back(e);
            proof {
                assert(all.subrange(0, i + 1) =~= all.subrange(0, i as int).push(all[i as int]));
                assert(q@ =~= start + all.subrange(0, i + 1));
                assert(rest@ =~= all.subrange(i + 1, all.len() as int));
                assert forall|j: int| 0 <= j < q@.len() implies pending_wf(#[trigger] q@[j]) by {
                    if j < start.len() {
                        assert(q@[j] == start[j]);
                    } else {
                        assert(q@[j] == all[j - start.len()]);
                    }
                }
            }
            i = i + 1;
        }
        proof { assert(all.subrange(0, all.len() as int) =~= all); }
        self.queue = q;
    }

    /// Whether no effect is waiting.
    pub fn is_empty(&self) -> (r: bool)
        ensures
            r == (self.pending().len() == 0),
    {
        self.queue.len() == 0
    }

    /// The number of effects waiting.
    pub fn len(&self) -> (r: usize)
        ensures
            r == self.pending().len(),
    {
        self.queue.len()
    }

    /// Use up the Ward of the creature at (`owner`, `slot`), if it has one;
    /// true when Ward was used up (the effect is blocked).
    fn check_and_consume_ward(state: &mut GameState, owner: PlayerId, slot: Slot) -> (r: bool)
        requires
            owner.valid(),
        ensures
            r == has_ward_at(*old(state), owner, slot),
            r ==> ward_consumed(*old(state), *final(state), owner, slot),
            !r ==> *final(state) == *old(state),
    {
        let o = owner.index();
        match find_creature_index(&state.players[o].creatures, slot) {
            Some(idx) => {
                if state.players[o].creatures[idx].keywords.has_ward() {
                    let ghost pre = *state;
                    state.players[o].creatures[idx].keywords.remove(Keywords::WARD);
                    proof {
                        let b = pre.players[o as int].creatures@;
                        assert(state.players[o as int].creatures@ =~= b.update(idx as int, Creature {
                            keywords: Keywords(b[idx as int].keywords.0 & !Keywords::WARD), ..b[idx as int]
                        }));
                    }
                    true
                } else {
                    false
                }
            }
            None => false,
        }
    }

    /// The creature a single-target effect aims at, for Ward.
    fn get_single_target_creature(effect: &Effect) -> (r: Option<(PlayerId, Slot)>)
        ensures
            r == single_target_of(*effect),
    {
        match effect {
            Effect::Damage { target: EffectTarget::Creature { owner, slot }, .. }
            | Effect::Heal { target: EffectTarget::Creature { owner, slot }, .. }
            | Effect::BuffStats { target: EffectTarget::Creature { owner, slot }, .. }
            | Effect::SetStats { target: EffectTarget::Creature { owner, slot }, .. }
            | Effect::Destroy { target: EffectTarget::Creature { owner, slot }, .. }
            | Effect::GrantKeyword { target: EffectTarget::Creature { owner, slot }, .. }
            | Effect::RemoveKeyword { target: EffectTarget::Creature { owner, slot }, .. }
            | Effect::Silence { target: EffectTarget::Creature { owner, slot }, .. }
            | Effect::Bounce { target: EffectTarget::Creature { owner, slot }, .. }
            | Effect::Transform { target: EffectTarget::Creature { owner, slot }, .. } => Some((*owner, *slot)),
            _ => None,
        }
    }

    /// Resolve one effect: Ward on its single target blocks it (and is used
    /// up); otherwise its handler applies it.
    fn resolve_effect(&mut self, pending: &PendingEffect, state: &mut GameState, card_db: &CardDatabase)
        requires
            old(self).wf(),
            old(state).wf(),
            pending_wf(*pending),
        ensures
            final(self).wf(),
            final(state).wf(),
            same_turn(*old(state), *final(state)),
            blocked_by_ward_in(*old(state), pending.effect) ==> {
                &&& ({
                    let (o, sl) = single_target_of(pending.effect)->0;
                    ward_consumed(*old(state), *final(state), o, sl)
                })
                &&& final(self).pending() == old(self).pending()
                &&& final(self).deaths() == old(self).deaths()
                &&& final(self).result() == old(self).result()
            },
            !blocked_by_ward_in(*old(state), pending.effect) ==> {
                &&& final(self).pending().len() >= old(self).pending().len()
                &&& final(self).pending().subrange(0, old(self).pending().len() as int) == old(self).pending()
                &&& final(self).deaths().len() >= old(self).deaths().len()
                &&& (old(self).result().target_died ==> final(self).result().target_died)
            },
    {
        let source_player = match pending.source {
            EffectSource::Card(_) => state.active_player,
            EffectSource::Creature { owner, .. } => owner,
            EffectSource::Support { owner, .. } => owner,
            EffectSource::Commander { owner } => owner,
            EffectSource::System => state.active_player,
        };
        let handler = create_handler(&pending.effect, source_player);
        if handler.blocked_by_ward() {
            if let Some((owner, slot)) = Self::get_single_target_creature(&pending.effect) {
                let ghost before_ward = *state;
                if Self::check_and_consume_ward(state, owner, slot) {
                    proof {
                        let b = before_ward.players[owner.0 as int].creatures@;
                        let k = slot_index(b, slot);
                        crate::gamecore::state::lemma_slot_index(b, slot);
                        if k >= 0 {
                            crate::gamecore::state::lemma_board_ok_update(b, k,
                                Creature { keywords: Keywords(b[k].keywords.0 & !Keywords::WARD), ..b[k] });
                        }
                    }
                    return;
                }
            }
        }
        let mut st = GameState::new();
        std::mem::swap(&mut st, state);
        let mut deaths: Vec<(PlayerId, Slot)> = Vec::new();
        std::mem::swap(&mut deaths, &mut self.pending_deaths);
        let mut q: VecDeque<PendingEffect> = VecDeque::new();
        std::mem::swap(&mut q, &mut self.queue);
        let mut ctx = EffectContext::new(st, card_db, deaths, self.accumulated_result, q);
        let ghost c0 = ctx;
        handler.apply(&mut ctx);
        let (st2, deaths2, result2, q2) = ctx.into_parts();
        *state = st2;
        self.pending_deaths = deaths2;
        self.accumulated_result = result2;
        self.queue = q2;
    }

    /// Process effects until the queue is empty, the game is over (the rest
    /// of the queue is dropped) or the cascade limit is reached; after each
    /// effect the creatures marked for death are processed.
    pub fn process_all(&mut self, state: &mut GameState, card_db: &CardDatabase)
        requires
            old(self).wf(),
            old(state).wf(),
        ensures
            final(self).wf(),
            final(state).wf(),
            same_turn(*old(state), *final(state)),
            final(self).deaths().len() == 0 || final(self).deaths() == old(self).deaths(),
            final(self).pending().len() == 0,
            old(self).pending().len() == 0 ==> *final(state) == *old(state) && *final(self) == *old(self),
            (old(self).result().target_died ==> final(self).result().target_died),
    {
        let mut silent = EffectTracer::new(false);
        let _ = self.process_effects(state, card_db, &mut silent);
    }

    /// `process_all`, recording the processing in `tracer` when given.
    pub fn process_all_with_tracer(&mut self, state: &mut GameState, card_db: &CardDatabase,
        tracer: Option<&mut EffectTracer>)
        requires
            old(self).wf(),
            old(state).wf(),
        ensures
            final(self).wf(),
            final(state).wf(),
            same_turn(*old(state), *final(state)),
            final(self).deaths().len() == 0 || final(self).deaths() == old(self).deaths(),
            final(self).pending().len() == 0,
            old(self).pending().len() == 0 ==> *final(state) == *old(state) && *final(self) == *old(self),
            (old(self).result().target_died ==> final(self).result().target_died),
    {
        match tracer {
            Some(t) => {
                let _ = self.process_effects(state, card_db, t);
            }
            None => {
                let mut silent = EffectTracer::new(false);
                let _ = self.process_effects(state, card_db, &mut silent);
            }
        }
    }

    /// The loop of `process_all`; returns how many effects were processed.
    /// The queue always ends empty: when the game ends, or when a chain of
    /// triggers reaches the limit of effects per resolution, what is left is
    /// discarded.
    fn process_effects(&mut self, state: &mut GameState, card_db: &CardDatabase, tracer: &mut EffectTracer) -> (n: usize)
        requires
            old(self).wf(),
            old(state).wf(),
        ensures
            final(self).wf(),
            final(state).wf(),
            same_turn(*old(state), *final(state)),
            n <= MAX_EFFECTS_PER_RESOLUTION,
            final(self).pending().len() == 0,
            n > 0 ==> final(self).deaths().len() == 0,
            n == 0 ==> *final(state) == *old(state) && *final(self) == *old(self),
            old(self).pending().len() == 0 ==> n == 0,
            final(state).spec_is_terminal() && n > 0 ==> final(self).pending().len() == 0,
            (old(self).result().target_died ==> final(self).result().target_died),
    {
        tracer.log_queue_start(self.queue.len());
        let mut processed: usize = 0;
        let mut done = false;
        let ghost s0 = *self;
        let ghost st0 = *state;
        while processed < MAX_EFFECTS_PER_RESOLUTION && self.queue.len() > 0 && !done
            invariant
                self.wf(),
                state.wf(),
                same_turn(st0, *state),
                processed <= MAX_EFFECTS_PER_RESOLUTION,
                processed > 0 ==> self.pending_deaths@.len() == 0,
                processed == 0 ==> *state == st0 && *self == s0 && !done,
                s0.queue@.len() == 0 ==> processed == 0,
                done ==> self.queue@.len() == 0,
                state.spec_is_terminal() && processed > 0 ==> self.queue@.len() == 0,
                (s0.accumulated_result.target_died ==> self.accumulated_result.target_died),
            decreases MAX_EFFECTS_PER_RESOLUTION - processed,
        {
                let ghost before = self.queue@;
            let pending = self.queue.pop_front().unwrap();
            proof {
                assert forall|j: int| 0 <= j < self.queue@.len() implies pending_wf(#[trigger] self.queue@[j]) by {
                    assert(self.queue@[j] == before[j + 1]);
                }
                assert(pending_wf(before[0]));
                lemma_wf_printable(pending.effect);
            }
            tracer.log_effect_start(&pending.effect, self.queue.len());
            self.resolve_effect(&pending, state, card_db);
            tracer.log_effect_complete(&pending.effect, Vec::new());
            processed = processed + 1;
            let ghost before_deaths = *state;
            let ghost d_before = self.pending_deaths@;
            process_deaths(&mut self.pending_deaths, state, card_db, &mut self.queue);
            proof {
                crate::gamecore::engine::triggers::lemma_boards_after_deaths_ok(before_deaths.players[0].creatures@,
                    before_deaths.players[1].creatures@, d_before);
                crate::gamecore::engine::triggers::lemma_same_but_boards_wf(before_deaths, *state);
            }
            if state.is_terminal() {
                self.queue.clear();
                done = true;
            }
        }
        if self.queue.len() > 0 {
            self.queue.clear();
        }
        tracer.log_queue_complete(processed);
        processed
    }

    /// Queue commander effects, in order.
    pub fn push_commander_effects(&mut self, effects: Vec<(Effect, EffectSource)>, owner: PlayerId)
        requires
            old(self).wf(),
            owner.valid(),
            forall|j: int| 0 <= j < effects@.len() ==>
                (#[trigger] effects@[j]).1 == (EffectSource::Commander { owner }) && effect_wf(effects@[j].0),
        ensures
            final(self).wf(),
            final(self).pending() == old(self).pending() + crate::gamecore::engine::triggers::pendings_of(effects@),
            final(self).pending().len() == old(self).pending().len() + effects@.len(),
            final(self).pending().subrange(0, old(self).pending().len() as int) == old(self).pending(),
            final(self).deaths() == old(self).deaths(),
            final(self).result() == old(self).result(),
    {
        let ghost all = effects@;
        let mut effects = effects;
        let ghost q0 = self.queue@;
        let ghost n = effects@.len();
        while effects.len() > 0
            invariant
                self.wf(),
                owner.valid(),
                forall|j: int| 0 <= j < effects@.len() ==>
                    (#[trigger] effects@[j]).1 == (EffectSource::Commander { owner }) && effect_wf(effects@[j].0),
                self.queue@.len() + effects@.len() == q0.len() + n,
                effects@.len() <= n,
                self.queue@.subrange(0, q0.len() as int) == q0,
                self.pending_deaths@ == old(self).pending_deaths@,
                self.accumulated_result == old(self).accumulated_result,
                effects@ == all.subrange(all.len() - effects@.len(), all.len() as int),
                n == all.len(),
                self.queue@ == q0 + crate::gamecore::engine::triggers::pendings_of(all.subrange(0, all.len() - effects@.len())),
            decreases effects@.len(),
        {
            let ghost rest = effects@;
            let ghost k = all.len() - effects@.len();
            let (effect, source) = effects.remove(0);
            proof {
                assert(rest[0] == (effect, source));
                assert(all[k] == rest[0]);
                assert(effects@ =~= all.subrange(all.len() - effects@.len(), all.len() as int));
                assert(crate::gamecore::engine::triggers::pendings_of(all.subrange(0, k + 1))
                    =~= crate::gamecore::engine::triggers::pendings_of(all.subrange(0, k)).push(PendingEffect { effect, source }));
                assert forall|j: int| 0 <= j < effects@.len() implies
                    (#[trigger] effects@[j]).1 == (EffectSource::Commander { owner }) && effect_wf(effects@[j].0) by {
                    assert(effects@[j] == rest[j + 1]);
                }
            }
            let ghost before = self.queue@;
            self.push(effect, source);
            proof {
                assert(self.queue@.subrange(0, q0.len() as int) =~= before.subrange(0, q0.len() as int));
            }
        }
        proof { assert(all.subrange(0, all.len() as int) =~= all); }
    }
}

} // verus!
