//! The context an action executes in.

use vstd::prelude::*;
use crate::gamecore::cards::CardDatabase;
use crate::gamecore::engine::effect_queue::{EffectQueue, resolved, same_turn};
use crate::gamecore::state::GameState;
use crate::gamecore::tracing::effect_tracer::EffectTracer;

verus! {

/// The game, the card definitions, the effect queue and an optional effect
/// tracer, bundled for executing one action.
pub struct ActionContext<'a> {
    pub state: GameState,
    pub card_db: &'a CardDatabase,
    pub effect_queue: EffectQueue,
    pub tracer: Option<EffectTracer>,
}

impl<'a> ActionContext<'a> {
    /// The game and the queue are consistent.
    pub open spec fn wf(&self) -> bool {
        self.state.wf() && self.effect_queue.wf()
    }

    /// Bundle the parts an action works on.
    pub fn new(state: GameState, card_db: &'a CardDatabase, effect_queue: EffectQueue, tracer: Option<EffectTracer>)
        -> (r: ActionContext<'a>)
        ensures
            r.state == state,
            r.card_db == card_db,
            r.effect_queue == effect_queue,
            r.tracer == tracer,
    {
        ActionContext { state, card_db, effect_queue, tracer }
    }

    /// Take the parts back out.
    pub fn into_parts(self) -> (r: (GameState, EffectQueue, Option<EffectTracer>))
        ensures
            r.0 == self.state,
            r.1 == self.effect_queue,
            r.2 == self.tracer,
    {
        (self.state, self.effect_queue, self.tracer)
    }

    /// Resolve the queued effects (recording them when a tracer is present).
    pub fn process_effects(&mut self)
        requires
            old(self).wf(),
        ensures
            final(self).wf(),
            same_turn(old(self).state, final(self).state),
            final(self).card_db == old(self).card_db,
            final(self).state.spec_is_terminal() ==> final(self).effect_queue.pending().len() == 0,
            (old(self).effect_queue.result().target_died ==> final(self).effect_queue.result().target_died),
            final(self).tracer is Some <==> old(self).tracer is Some,
            resolved(old(self).state, old(self).effect_queue, final(self).state, final(self).effect_queue),
    {
        let t = self.tracer.take();
        match t {
            Some(tr) => {
                let mut tr = tr;
                self.effect_queue.process_all_with_tracer(&mut self.state, self.card_db, Some(&mut tr));
                self.tracer = Some(tr);
            }
            None => {
                self.effect_queue.process_all(&mut self.state, self.card_db);
            }
        }
    }

    /// Resolve the queued effects (same as `process_effects`).
    pub fn process_effects_reborrow(&mut self)
        requires
            old(self).wf(),
        ensures
            final(self).wf(),
            same_turn(old(self).state, final(self).state),
            final(self).card_db == old(self).card_db,
            final(self).state.spec_is_terminal() ==> final(self).effect_queue.pending().len() == 0,
            (old(self).effect_queue.result().target_died ==> final(self).effect_queue.result().target_died),
            final(self).tracer is Some <==> old(self).tracer is Some,
            resolved(old(self).state, old(self).effect_queue, final(self).state, final(self).effect_queue),
    {
        self.process_effects();
    }
}

} // verus!
