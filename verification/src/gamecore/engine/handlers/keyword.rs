//! Keyword changes: grant, remove, silence.

use vstd::prelude::*;
use crate::gamecore::effects::{CreatureFilter, EffectTarget, filter_admits, optional_filter_admits};
use crate::gamecore::engine::effect_context::{EffectContext, deref_filter, target_wf, lemma_ctx_evolves_refl};
use crate::gamecore::engine::handlers::{EffectHandler, board_step, boards, lemma_boards_after_one, boards_after};
use crate::gamecore::engine::triggers::same_but_boards;
use crate::gamecore::keywords::Keywords;
use crate::gamecore::state::{Creature, CreatureStatus, find_creature_index};
use crate::gamecore::types::{PlayerId, Slot};

verus! {

/// A creature with keyword bits `k` added (`grant`) or removed.
pub open spec fn keyword_changed(c: Creature, k: u16, grant: bool) -> Creature {
    Creature { keywords: Keywords(if grant { c.keywords.0 | k } else { c.keywords.0 & !k }), ..c }
}

/// The keyword change as a function on creatures.
pub open spec fn keyword_fn(k: u16, grant: bool) -> spec_fn(Creature) -> Creature {
    |c: Creature| keyword_changed(c, k, grant)
}

/// A board with `g` applied to every creature the filter admits.
pub open spec fn map_admitted(b: Seq<Creature>, f: Option<CreatureFilter>, g: spec_fn(Creature) -> Creature) -> Seq<Creature> {
    Seq::new(b.len(), |i: int| if filter_admits(f, b[i].current_health, b[i].keywords.0) { g(b[i]) } else { b[i] })
}

/// Both boards after a keyword change on a target: the first creature at a
/// single target's slot, or every admitted creature of the sides an area
/// target covers.
pub open spec fn keyword_boards(t: EffectTarget, f: Option<CreatureFilter>, b: (Seq<Creature>, Seq<Creature>),
    g: spec_fn(Creature) -> Creature) -> (Seq<Creature>, Seq<Creature>)
{
    match t {
        EffectTarget::Creature { owner, slot } => board_step(b, (owner, slot), g),
        EffectTarget::AllCreatures => (map_admitted(b.0, f, g), map_admitted(b.1, f, g)),
        EffectTarget::AllAllyCreatures(p) =>
            if p.0 == 0 { (map_admitted(b.0, f, g), b.1) } else { (b.0, map_admitted(b.1, f, g)) },
        EffectTarget::AllEnemyCreatures(p) =>
            if p.0 == 0 { (b.0, map_admitted(b.1, f, g)) } else { (map_admitted(b.0, f, g), b.1) },
        _ => b,
    }
}

/// Add or remove keyword bits on every creature of a board the filter admits.
fn change_keywords_where(cs: &mut Vec<Creature>, filter: Option<&CreatureFilter>, k: u16, grant: bool)
    ensures
        final(cs)@ == map_admitted(old(cs)@, deref_filter(filter), keyword_fn(k, grant)),
{
    let ghost orig = cs@;
    let ghost g = keyword_fn(k, grant);
    let mut i: usize = 0;
    while i < cs.len()
        invariant
            i <= cs@.len(),
            cs@.len() == orig.len(),
            g == keyword_fn(k, grant),
            forall|j: int| 0 <= j < i ==> #[trigger] cs@[j] == (if filter_admits(deref_filter(filter), orig[j].current_health,
                orig[j].keywords.0) { g(orig[j]) } else { orig[j] }),
            forall|j: int| i <= j < cs@.len() ==> #[trigger] cs@[j] == orig[j],
        decreases cs@.len() - i,
    {
        let h = cs[i].current_health;
        let kw = cs[i].keywords.0;
        if optional_filter_admits(filter, h, kw) {
            if grant {
                cs[i].keywords.add(k);
            } else {
                cs[i].keywords.remove(k);
            }
        }
        i = i + 1;
    }
    proof {
        assert(cs@ =~= map_admitted(orig, deref_filter(filter), g));
    }
}

/// Apply a keyword change to the target's creatures.
fn change_keywords(ctx: &mut EffectContext, target: &EffectTarget, filter: Option<&CreatureFilter>, k: u16, grant: bool)
    requires
        old(ctx).wf(),
        target_wf(*target),
    ensures
        final(ctx).wf(),
        same_but_boards(old(ctx).state, final(ctx).state),
        boards(final(ctx).state) == keyword_boards(*target, deref_filter(filter), boards(old(ctx).state), keyword_fn(k, grant)),
        final(ctx).queue == old(ctx).queue,
        final(ctx).pending_deaths == old(ctx).pending_deaths,
        final(ctx).accumulated_result == old(ctx).accumulated_result,
        final(ctx).card_db == old(ctx).card_db,
{
    let ghost pre = *ctx;
    match target {
        EffectTarget::Creature { owner, slot } => {
            let o = owner.index();
            if let Some(idx) = find_creature_index(&ctx.state.players[o].creatures, *slot) {
                if grant {
                    ctx.state.players[o].creatures[idx].keywords.add(k);
                } else {
                    ctx.state.players[o].creatures[idx].keywords.remove(k);
                }
                proof {
                    assert(ctx.state.players[o as int].creatures@ =~= pre.state.players[o as int].creatures@.update(
                        idx as int, keyword_changed(pre.state.players[o as int].creatures@[idx as int], k, grant)));
                }
            }
        }
        EffectTarget::AllCreatures => {
            change_keywords_where(&mut ctx.state.players[0].creatures, filter, k, grant);
            change_keywords_where(&mut ctx.state.players[1].creatures, filter, k, grant);
        }
        EffectTarget::AllAllyCreatures(p) => {
            change_keywords_where(&mut ctx.state.players[p.index()].creatures, filter, k, grant);
        }
        EffectTarget::AllEnemyCreatures(p) => {
            let e = p.opponent();
            change_keywords_where(&mut ctx.state.players[e.index()].creatures, filter, k, grant);
        }
        _ => {}
    }
}

/// Handler for GrantKeyword effects.
pub struct GrantKeywordHandler {
    pub target: EffectTarget,
    pub keyword: u16,
    pub filter: Option<CreatureFilter>,
}

impl EffectHandler for GrantKeywordHandler {
    open spec fn handler_wf(&self) -> bool {
        target_wf(self.target)
    }

    fn apply(&self, ctx: &mut EffectContext) -> (r: bool)
        ensures
            r,
            same_but_boards(old(ctx).state, final(ctx).state),
            boards(final(ctx).state) == keyword_boards(self.target, self.filter, boards(old(ctx).state),
                keyword_fn(self.keyword, true)),
            final(ctx).queue == old(ctx).queue,
            final(ctx).pending_deaths == old(ctx).pending_deaths,
    {
        proof { lemma_ctx_evolves_refl(*ctx); }
        change_keywords(ctx, &self.target, self.filter.as_ref(), self.keyword, true);
        proof { lemma_ctx_evolves_refl(*ctx); }
        true
    }
}

/// The targets a keyword removal affects: single creatures and all creatures.
pub open spec fn removal_target(t: EffectTarget) -> EffectTarget {
    match t {
        EffectTarget::Creature { .. } | EffectTarget::AllCreatures => t,
        _ => EffectTarget::NoTarget,
    }
}

/// Handler for RemoveKeyword effects (single creatures and all creatures).
pub struct RemoveKeywordHandler {
    pub target: EffectTarget,
    pub keyword: u16,
    pub filter: Option<CreatureFilter>,
}

impl EffectHandler for RemoveKeywordHandler {
    open spec fn handler_wf(&self) -> bool {
        target_wf(self.target)
    }

    fn apply(&self, ctx: &mut EffectContext) -> (r: bool)
        ensures
            r,
            same_but_boards(old(ctx).state, final(ctx).state),
            boards(final(ctx).state) == keyword_boards(removal_target(self.target), self.filter,
                boards(old(ctx).state), keyword_fn(self.keyword, false)),
            final(ctx).queue == old(ctx).queue,
            final(ctx).pending_deaths == old(ctx).pending_deaths,
    {
        proof { lemma_ctx_evolves_refl(*ctx); }
        match self.target {
            EffectTarget::Creature { .. } | EffectTarget::AllCreatures => {
                change_keywords(ctx, &self.target, self.filter.as_ref(), self.keyword, false);
            }
            _ => {}
        }
        proof { lemma_ctx_evolves_refl(*ctx); }
        true
    }
}

/// A silenced creature: no keywords, and the silenced flag set.
pub open spec fn silenced(c: Creature) -> Creature {
    Creature { keywords: Keywords(0), status: CreatureStatus(c.status.0 | CreatureStatus::SILENCED), ..c }
}

/// Silencing as a function on creatures.
pub open spec fn silence_fn() -> spec_fn(Creature) -> Creature {
    |c: Creature| silenced(c)
}

/// Handler for Silence effects (single creature targets only; the filter is
/// accepted but not used).
pub struct SilenceHandler {
    pub target: EffectTarget,
    pub filter: Option<CreatureFilter>,
}

impl EffectHandler for SilenceHandler {
    open spec fn handler_wf(&self) -> bool {
        target_wf(self.target)
    }

    fn apply(&self, ctx: &mut EffectContext) -> (r: bool)
        ensures
            r,
            same_but_boards(old(ctx).state, final(ctx).state),
            boards(final(ctx).state) == boards_after(boards(old(ctx).state),
                crate::gamecore::engine::handlers::single_position(self.target), silence_fn()),
            final(ctx).queue == old(ctx).queue,
            final(ctx).pending_deaths == old(ctx).pending_deaths,
    {
        proof { lemma_ctx_evolves_refl(*ctx); }
        let ghost pre = *ctx;
        if let EffectTarget::Creature { owner, slot } = self.target {
            proof { lemma_boards_after_one(boards(ctx.state), (owner, slot), silence_fn()); }
            let o = owner.index();
            if let Some(idx) = find_creature_index(&ctx.state.players[o].creatures, slot) {
                ctx.state.players[o].creatures[idx].keywords.clear();
                ctx.state.players[o].creatures[idx].status.set_silenced(true);
                proof {
                    assert(ctx.state.players[o as int].creatures@ =~= pre.state.players[o as int].creatures@.update(
                        idx as int, silenced(pre.state.players[o as int].creatures@[idx as int])));
                }
            }
        } else {
            proof {
                assert(crate::gamecore::engine::handlers::single_position(self.target) =~= Seq::<(PlayerId, Slot)>::empty());
            }
        }
        proof { lemma_ctx_evolves_refl(*ctx); }
        true
    }
}

} // verus!
