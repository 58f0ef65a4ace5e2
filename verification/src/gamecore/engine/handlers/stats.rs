//! Stat changes: buffs, debuffs and setting stats.

use vstd::prelude::*;
use crate::gamecore::arith::{clamp_i8, sat_add_i8};
use crate::gamecore::effects::{CreatureFilter, EffectTarget};
use crate::gamecore::engine::effect_context::{
    EffectContext, TargetResolver, ctx_evolves, lemma_ctx_evolves_refl, lemma_ctx_evolves_trans, target_wf,
    target_positions,
};
use crate::gamecore::engine::handlers::{
    EffectHandler, boards, boards_after, lemma_boards_after_one, lemma_boards_after_step, single_position,
    lemma_target_positions_valid, lemma_mark_for_death_evolves,
};
use crate::gamecore::engine::triggers::{same_but_boards, lemma_same_but_boards_trans};
use crate::gamecore::state::{Creature, find_creature_index};
use crate::gamecore::types::{PlayerId, Slot};

verus! {

/// A creature after a stat change: attack and health move by the given
/// amounts (saturating), health not below 0, and a positive health change
/// raises the maximum too.
pub open spec fn buffed(c: Creature, attack: i8, health: i8) -> Creature {
    let h = clamp_i8(c.current_health + health);
    Creature {
        attack: clamp_i8(c.attack + attack),
        current_health: if h < 0 { 0 } else { h },
        max_health: if health > 0 { clamp_i8(c.max_health + health) } else { c.max_health },
        ..c
    }
}

/// The stat change as a function on creatures.
pub open spec fn buff_fn(attack: i8, health: i8) -> spec_fn(Creature) -> Creature {
    |c: Creature| buffed(c, attack, health)
}

/// A creature with its stats set: attack, health and maximum health take the
/// given values (read as signed bytes).
pub open spec fn stats_set(c: Creature, attack: u8, health: u8) -> Creature {
    Creature { attack: attack as i8, current_health: health as i8, max_health: health as i8, ..c }
}

/// Setting stats as a function on creatures.
pub open spec fn set_fn(attack: u8, health: u8) -> spec_fn(Creature) -> Creature {
    |c: Creature| stats_set(c, attack, health)
}

/// Buff the creature at (`owner`, `slot`), if any; one whose health drops to
/// 0 is marked for death.
pub fn buff_creature(ctx: &mut EffectContext, owner: PlayerId, slot: Slot, attack: i8, health: i8)
    requires
        old(ctx).wf(),
        owner.valid(),
    ensures
        ctx_evolves(*old(ctx), *final(ctx)),
        same_but_boards(old(ctx).state, final(ctx).state),
        boards(final(ctx).state) == boards_after(boards(old(ctx).state), seq![(owner, slot)], buff_fn(attack, health)),
        final(ctx).queue@ == old(ctx).queue@,
{
    proof {
        lemma_ctx_evolves_refl(*ctx);
        lemma_boards_after_one(boards(ctx.state), (owner, slot), buff_fn(attack, health));
    }
    let ghost pre = *ctx;
    let o = owner.index();
    if let Some(idx) = find_creature_index(&ctx.state.players[o].creatures, slot) {
        let a = sat_add_i8(ctx.state.players[o].creatures[idx].attack, attack);
        let h = sat_add_i8(ctx.state.players[o].creatures[idx].current_health, health);
        let nh: i8 = if h < 0 { 0 } else { h };
        let m = if health > 0 {
            sat_add_i8(ctx.state.players[o].creatures[idx].max_health, health)
        } else {
            ctx.state.players[o].creatures[idx].max_health
        };
        ctx.state.players[o].creatures[idx].attack = a;
        ctx.state.players[o].creatures[idx].current_health = nh;
        ctx.state.players[o].creatures[idx].max_health = m;
        proof {
            assert(ctx.state.players[o as int].creatures@ =~= pre.state.players[o as int].creatures@.update(idx as int,
                buffed(pre.state.players[o as int].creatures@[idx as int], attack, health)));
        }
        if nh == 0 {
            let ghost mid = *ctx;
            ctx.mark_for_death(owner, slot);
            proof { lemma_mark_for_death_evolves(mid, *ctx, owner, slot); }
        }
    }
}

/// Handler for BuffStats effects.
pub struct BuffStatsHandler {
    pub target: EffectTarget,
    pub attack: i8,
    pub health: i8,
    pub filter: Option<CreatureFilter>,
}

impl EffectHandler for BuffStatsHandler {
    open spec fn handler_wf(&self) -> bool {
        target_wf(self.target)
    }

    fn apply(&self, ctx: &mut EffectContext) -> (r: bool)
        ensures
            r,
            same_but_boards(old(ctx).state, final(ctx).state),
            boards(final(ctx).state) == boards_after(boards(old(ctx).state),
                target_positions(self.target, self.filter, old(ctx).state), buff_fn(self.attack, self.health)),
            final(ctx).queue@ == old(ctx).queue@,
    {
        proof { lemma_ctx_evolves_refl(*ctx); }
        let ghost pre = *ctx;
        let ghost f = buff_fn(self.attack, self.health);
        let targets = TargetResolver::collect_creature_targets(&self.target, self.filter.as_ref(), &ctx.state);
        let ghost ps = targets@;
        proof {
            lemma_target_positions_valid(self.target, self.filter, pre.state);
            assert(ps.subrange(0, 0) =~= Seq::<(PlayerId, Slot)>::empty());
        }
        let mut i: usize = 0;
        while i < targets.len()
            invariant
                i <= ps.len(),
                targets@ == ps,
                f == buff_fn(self.attack, self.health),
                forall|j: int| 0 <= j < ps.len() ==> (#[trigger] ps[j]).0.valid(),
                ctx_evolves(pre, *ctx),
                same_but_boards(pre.state, ctx.state),
                ctx.queue@ == pre.queue@,
                boards(ctx.state) == boards_after(boards(pre.state), ps.subrange(0, i as int), f),
            decreases ps.len() - i,
        {
            let (owner, slot) = targets[i];
            let ghost mid = *ctx;
            proof { assert(ps[i as int] == (owner, slot)); }
            buff_creature(ctx, owner, slot, self.attack, self.health);
            proof {
                lemma_ctx_evolves_trans(pre, mid, *ctx);
                lemma_same_but_boards_trans(pre.state, mid.state, ctx.state);
                lemma_boards_after_step(boards(pre.state), ps, i as int, f);
                lemma_boards_after_one(boards(mid.state), (owner, slot), f);
            }
            i = i + 1;
        }
        proof { assert(ps.subrange(0, ps.len() as int) =~= ps); }
        true
    }
}

/// Handler for SetStats effects (single creature targets only).
pub struct SetStatsHandler {
    pub target: EffectTarget,
    pub attack: u8,
    pub health: u8,
}

impl EffectHandler for SetStatsHandler {
    open spec fn handler_wf(&self) -> bool {
        target_wf(self.target)
    }

    fn apply(&self, ctx: &mut EffectContext) -> (r: bool)
        ensures
            r,
            same_but_boards(old(ctx).state, final(ctx).state),
            boards(final(ctx).state) == boards_after(boards(old(ctx).state), single_position(self.target),
                set_fn(self.attack, self.health)),
            final(ctx).queue@ == old(ctx).queue@,
    {
        proof { lemma_ctx_evolves_refl(*ctx); }
        let ghost pre = *ctx;
        if let EffectTarget::Creature { owner, slot } = self.target {
            proof { lemma_boards_after_one(boards(ctx.state), (owner, slot), set_fn(self.attack, self.health)); }
            let o = owner.index();
            if let Some(idx) = find_creature_index(&ctx.state.players[o].creatures, slot) {
                let h = self.health as i8;
                ctx.state.players[o].creatures[idx].attack = self.attack as i8;
                ctx.state.players[o].creatures[idx].current_health = h;
                ctx.state.players[o].creatures[idx].max_health = h;
                proof {
                    assert(ctx.state.players[o as int].creatures@ =~= pre.state.players[o as int].creatures@.update(
                        idx as int, stats_set(pre.state.players[o as int].creatures@[idx as int], self.attack, self.health)));
                }
                if h <= 0 {
                    let ghost mid = *ctx;
                    ctx.mark_for_death(owner, slot);
                    proof { lemma_mark_for_death_evolves(mid, *ctx, owner, slot); }
                }
            }
        } else {
            proof { assert(single_position(self.target) =~= Seq::<(PlayerId, Slot)>::empty()); }
        }
        true
    }
}

} // verus!
