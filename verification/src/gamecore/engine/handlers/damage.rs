//! Damage and healing.

use vstd::prelude::*;
use crate::gamecore::arith::{clamp_i16, sat_add_i16, sat_add_u16, sat_sub_i16};
use crate::gamecore::effects::{CreatureFilter, EffectTarget, Trigger};
use crate::gamecore::engine::effect_context::{
    EffectContext, ResolvedTargets, TargetResolver, ctx_evolves, lemma_ctx_evolves_refl, lemma_ctx_evolves_trans,
    target_wf, target_positions, deref_filter, lemma_filtered_slots, area_positions, filtered_slots,
};
use crate::gamecore::engine::handlers::{EffectHandler, lemma_area_positions_valid, lemma_mark_for_death_evolves, apply_at, board_step, boards, boards_after, lemma_boards_after_one, lemma_boards_after_step};
use crate::gamecore::engine::triggers::{check_creature_triggers, same_but_boards, lemma_same_but_boards_trans};
use crate::gamecore::keywords::Keywords;
use crate::gamecore::state::{Creature, GameState, GamePhase, GameResult, WinReason, find_creature_index, slot_index};
use crate::gamecore::types::{PlayerId, Slot};

verus! {

/// Damage an effect deals after Fortify (one less, but at least one).
pub open spec fn fortified(c: Creature, amount: u8) -> int {
    if c.keywords.spec_has(Keywords::FORTIFY) && amount > 1 { amount - 1 } else { amount as int }
}

/// A creature after an effect deals `amount` damage to it: Shield absorbs
/// the hit and is removed; otherwise health drops (after Fortify) but not below 0.
pub open spec fn effect_damaged(c: Creature, amount: u8) -> Creature {
    if c.keywords.spec_has(Keywords::SHIELD) {
        Creature { keywords: Keywords(c.keywords.0 & !Keywords::SHIELD), ..c }
    } else {
        let h = c.current_health - fortified(c, amount);
        Creature { current_health: if h < 0 { 0 } else { h as i8 }, ..c }
    }
}

/// A creature after healing: health rises by `amount`, at most to its
/// maximum, and not below 0.
pub open spec fn healed(c: Creature, amount: u8) -> Creature {
    let h = c.current_health + amount;
    let capped = if h > c.max_health { c.max_health as int } else { h };
    Creature { current_health: if capped < 0 { 0 } else { capped as i8 }, ..c }
}

/// Law: effect damage never raises health: a Shield absorbs the whole hit
/// (health unchanged, Shield gone); otherwise the creature loses the amount
/// (one less with Fortify, but at least one), stopping at 0.
pub proof fn lemma_damage_lowers(c: Creature, amount: u8)
    requires
        0 <= c.current_health,
    ensures
        effect_damaged(c, amount).current_health <= c.current_health,
        0 <= effect_damaged(c, amount).current_health,
        c.keywords.spec_has(Keywords::SHIELD) ==> effect_damaged(c, amount).current_health == c.current_health
            && !effect_damaged(c, amount).keywords.spec_has(Keywords::SHIELD),
        !c.keywords.spec_has(Keywords::SHIELD) && !c.keywords.spec_has(Keywords::FORTIFY) && amount <= c.current_health
            ==> effect_damaged(c, amount).current_health == c.current_health - amount,
        !c.keywords.spec_has(Keywords::SHIELD) && c.keywords.spec_has(Keywords::FORTIFY) && 1 < amount <= c.current_health + 1
            ==> effect_damaged(c, amount).current_health == c.current_health - amount + 1,
        !c.keywords.spec_has(Keywords::SHIELD) && amount >= c.current_health + 2 ==> effect_damaged(c, amount).current_health == 0,
{
    crate::gamecore::keywords::lemma_remove_absent(c.keywords.0, Keywords::SHIELD);
}

/// Law: healing never takes a creature above its maximum health (when that
/// is not negative) nor below 0; with room, the full amount is restored,
/// otherwise the creature ends exactly at its maximum; nothing but the
/// current health changes.
pub proof fn lemma_heal_capped(c: Creature, amount: u8)
    ensures
        0 <= healed(c, amount).current_health,
        0 <= c.max_health ==> healed(c, amount).current_health <= c.max_health,
        0 <= c.current_health + amount <= c.max_health ==> healed(c, amount).current_health == c.current_health + amount,
        0 <= c.max_health < c.current_health + amount ==> healed(c, amount).current_health == c.max_health,
        healed(c, amount) == (Creature { current_health: healed(c, amount).current_health, ..c }),
{
}

/// Law: healing at a slot of a board changes at most the creature on that
/// slot, and only its health, which stays within 0 and its maximum.
pub proof fn lemma_heal_board(b: Seq<Creature>, slot: Slot, amount: u8)
    ensures
        crate::gamecore::engine::handlers::apply_at(b, slot, heal_fn(amount)).len() == b.len(),
        forall|j: int| 0 <= j < b.len() ==> {
            let r = #[trigger] crate::gamecore::engine::handlers::apply_at(b, slot, heal_fn(amount))[j];
            r != b[j] ==> {
                &&& b[j].slot == slot
                &&& 0 <= r.current_health
                &&& 0 <= b[j].max_health ==> r.current_health <= b[j].max_health
                &&& r == (Creature { current_health: r.current_health, ..b[j] })
            }
        },
{
    crate::gamecore::state::lemma_slot_index(b, slot);
    assert forall|j: int| 0 <= j < b.len() implies {
        let r = #[trigger] crate::gamecore::engine::handlers::apply_at(b, slot, heal_fn(amount))[j];
        r != b[j] ==> {
            &&& b[j].slot == slot
            &&& 0 <= r.current_health
            &&& 0 <= b[j].max_health ==> r.current_health <= b[j].max_health
            &&& r == (Creature { current_health: r.current_health, ..b[j] })
        }
    } by {
        crate::gamecore::state::lemma_slot_index(b, slot);
        lemma_heal_capped(b[j], amount);
    }
}

/// The damage step as a function on creatures.
pub open spec fn damage_fn(amount: u8) -> spec_fn(Creature) -> Creature {
    |c: Creature| effect_damaged(c, amount)
}

/// The healing step as a function on creatures.
pub open spec fn heal_fn(amount: u8) -> spec_fn(Creature) -> Creature {
    |c: Creature| healed(c, amount)
}

/// Deal damage to the creature at (`owner`, `slot`), if any; a creature that
/// drops to 0 health is marked for death, and one that took damage fires
/// its OnTakeDamage abilities.
pub fn damage_creature(ctx: &mut EffectContext, owner: PlayerId, slot: Slot, amount: u8)
    requires
        old(ctx).wf(),
        owner.valid(),
    ensures
        ctx_evolves(*old(ctx), *final(ctx)),
        same_but_boards(old(ctx).state, final(ctx).state),
        boards(final(ctx).state) == boards_after(boards(old(ctx).state), seq![(owner, slot)], damage_fn(amount)),
{
    proof {
        lemma_ctx_evolves_refl(*ctx);
        lemma_boards_after_one(boards(ctx.state), (owner, slot), damage_fn(amount));
    }
    let ghost pre = *ctx;
    let o = owner.index();
    let idx = match find_creature_index(&ctx.state.players[o].creatures, slot) {
        Some(i) => i,
        None => {
            proof {
                assert(seq![(owner, slot)].drop_last() =~= Seq::<(PlayerId, Slot)>::empty());
            }
            return;
        }
    };
    let has_shield = ctx.state.players[o].creatures[idx].keywords.has_shield();
    let has_fortify = ctx.state.players[o].creatures[idx].keywords.has_fortify();
    let old_health = ctx.state.players[o].creatures[idx].current_health;
    proof {
        assert(seq![(owner, slot)].drop_last() =~= Seq::<(PlayerId, Slot)>::empty());
    }
    if has_shield {
        ctx.state.players[o].creatures[idx].keywords.remove(Keywords::SHIELD);
        proof {
            assert(ctx.state.players[o as int].creatures@ =~= pre.state.players[o as int].creatures@.update(idx as int,
                effect_damaged(pre.state.players[o as int].creatures@[idx as int], amount)));
        }
        return;
    }
    let actual_amount: u8 = if has_fortify && amount > 1 { amount - 1 } else { amount };
    let damage_dealt: u8 = if old_health <= 0 { 0 } else if (actual_amount as i16) < (old_health as i16) { actual_amount } else { old_health as u8 };
    let nh: i16 = old_health as i16 - actual_amount as i16;
    let new_health: i8 = if nh < 0 { 0 } else { nh as i8 };
    ctx.state.players[o].creatures[idx].current_health = new_health;
    proof {
        assert(ctx.state.players[o as int].creatures@ =~= pre.state.players[o as int].creatures@.update(idx as int,
            effect_damaged(pre.state.players[o as int].creatures@[idx as int], amount)));
        assert(ctx_evolves(pre, *ctx));
    }
    let ghost mid = *ctx;
    if damage_dealt > 0 {
        check_creature_triggers(ctx, Trigger::OnTakeDamage, owner, slot);
        proof { lemma_ctx_evolves_trans(pre, mid, *ctx); }
    }
    let ghost mid2 = *ctx;
    if new_health == 0 {
        ctx.mark_for_death(owner, slot);
        proof {
            assert(ctx.pending_deaths@.subrange(0, mid2.pending_deaths@.len() as int) =~= mid2.pending_deaths@);
            assert forall|j: int| 0 <= j < ctx.pending_deaths@.len() implies (#[trigger] ctx.pending_deaths@[j]).0.valid() by {
                if j < mid2.pending_deaths@.len() {
                    assert(ctx.pending_deaths@[j] == mid2.pending_deaths@[j]);
                }
            }
            assert(ctx.queue@.subrange(0, mid2.queue@.len() as int) =~= mid2.queue@);
            assert(ctx_evolves(mid2, *ctx));
            lemma_ctx_evolves_trans(pre, mid2, *ctx);
        }
    }
}

/// `post` is `pre` with player `p` taking `amount` damage: life drops
/// (saturating), the opponent's damage dealt rises (saturating), and the
/// opponent wins when `p`'s life reaches 0.
pub open spec fn player_damaged(pre: GameState, post: GameState, p: PlayerId, amount: u8) -> bool {
    let o = p.spec_opponent();
    let life = clamp_i16(pre.players[p.0 as int].life - amount);
    let dealt = pre.players[o.0 as int].total_damage_dealt + amount;
    &&& post.players[p.0 as int] == crate::gamecore::state::PlayerState { life, ..pre.players[p.0 as int] }
    &&& post.players[o.0 as int] == crate::gamecore::state::PlayerState {
            total_damage_dealt: if dealt > 65535 { 65535 } else { dealt as u16 },
            ..pre.players[o.0 as int]
        }
    &&& post.result == (if life <= 0 { Some(GameResult::Win { winner: o, reason: WinReason::LifeReachedZero }) } else { pre.result })
    &&& post.phase == (if life <= 0 { GamePhase::Ended } else { pre.phase })
    &&& post.active_player == pre.active_player
    &&& post.current_turn == pre.current_turn
    &&& post.rng_state == pre.rng_state
    &&& post.game_mode == pre.game_mode
    &&& post.commander_p1 == pre.commander_p1
    &&& post.commander_p2 == pre.commander_p2
    &&& post.next_instance_id == pre.next_instance_id
}

/// Deal damage to a player; reaching 0 life loses the game.
pub fn damage_player(ctx: &mut EffectContext, player: PlayerId, amount: u8)
    requires
        old(ctx).wf(),
        player.valid(),
    ensures
        ctx_evolves(*old(ctx), *final(ctx)),
        player_damaged(old(ctx).state, final(ctx).state, player, amount),
        final(ctx).queue == old(ctx).queue,
        final(ctx).pending_deaths == old(ctx).pending_deaths,
        final(ctx).accumulated_result == old(ctx).accumulated_result,
{
    proof { lemma_ctx_evolves_refl(*ctx); }
    let p = player.index();
    let life = sat_sub_i16(ctx.state.players[p].life, amount as i16);
    ctx.state.players[p].life = life;
    let opponent = player.opponent();
    let o = opponent.index();
    ctx.state.players[o].total_damage_dealt = sat_add_u16(ctx.state.players[o].total_damage_dealt, amount as u16);
    if life <= 0 {
        ctx.state.result = Some(GameResult::Win { winner: opponent, reason: WinReason::LifeReachedZero });
        ctx.state.phase = GamePhase::Ended;
    }
}

/// Heal the creature at (`owner`, `slot`), if any, up to its maximum health.
pub fn heal_creature(ctx: &mut EffectContext, owner: PlayerId, slot: Slot, amount: u8)
    requires
        old(ctx).wf(),
        owner.valid(),
    ensures
        ctx_evolves(*old(ctx), *final(ctx)),
        same_but_boards(old(ctx).state, final(ctx).state),
        boards(final(ctx).state) == boards_after(boards(old(ctx).state), seq![(owner, slot)], heal_fn(amount)),
        final(ctx).queue == old(ctx).queue,
        final(ctx).pending_deaths == old(ctx).pending_deaths,
        final(ctx).accumulated_result == old(ctx).accumulated_result,
{
    proof {
        lemma_ctx_evolves_refl(*ctx);
        lemma_boards_after_one(boards(ctx.state), (owner, slot), heal_fn(amount));
    }
    let ghost pre = *ctx;
    let o = owner.index();
    if let Some(idx) = find_creature_index(&ctx.state.players[o].creatures, slot) {
        let cur = ctx.state.players[o].creatures[idx].current_health as i16;
        let max = ctx.state.players[o].creatures[idx].max_health as i16;
        let h = cur + amount as i16;
        let capped = if h > max { max } else { h };
        let nh: i8 = if capped < 0 { 0 } else { capped as i8 };
        ctx.state.players[o].creatures[idx].current_health = nh;
        proof {
            assert(ctx.state.players[o as int].creatures@ =~= pre.state.players[o as int].creatures@.update(idx as int,
                healed(pre.state.players[o as int].creatures@[idx as int], amount)));
        }
    }
}

/// Handler for Damage effects.
pub struct DamageHandler {
    pub target: EffectTarget,
    pub amount: u8,
    pub filter: Option<CreatureFilter>,
}

impl EffectHandler for DamageHandler {
    open spec fn handler_wf(&self) -> bool {
        target_wf(self.target)
    }

    fn apply(&self, ctx: &mut EffectContext) -> (r: bool)
        ensures
            r,
            match self.target {
                EffectTarget::Player(p) => player_damaged(old(ctx).state, final(ctx).state, p, self.amount),
                _ => same_but_boards(old(ctx).state, final(ctx).state)
                    && boards(final(ctx).state) == boards_after(boards(old(ctx).state),
                        target_positions(self.target, self.filter, old(ctx).state), damage_fn(self.amount)),
            },
    {
        proof { lemma_ctx_evolves_refl(*ctx); }
        let ghost pre = *ctx;
        let ghost f = damage_fn(self.amount);
        let targets = TargetResolver::resolve(&self.target, self.filter.as_ref(), &ctx.state);
        match targets {
            ResolvedTargets::Single { owner, slot } => {
                damage_creature(ctx, owner, slot, self.amount);
            }
            ResolvedTargets::Multiple(creatures) => {
                let ghost ps = creatures@;
                proof {
                    lemma_filtered_slots(pre.state.players[0].creatures@, PlayerId(0), self.filter);
                    lemma_filtered_slots(pre.state.players[1].creatures@, PlayerId(1), self.filter);
                    match self.target {
                        EffectTarget::AllAllyCreatures(p) => lemma_filtered_slots(pre.state.players[p.0 as int].creatures@, p, self.filter),
                        EffectTarget::AllEnemyCreatures(p) => lemma_filtered_slots(pre.state.players[p.spec_opponent().0 as int].creatures@, p.spec_opponent(), self.filter),
                        _ => {}
                    }
                    assert(ps.subrange(0, 0) =~= Seq::<(PlayerId, Slot)>::empty());
                    assert forall|j: int| 0 <= j < ps.len() implies (#[trigger] ps[j]).0.valid() by {
                        match self.target {
                            EffectTarget::AllCreatures => {
                                let a = crate::gamecore::engine::effect_context::filtered_slots(pre.state.players[0].creatures@, PlayerId(0), self.filter);
                                if j < a.len() { assert(ps[j] == a[j]); } else {
                                    let b = crate::gamecore::engine::effect_context::filtered_slots(pre.state.players[1].creatures@, PlayerId(1), self.filter);
                                    assert(ps[j] == b[j - a.len()]);
                                }
                            }
                            _ => {}
                        }
                    }
                }
                let mut i: usize = 0;
                while i < creatures.len()
                    invariant
                        i <= ps.len(),
                        creatures@ == ps,
                        f == damage_fn(self.amount),
                        forall|j: int| 0 <= j < ps.len() ==> (#[trigger] ps[j]).0.valid(),
                        ctx_evolves(pre, *ctx),
                        same_but_boards(pre.state, ctx.state),
                        boards(ctx.state) == boards_after(boards(pre.state), ps.subrange(0, i as int), f),
                    decreases ps.len() - i,
                {
                    let (owner, slot) = creatures[i];
                    let ghost mid = *ctx;
                    proof { assert(ps[i as int] == (owner, slot)); }
                    damage_creature(ctx, owner, slot, self.amount);
                    proof {
                        lemma_ctx_evolves_trans(pre, mid, *ctx);
                        lemma_boards_after_step(boards(pre.state), ps, i as int, f);
                        lemma_boards_after_one(boards(mid.state), (owner, slot), f);
                    }
                    i = i + 1;
                }
                proof { assert(ps.subrange(0, ps.len() as int) =~= ps); }
            }
            ResolvedTargets::Player(player) => {
                damage_player(ctx, player, self.amount);
            }
            ResolvedTargets::NoTargets => {
                proof {
                    assert(target_positions(self.target, self.filter, pre.state) =~= Seq::<(PlayerId, Slot)>::empty());
                }
            }
        }
        true
    }
}

/// `post` is `pre` with player `p` healed by `amount`: life rises (no cap
/// but the range of `i16`), nothing else changes.
pub open spec fn player_healed(pre: GameState, post: GameState, p: PlayerId, amount: u8) -> bool {
    &&& post.players[p.0 as int] == crate::gamecore::state::PlayerState {
            life: clamp_i16(pre.players[p.0 as int].life + amount),
            ..pre.players[p.0 as int]
        }
    &&& post.players[p.spec_opponent().0 as int] == pre.players[p.spec_opponent().0 as int]
    &&& post.players.len() == pre.players.len()
    &&& post.result == pre.result
    &&& post.phase == pre.phase
    &&& post.active_player == pre.active_player
    &&& post.current_turn == pre.current_turn
    &&& post.rng_state == pre.rng_state
    &&& post.game_mode == pre.game_mode
    &&& post.commander_p1 == pre.commander_p1
    &&& post.commander_p2 == pre.commander_p2
    &&& post.next_instance_id == pre.next_instance_id
}

/// Handler for Heal effects.
pub struct HealHandler {
    pub target: EffectTarget,
    pub amount: u8,
    pub filter: Option<CreatureFilter>,
}

impl EffectHandler for HealHandler {
    open spec fn handler_wf(&self) -> bool {
        target_wf(self.target)
    }

    fn apply(&self, ctx: &mut EffectContext) -> (r: bool)
        ensures
            r,
            final(ctx).queue == old(ctx).queue,
            final(ctx).pending_deaths == old(ctx).pending_deaths,
            final(ctx).accumulated_result == old(ctx).accumulated_result,
            match self.target {
                EffectTarget::Player(p) => player_healed(old(ctx).state, final(ctx).state, p, self.amount),
                _ => same_but_boards(old(ctx).state, final(ctx).state)
                    && boards(final(ctx).state) == boards_after(boards(old(ctx).state),
                        target_positions(self.target, self.filter, old(ctx).state), heal_fn(self.amount)),
            },
    {
        proof { lemma_ctx_evolves_refl(*ctx); }
        let ghost pre = *ctx;
        let ghost f = heal_fn(self.amount);
        let targets = TargetResolver::resolve(&self.target, self.filter.as_ref(), &ctx.state);
        match targets {
            ResolvedTargets::Single { owner, slot } => {
                heal_creature(ctx, owner, slot, self.amount);
            }
            ResolvedTargets::Multiple(creatures) => {
                let ghost ps = creatures@;
                proof {
                    lemma_area_positions_valid(self.target, self.filter, pre.state);
                    assert(ps.subrange(0, 0) =~= Seq::<(PlayerId, Slot)>::empty());
                }
                let mut i: usize = 0;
                while i < creatures.len()
                    invariant
                        i <= ps.len(),
                        creatures@ == ps,
                        f == heal_fn(self.amount),
                        forall|j: int| 0 <= j < ps.len() ==> (#[trigger] ps[j]).0.valid(),
                        ctx_evolves(pre, *ctx),
                        same_but_boards(pre.state, ctx.state),
                        ctx.queue == pre.queue,
                        ctx.pending_deaths == pre.pending_deaths,
                        ctx.accumulated_result == pre.accumulated_result,
                        boards(ctx.state) == boards_after(boards(pre.state), ps.subrange(0, i as int), f),
                    decreases ps.len() - i,
                {
                    let (owner, slot) = creatures[i];
                    let ghost mid = *ctx;
                    proof { assert(ps[i as int] == (owner, slot)); }
                    heal_creature(ctx, owner, slot, self.amount);
                    proof {
                        lemma_ctx_evolves_trans(pre, mid, *ctx);
                        lemma_same_but_boards_trans(pre.state, mid.state, ctx.state);
                        lemma_boards_after_step(boards(pre.state), ps, i as int, f);
                        lemma_boards_after_one(boards(mid.state), (owner, slot), f);
                    }
                    i = i + 1;
                }
                proof { assert(ps.subrange(0, ps.len() as int) =~= ps); }
            }
            ResolvedTargets::Player(player) => {
                let p = player.index();
                ctx.state.players[p].life = sat_add_i16(ctx.state.players[p].life, self.amount as i16);
            }
            ResolvedTargets::NoTargets => {
                proof {
                    assert(target_positions(self.target, self.filter, pre.state) =~= Seq::<(PlayerId, Slot)>::empty());
                }
            }
        }
        true
    }
}

} // verus!
