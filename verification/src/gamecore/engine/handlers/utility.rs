//! Utility effects: draw, essence, refresh, bounce, destroy.

use vstd::prelude::*;
use crate::gamecore::config::player;
use crate::gamecore::effects::{CreatureFilter, EffectTarget, filter_admits, optional_filter_admits};
use crate::gamecore::engine::effect_context::{
    EffectContext, TargetResolver, ctx_evolves, deref_filter, lemma_ctx_evolves_refl, lemma_ctx_evolves_trans,
    target_positions, target_wf,
};
use crate::gamecore::engine::handlers::{
    EffectHandler, board_step, boards, boards_after, lemma_boards_after_one, lemma_mark_for_death_evolves,
    lemma_target_positions_valid, single_position,
};
use crate::gamecore::engine::triggers::same_but_boards;
use crate::gamecore::state::{
    CardInstance, Creature, CreatureStatus, GameState, PlayerState, deck_cards, deck_len, deck_remove,
    find_creature_index, remove_creatures_at, slot_index, without_slot,
};
use crate::gamecore::types::{PlayerId, Slot};

verus! {

/// A hand and deck after drawing up to `n` cards from the front of the deck;
/// a card drawn into a full hand is burned.
pub open spec fn drawn_from_front(hand: Seq<CardInstance>, deck: Seq<CardInstance>, n: nat) -> (Seq<CardInstance>, Seq<CardInstance>)
    decreases n,
{
    if n == 0 || deck.len() == 0 {
        (hand, deck)
    } else {
        let h = if hand.len() >= player::MAX_HAND_SIZE { hand } else { hand.push(deck[0]) };
        drawn_from_front(h, deck.subrange(1, deck.len() as int), (n - 1) as nat)
    }
}

/// Everything but player `p`'s hand and deck is the same.
pub open spec fn same_but_cards(a: GameState, b: GameState, p: PlayerId) -> bool {
    &&& b.players[p.0 as int] == PlayerState { hand: b.players[p.0 as int].hand, deck: b.players[p.0 as int].deck, ..a.players[p.0 as int] }
    &&& b.players[p.spec_opponent().0 as int] == a.players[p.spec_opponent().0 as int]
    &&& a.active_player == b.active_player
    &&& a.current_turn == b.current_turn
    &&& a.phase == b.phase
    &&& a.result == b.result
    &&& a.rng_state == b.rng_state
    &&& a.game_mode == b.game_mode
    &&& a.commander_p1 == b.commander_p1
    &&& a.commander_p2 == b.commander_p2
    &&& a.next_instance_id == b.next_instance_id
}

/// Handler for Draw effects: draws from the front of the deck.
pub struct DrawHandler {
    pub player: PlayerId,
    pub count: u8,
}

impl EffectHandler for DrawHandler {
    open spec fn handler_wf(&self) -> bool {
        self.player.valid()
    }

    fn apply(&self, ctx: &mut EffectContext) -> (r: bool)
        ensures
            r,
            same_but_cards(old(ctx).state, final(ctx).state, self.player),
            (final(ctx).state.players[self.player.0 as int].hand@, deck_cards(final(ctx).state.players[self.player.0 as int].deck))
                == drawn_from_front(old(ctx).state.players[self.player.0 as int].hand@,
                    deck_cards(old(ctx).state.players[self.player.0 as int].deck), self.count as nat),
            final(ctx).queue == old(ctx).queue,
            final(ctx).pending_deaths == old(ctx).pending_deaths,
            final(ctx).accumulated_result == old(ctx).accumulated_result,
    {
        proof { lemma_ctx_evolves_refl(*ctx); }
        let ghost pre = *ctx;
        let p = self.player.index();
        let ghost target = drawn_from_front(pre.state.players[p as int].hand@, deck_cards(pre.state.players[p as int].deck),
            self.count as nat);
        let mut i: u8 = 0;
        while i < self.count && deck_len(&ctx.state.players[p].deck) > 0
            invariant
                i <= self.count,
                p == self.player.0,
                self.player.valid(),
                ctx.wf(),
                same_but_cards(pre.state, ctx.state, self.player),
                ctx.queue == pre.queue,
                ctx.pending_deaths == pre.pending_deaths,
                ctx.accumulated_result == pre.accumulated_result,
                ctx.card_db == pre.card_db,
                drawn_from_front(ctx.state.players[p as int].hand@, deck_cards(ctx.state.players[p as int].deck),
                    (self.count - i) as nat) == target,
            decreases self.count - i,
        {
            let ghost d = deck_cards(ctx.state.players[p as int].deck);
            let card = deck_remove(&mut ctx.state.players[p].deck, 0);
            proof { assert(d.remove(0) =~= d.subrange(1, d.len() as int)); }
            if ctx.state.players[p].hand.len() < player::MAX_HAND_SIZE {
                ctx.state.players[p].hand.push(card);
            }
            i = i + 1;
        }
        proof { lemma_ctx_evolves_refl(*ctx); }
        true
    }

    fn blocked_by_ward(&self) -> (r: bool) {
        false
    }
}

/// Handler for GainEssence effects.
pub struct GainEssenceHandler {
    pub player: PlayerId,
    pub amount: u8,
}

impl EffectHandler for GainEssenceHandler {
    open spec fn handler_wf(&self) -> bool {
        self.player.valid()
    }

    fn apply(&self, ctx: &mut EffectContext) -> (r: bool)
        ensures
            r,
            final(ctx).state.players[self.player.0 as int] == (PlayerState {
                current_essence: if old(ctx).state.players[self.player.0 as int].current_essence + self.amount > 255 {
                    255u8
                } else {
                    (old(ctx).state.players[self.player.0 as int].current_essence + self.amount) as u8
                },
                ..old(ctx).state.players[self.player.0 as int]
            }),
            final(ctx).state.players[self.player.spec_opponent().0 as int] == old(ctx).state.players[self.player.spec_opponent().0 as int],
            final(ctx).queue == old(ctx).queue,
            final(ctx).pending_deaths == old(ctx).pending_deaths,
    {
        let p = self.player.index();
        let e = ctx.state.players[p].current_essence;
        let n: u8 = if e as u16 + self.amount as u16 > 255 { 255 } else { e + self.amount };
        ctx.state.players[p].current_essence = n;
        proof { lemma_ctx_evolves_refl(*ctx); }
        true
    }

    fn blocked_by_ward(&self) -> (r: bool) {
        false
    }
}

/// A creature made ready to act again.
pub open spec fn refreshed(c: Creature) -> Creature {
    Creature { status: CreatureStatus(c.status.0 & 0xfe), ..c }
}

/// Refreshing as a function on creatures.
pub open spec fn refresh_fn() -> spec_fn(Creature) -> Creature {
    |c: Creature| refreshed(c)
}

/// Handler for RefreshCreature effects (single creature targets only).
pub struct RefreshCreatureHandler {
    pub target: EffectTarget,
}

impl EffectHandler for RefreshCreatureHandler {
    open spec fn handler_wf(&self) -> bool {
        target_wf(self.target)
    }

    fn apply(&self, ctx: &mut EffectContext) -> (r: bool)
        ensures
            r,
            same_but_boards(old(ctx).state, final(ctx).state),
            boards(final(ctx).state) == boards_after(boards(old(ctx).state), single_position(self.target), refresh_fn()),
            final(ctx).queue == old(ctx).queue,
            final(ctx).pending_deaths == old(ctx).pending_deaths,
    {
        let ghost pre = *ctx;
        if let EffectTarget::Creature { owner, slot } = self.target {
            proof { lemma_boards_after_one(boards(ctx.state), (owner, slot), refresh_fn()); }
            let o = owner.index();
            if let Some(idx) = find_creature_index(&ctx.state.players[o].creatures, slot) {
                ctx.state.players[o].creatures[idx].status.set_exhausted(false);
                proof {
                    assert(ctx.state.players[o as int].creatures@ =~= pre.state.players[o as int].creatures@.update(
                        idx as int, refreshed(pre.state.players[o as int].creatures@[idx as int])));
                }
            }
        } else {
            proof { assert(single_position(self.target) =~= Seq::<(PlayerId, Slot)>::empty()); }
        }
        proof { lemma_ctx_evolves_refl(*ctx); }
        true
    }
}

/// One side of the table: a board and a hand.
pub open spec fn side(s: GameState, p: int) -> (Seq<Creature>, Seq<CardInstance>) {
    (s.players[p].creatures@, s.players[p].hand@)
}

/// A side after bouncing the creature at `slot` (if the filter admits it):
/// every creature at the slot leaves the board and its card returns to the
/// hand unless the hand is full.
pub open spec fn bounced_side(sd: (Seq<Creature>, Seq<CardInstance>), slot: Slot, f: Option<CreatureFilter>)
    -> (Seq<Creature>, Seq<CardInstance>)
{
    let k = slot_index(sd.0, slot);
    if k < 0 || !filter_admits(f, sd.0[k].current_health, sd.0[k].keywords.0) {
        sd
    } else {
        (without_slot(sd.0, slot),
         if sd.1.len() >= player::MAX_HAND_SIZE { sd.1 } else { sd.1.push(CardInstance { card_id: sd.0[k].card_id }) })
    }
}

/// Both sides after bouncing each position in order.
pub open spec fn bounced_after(sides: ((Seq<Creature>, Seq<CardInstance>), (Seq<Creature>, Seq<CardInstance>)),
    ps: Seq<(PlayerId, Slot)>, f: Option<CreatureFilter>) -> ((Seq<Creature>, Seq<CardInstance>), (Seq<Creature>, Seq<CardInstance>))
    decreases ps.len(),
{
    if ps.len() == 0 {
        sides
    } else {
        let prev = bounced_after(sides, ps.drop_last(), f);
        let (o, s) = ps.last();
        if o.0 == 0 { (bounced_side(prev.0, s, f), prev.1) } else { (prev.0, bounced_side(prev.1, s, f)) }
    }
}

/// Everything but the boards and hands is the same.
pub open spec fn same_but_sides(a: GameState, b: GameState) -> bool {
    &&& a.active_player == b.active_player
    &&& a.current_turn == b.current_turn
    &&& a.phase == b.phase
    &&& a.result == b.result
    &&& a.rng_state == b.rng_state
    &&& a.game_mode == b.game_mode
    &&& a.commander_p1 == b.commander_p1
    &&& a.commander_p2 == b.commander_p2
    &&& a.next_instance_id == b.next_instance_id
    &&& forall|p: int| 0 <= p < 2 ==> #[trigger] b.players[p] == (PlayerState {
            creatures: b.players[p].creatures, hand: b.players[p].hand, ..a.players[p]
        })
}

/// Bounce the creature at (`owner`, `slot`) back to its owner's hand, if the
/// filter admits it.
fn bounce_creature(ctx: &mut EffectContext, owner: PlayerId, slot: Slot, filter: Option<&CreatureFilter>)
    requires
        old(ctx).wf(),
        owner.valid(),
    ensures
        final(ctx).wf(),
        same_but_sides(old(ctx).state, final(ctx).state),
        side(final(ctx).state, owner.0 as int) == bounced_side(side(old(ctx).state, owner.0 as int), slot, deref_filter(filter)),
        side(final(ctx).state, owner.spec_opponent().0 as int) == side(old(ctx).state, owner.spec_opponent().0 as int),
        final(ctx).queue == old(ctx).queue,
        final(ctx).pending_deaths == old(ctx).pending_deaths,
        final(ctx).accumulated_result == old(ctx).accumulated_result,
        final(ctx).card_db == old(ctx).card_db,
{
    let ghost pre = *ctx;
    let o = owner.index();
    if let Some(idx) = find_creature_index(&ctx.state.players[o].creatures, slot) {
        let h = ctx.state.players[o].creatures[idx].current_health;
        let kw = ctx.state.players[o].creatures[idx].keywords.0;
        if !optional_filter_admits(filter, h, kw) {
            return;
        }
        let card_id = ctx.state.players[o].creatures[idx].card_id;
        remove_creatures_at(&mut ctx.state.players[o].creatures, slot);
        proof {
            crate::gamecore::state::lemma_board_ok_without_slot(pre.state.players[o as int].creatures@, slot);
        }
        if ctx.state.players[o].hand.len() < player::MAX_HAND_SIZE {
            ctx.state.players[o].hand.push(CardInstance::new(card_id));
        }
    }
}

/// Handler for Bounce effects (return creatures to their owners' hands).
pub struct BounceHandler {
    pub target: EffectTarget,
    pub filter: Option<CreatureFilter>,
}

impl EffectHandler for BounceHandler {
    open spec fn handler_wf(&self) -> bool {
        target_wf(self.target)
    }

    fn apply(&self, ctx: &mut EffectContext) -> (r: bool)
        ensures
            r,
            same_but_sides(old(ctx).state, final(ctx).state),
            (side(final(ctx).state, 0), side(final(ctx).state, 1)) == (match self.target {
                EffectTarget::Creature { owner, slot } =>
                    bounced_after((side(old(ctx).state, 0), side(old(ctx).state, 1)), seq![(owner, slot)], self.filter),
                EffectTarget::Player(_) | EffectTarget::TriggerSource | EffectTarget::NoTarget =>
                    (side(old(ctx).state, 0), side(old(ctx).state, 1)),
                _ => bounced_after((side(old(ctx).state, 0), side(old(ctx).state, 1)),
                    target_positions(self.target, self.filter, old(ctx).state), None),
            }),
            final(ctx).queue == old(ctx).queue,
            final(ctx).pending_deaths == old(ctx).pending_deaths,
    {
        let ghost pre = *ctx;
        let ghost s0 = (side(pre.state, 0), side(pre.state, 1));
        match self.target {
            EffectTarget::Creature { owner, slot } => {
                bounce_creature(ctx, owner, slot, self.filter.as_ref());
                proof {
                    assert(seq![(owner, slot)].drop_last() =~= Seq::<(PlayerId, Slot)>::empty());
                    reveal_with_fuel(bounced_after, 2);
                }
            }
            EffectTarget::Player(_) | EffectTarget::TriggerSource | EffectTarget::NoTarget => {
                proof { lemma_same_but_sides_refl(pre.state); }
            }
            _ => {
                let targets = TargetResolver::collect_creature_targets(&self.target, self.filter.as_ref(), &ctx.state);
                let ghost ps = targets@;
                proof {
                    lemma_target_positions_valid(self.target, self.filter, pre.state);
                    assert(ps.subrange(0, 0) =~= Seq::<(PlayerId, Slot)>::empty());
                    lemma_same_but_sides_refl(pre.state);
                }
                let mut i: usize = 0;
                while i < targets.len()
                    invariant
                        i <= ps.len(),
                        targets@ == ps,
                        forall|j: int| 0 <= j < ps.len() ==> (#[trigger] ps[j]).0.valid(),
                        ctx.wf(),
                        ctx.card_db == pre.card_db,
                        same_but_sides(pre.state, ctx.state),
                        ctx.queue == pre.queue,
                        ctx.pending_deaths == pre.pending_deaths,
                        ctx.accumulated_result == pre.accumulated_result,
                        (side(ctx.state, 0), side(ctx.state, 1)) == bounced_after(s0, ps.subrange(0, i as int), None),
                    decreases ps.len() - i,
                {
                    let (owner, slot) = targets[i];
                    let ghost mid = *ctx;
                    proof { assert(ps[i as int] == (owner, slot)); }
                    bounce_creature(ctx, owner, slot, None);
                    proof {
                        assert(ps.subrange(0, i + 1).drop_last() =~= ps.subrange(0, i as int));
                        lemma_same_but_sides_trans(pre.state, mid.state, ctx.state);
                    }
                    i = i + 1;
                }
                proof { assert(ps.subrange(0, ps.len() as int) =~= ps); }
            }
        }
        proof {
            lemma_ctx_evolves_refl(pre);
            assert(ctx_evolves(pre, *ctx));
        }
        true
    }
}

/// Agreement but for boards and hands is reflexive.
pub proof fn lemma_same_but_sides_refl(a: GameState)
    ensures
        same_but_sides(a, a),
{
    assert forall|p: int| 0 <= p < 2 implies #[trigger] a.players[p] == (PlayerState {
        creatures: a.players[p].creatures, hand: a.players[p].hand, ..a.players[p]
    }) by {}
}

/// Agreement but for boards and hands is transitive.
pub proof fn lemma_same_but_sides_trans(a: GameState, b: GameState, c: GameState)
    requires
        same_but_sides(a, b),
        same_but_sides(b, c),
    ensures
        same_but_sides(a, c),
{
    assert forall|p: int| 0 <= p < 2 implies #[trigger] c.players[p] == (PlayerState {
        creatures: c.players[p].creatures, hand: c.players[p].hand, ..a.players[p]
    }) by {
        assert(b.players[p] == (PlayerState { creatures: b.players[p].creatures, hand: b.players[p].hand, ..a.players[p] }));
        assert(c.players[p] == (PlayerState { creatures: c.players[p].creatures, hand: c.players[p].hand, ..b.players[p] }));
    }
}

/// Creature positions marked in order, each once.
pub open spec fn marked_after(d: Seq<(PlayerId, Slot)>, ps: Seq<(PlayerId, Slot)>) -> Seq<(PlayerId, Slot)>
    decreases ps.len(),
{
    if ps.len() == 0 {
        d
    } else {
        let prev = marked_after(d, ps.drop_last());
        if prev.contains(ps.last()) { prev } else { prev.push(ps.last()) }
    }
}

/// Handler for Destroy effects: marks each targeted creature for death.
pub struct DestroyHandler {
    pub target: EffectTarget,
    pub filter: Option<CreatureFilter>,
}

impl EffectHandler for DestroyHandler {
    open spec fn handler_wf(&self) -> bool {
        target_wf(self.target)
    }

    fn apply(&self, ctx: &mut EffectContext) -> (r: bool)
        ensures
            r,
            final(ctx).state == old(ctx).state,
            final(ctx).pending_deaths@ == marked_after(old(ctx).pending_deaths@, target_positions(self.target, self.filter, old(ctx).state)),
            final(ctx).queue@ == old(ctx).queue@,
    {
        proof { lemma_ctx_evolves_refl(*ctx); }
        let ghost pre = *ctx;
        let targets = TargetResolver::collect_creature_targets(&self.target, self.filter.as_ref(), &ctx.state);
        let ghost ps = targets@;
        proof {
            lemma_target_positions_valid(self.target, self.filter, pre.state);
            crate::gamecore::engine::handlers::lemma_target_positions_occupied(self.target, self.filter, pre.state);
            assert(ps.subrange(0, 0) =~= Seq::<(PlayerId, Slot)>::empty());
        }
        let mut i: usize = 0;
        while i < targets.len()
            invariant
                i <= ps.len(),
                targets@ == ps,
                forall|j: int| 0 <= j < ps.len() ==> (#[trigger] ps[j]).0.valid(),
                forall|j: int| 0 <= j < ps.len() ==>
                    slot_index(pre.state.players[(#[trigger] ps[j]).0.0 as int].creatures@, ps[j].1) >= 0,
                ctx_evolves(pre, *ctx),
                ctx.state == pre.state,
                ctx.queue@ == pre.queue@,
                ctx.pending_deaths@ == marked_after(pre.pending_deaths@, ps.subrange(0, i as int)),
            decreases ps.len() - i,
        {
            let (owner, slot) = targets[i];
            let ghost mid = *ctx;
            proof { assert(ps[i as int] == (owner, slot)); }
            if find_creature_index(&ctx.state.players[owner.index()].creatures, slot).is_some() {
                ctx.mark_for_death(owner, slot);
                proof {
                    lemma_mark_for_death_evolves(mid, *ctx, owner, slot);
                    lemma_ctx_evolves_trans(pre, mid, *ctx);
                }
            }
            proof {
                assert(ps.subrange(0, i + 1).drop_last() =~= ps.subrange(0, i as int));
            }
            i = i + 1;
        }
        proof { assert(ps.subrange(0, ps.len() as int) =~= ps); }
        true
    }
}

/// Handler for DestroySelf effects (a token sacrificing itself).
pub struct DestroySelfHandler {
    pub owner: PlayerId,
    pub slot: Slot,
}

impl EffectHandler for DestroySelfHandler {
    open spec fn handler_wf(&self) -> bool {
        self.owner.valid()
    }

    fn apply(&self, ctx: &mut EffectContext) -> (r: bool)
        ensures
            r == (slot_index(old(ctx).state.players[self.owner.0 as int].creatures@, self.slot) >= 0),
            final(ctx).state == old(ctx).state,
            final(ctx).pending_deaths@ == (if r {
                marked_after(old(ctx).pending_deaths@, seq![(self.owner, self.slot)])
            } else {
                old(ctx).pending_deaths@
            }),
            final(ctx).queue@ == old(ctx).queue@,
    {
        proof {
            lemma_ctx_evolves_refl(*ctx);
            assert(seq![(self.owner, self.slot)].drop_last() =~= Seq::<(PlayerId, Slot)>::empty());
            reveal_with_fuel(marked_after, 2);
        }
        let ghost pre = *ctx;
        if find_creature_index(&ctx.state.players[self.owner.index()].creatures, self.slot).is_some() {
            ctx.mark_for_death(self.owner, self.slot);
            proof { lemma_mark_for_death_evolves(pre, *ctx, self.owner, self.slot); }
            true
        } else {
            false
        }
    }

    fn blocked_by_ward(&self) -> (r: bool) {
        false
    }
}

} // verus!
