//! Putting creatures on the board: summon, token, transform, copy.

use vstd::prelude::*;
use crate::gamecore::cards::CardType;
use crate::gamecore::effects::{EffectTarget, TokenAbility, TokenDefinition, Trigger, same_abilities, duplicate_token_abilities};
use crate::gamecore::engine::effect_context::{
    EffectContext, ctx_evolves, lemma_ctx_evolves_refl, lemma_ctx_evolves_trans, target_wf,
};
use crate::gamecore::engine::handlers::{EffectHandler, lemma_mark_for_death_evolves};
use crate::gamecore::engine::passive::{apply_commander_passive_from_cache, with_cached_passive};
use crate::gamecore::engine::triggers::{check_creature_triggers, same_but_boards};
use crate::gamecore::keywords::Keywords;
use crate::gamecore::state::{lemma_board_ok_push, lemma_board_ok_without_slot, lemma_first_free_slot, lemma_slot_index, occupied, 
    Creature, CreatureStatus, GameState, ResolvedCommanderPassive, find_creature_index, first_free_slot_from,
    remove_creatures_at, slot_index, without_slot,
};
use crate::gamecore::types::{CardId, CreatureInstanceId, PlayerId, Slot};

verus! {

/// The states agree on everything but the boards and the next instance id.
pub open spec fn same_apart_from_boards(a: GameState, b: GameState) -> bool {
    same_but_boards(a, GameState { next_instance_id: a.next_instance_id, ..b })
}

/// Agreeing apart from the boards, then but for the boards, is agreeing
/// apart from the boards.
proof fn lemma_same_apart_then_same_but(a: GameState, b: GameState, c: GameState)
    requires
        same_apart_from_boards(a, b),
        same_but_boards(b, c),
    ensures
        same_apart_from_boards(a, c),
{
    let b2 = GameState { next_instance_id: a.next_instance_id, ..b };
    let c2 = GameState { next_instance_id: a.next_instance_id, ..c };
    assert forall|p: int| 0 <= p < 2 implies #[trigger] a.players[p].life == c2.players[p].life by {
        assert(a.players[p].life == b2.players[p].life);
        assert(b.players[p].life == c.players[p].life);
    }
}

/// The instance id after `id` (wrapping).
pub open spec fn next_id(id: u32) -> u32 {
    if id == u32::MAX { 0 } else { (id + 1) as u32 }
}

/// A creature fresh on the board: the given stats and keywords, ready state,
/// played this turn, token fields taken as given.
pub open spec fn fresh_creature(id: u32, card_id: CardId, owner: PlayerId, slot: Slot, attack: u8, health: u8,
    keywords: u16, turn: u16, token_abilities: Option<Vec<TokenAbility>>, token_name: Option<String>) -> Creature
{
    Creature {
        instance_id: CreatureInstanceId(id),
        card_id,
        owner,
        slot,
        attack: attack as i8,
        current_health: health as i8,
        max_health: health as i8,
        base_attack: attack,
        base_health: health,
        keywords: Keywords(keywords),
        status: CreatureStatus(0),
        turn_played: turn,
        frenzy_stacks: 0,
        token_abilities,
        token_name,
    }
}

/// The token fields of a creature made from a token definition: its
/// abilities (none when it has none) and its name.
pub open spec fn token_fields_from(c: Creature, t: TokenDefinition) -> bool {
    &&& (t.abilities@.len() == 0 ==> c.token_abilities is None)
    &&& (t.abilities@.len() > 0 ==> (c.token_abilities matches Some(v) && same_abilities(v@, t.abilities@)))
    &&& c.token_name matches Some(n) && n@ == t.name@
}

/// The slot a summon goes to: the requested one, or the first free one.
pub open spec fn summon_slot(requested: Option<Slot>, board: Seq<Creature>) -> Option<Slot> {
    match requested {
        Some(s) => Some(s),
        None => first_free_slot_from(board, 0),
    }
}

/// Put a creature into an empty slot of its owner's board with the owner's
/// commander passive applied; it is marked for death when its health (after
/// the passive, or before it with `check_before_passive`) is not positive.
fn place_creature(ctx: &mut EffectContext, owner: PlayerId, creature: Creature, check_before_passive: bool)
    requires
        old(ctx).wf(),
        owner.valid(),
        creature.slot.0 < 5,
        !occupied(old(ctx).state.players[owner.0 as int].creatures@, creature.slot),
    ensures
        ctx_evolves(*old(ctx), *final(ctx)),
        same_but_boards(old(ctx).state, final(ctx).state),
        final(ctx).state.players[owner.0 as int].creatures@ == old(ctx).state.players[owner.0 as int].creatures@.push(
            with_cached_passive(creature, old(ctx).state.players[owner.0 as int].commander_passive)),
        final(ctx).state.players[owner.spec_opponent().0 as int].creatures@
            == old(ctx).state.players[owner.spec_opponent().0 as int].creatures@,
        final(ctx).queue@ == old(ctx).queue@,
{
    let ghost pre = *ctx;
    let o = owner.index();
    let dead_before = creature.current_health <= 0;
    let passive = ctx.state.players[o].commander_passive;
    let mut c = creature;
    apply_commander_passive_from_cache(&mut c, &passive);
    let slot = c.slot;
    let dead = if check_before_passive { dead_before } else { c.current_health <= 0 };
    ctx.state.players[o].creatures.push(c);
    proof {
        lemma_board_ok_push(pre.state.players[o as int].creatures@, c);
        lemma_ctx_evolves_refl(pre);
        assert(ctx_evolves(pre, *ctx));
    }
    if dead {
        let ghost mid = *ctx;
        ctx.mark_for_death(owner, slot);
        proof {
            lemma_mark_for_death_evolves(mid, *ctx, owner, slot);
            lemma_ctx_evolves_trans(pre, mid, *ctx);
        }
    }
}

/// Handler for Summon effects (a creature card from the database).
pub struct SummonHandler {
    pub owner: PlayerId,
    pub card_id: CardId,
    pub slot: Option<Slot>,
}

/// Whether a summon of `card_id` into `target` succeeds: the slot is free
/// and the card is a creature.
pub open spec fn summon_succeeds(ctx: EffectContext, owner: PlayerId, card_id: CardId, target: Option<Slot>) -> bool {
    &&& target matches Some(s) && slot_index(ctx.state.players[owner.0 as int].creatures@, s) < 0
    &&& ctx.card_db.spec_get(card_id) matches Some(def) && def.card_type is Creature
}

impl EffectHandler for SummonHandler {
    open spec fn handler_wf(&self) -> bool {
        self.owner.valid() && (self.slot matches Some(s) ==> s.0 < 5)
    }

    fn apply(&self, ctx: &mut EffectContext) -> (r: bool)
        ensures
            ({
                let b = old(ctx).state.players[self.owner.0 as int].creatures@;
                let target = summon_slot(self.slot, b);
                &&& r == summon_succeeds(*old(ctx), self.owner, self.card_id, target)
                &&& !r ==> *final(ctx) == *old(ctx)
                &&& r ==> {
                    let def = old(ctx).card_db.spec_get(self.card_id)->0;
                    let fresh = fresh_creature(old(ctx).state.next_instance_id, self.card_id, self.owner, target->0,
                        def.card_type->Creature_attack, def.card_type->Creature_health, def.spec_keywords(),
                        old(ctx).state.current_turn, None, None);
                    &&& same_apart_from_boards(old(ctx).state, final(ctx).state)
                    &&& final(ctx).state.next_instance_id == next_id(old(ctx).state.next_instance_id)
                    &&& final(ctx).state.players[self.owner.0 as int].creatures@
                        == b.push(with_cached_passive(fresh, old(ctx).state.players[self.owner.0 as int].commander_passive))
                    &&& final(ctx).state.players[self.owner.spec_opponent().0 as int].creatures@
                        == old(ctx).state.players[self.owner.spec_opponent().0 as int].creatures@
                }
            }),
    {
        proof { lemma_ctx_evolves_refl(*ctx); }
        let ghost pre = *ctx;
        let o = self.owner.index();
        let target = match self.slot {
            Some(s) => Some(s),
            None => ctx.state.players[o].find_empty_creature_slot(),
        };
        let target_slot = match target {
            Some(s) => s,
            None => return false,
        };
        proof {
            lemma_first_free_slot(pre.state.players[o as int].creatures@, 0);
            lemma_slot_index(pre.state.players[o as int].creatures@, target_slot);
        }
        if find_creature_index(&ctx.state.players[o].creatures, target_slot).is_some() {
            return false;
        }
        let card_def = match ctx.card_db.get(self.card_id) {
            Some(c) => c,
            None => return false,
        };
        let (attack, health) = match &card_def.card_type {
            CardType::Creature { attack, health, .. } => (*attack, *health),
            _ => return false,
        };
        let keywords = card_def.keywords();
        let instance_id = ctx.state.next_creature_instance_id();
        let creature = Creature {
            instance_id,
            card_id: self.card_id,
            owner: self.owner,
            slot: target_slot,
            attack: attack as i8,
            current_health: health as i8,
            max_health: health as i8,
            base_attack: attack,
            base_health: health,
            keywords,
            status: CreatureStatus(0),
            turn_played: ctx.state.current_turn,
            frenzy_stacks: 0,
            token_abilities: None,
            token_name: None,
        };
        let ghost mid0 = *ctx;
        proof {
            lemma_ctx_evolves_refl(pre);
            assert(ctx_evolves(pre, mid0));
        }
        place_creature(ctx, self.owner, creature, false);
        let ghost mid = *ctx;
        check_creature_triggers(ctx, Trigger::OnPlay, self.owner, target_slot);
        proof {
            lemma_ctx_evolves_trans(pre, mid0, mid);
            lemma_ctx_evolves_trans(pre, mid, *ctx);
            let def = pre.card_db.spec_get(self.card_id)->0;
            assert(*card_def == def);
            let fresh = fresh_creature(pre.state.next_instance_id, self.card_id, self.owner, target_slot,
                        def.card_type->Creature_attack, def.card_type->Creature_health, def.spec_keywords(),
                        pre.state.current_turn, None, None);
            assert(creature == fresh);
            assert(same_apart_from_boards(pre.state, ctx.state));
            assert(summon_succeeds(pre, self.owner, self.card_id, target));
        }
        true
    }

    fn blocked_by_ward(&self) -> (r: bool) {
        false
    }
}

/// Copy the optional token abilities of a creature.
fn duplicate_optional_abilities(v: &Option<Vec<TokenAbility>>) -> (r: Option<Vec<TokenAbility>>)
    ensures
        r is None <==> v is None,
        r matches Some(a) ==> same_abilities(a@, v->0@),
{
    match v {
        Some(a) => Some(duplicate_token_abilities(a)),
        None => None,
    }
}

/// Copy an optional name.
fn duplicate_optional_name(v: &Option<String>) -> (r: Option<String>)
    ensures
        r is None <==> v is None,
        r matches Some(a) ==> a@ == v->0@,
{
    match v {
        Some(a) => Some(a.clone()),
        None => None,
    }
}

/// The creature a token definition makes.
fn token_creature(ctx: &mut EffectContext, owner: PlayerId, slot: Slot, token: &TokenDefinition) -> (c: Creature)
    requires
        old(ctx).wf(),
    ensures
        ctx_evolves(*old(ctx), *final(ctx)),
        final(ctx).state == (GameState { next_instance_id: next_id(old(ctx).state.next_instance_id), ..old(ctx).state }),
        final(ctx).queue == old(ctx).queue,
        final(ctx).pending_deaths == old(ctx).pending_deaths,
        final(ctx).accumulated_result == old(ctx).accumulated_result,
        token_fields_from(c, *token),
        c == fresh_creature(old(ctx).state.next_instance_id, CardId(0), owner, slot, token.attack, token.health,
            token.keywords, old(ctx).state.current_turn, c.token_abilities, c.token_name),
{
    let ghost pre = *ctx;
    let instance_id = ctx.state.next_creature_instance_id();
    let token_abilities = if token.abilities.len() == 0 { None } else { Some(duplicate_token_abilities(&token.abilities)) };
    let c = Creature {
        instance_id,
        card_id: CardId(0),
        owner,
        slot,
        attack: token.attack as i8,
        current_health: token.health as i8,
        max_health: token.health as i8,
        base_attack: token.attack,
        base_health: token.health,
        keywords: Keywords(token.keywords),
        status: CreatureStatus(0),
        turn_played: ctx.state.current_turn,
        frenzy_stacks: 0,
        token_abilities,
        token_name: Some(token.name.clone()),
    };
    proof {
        assert(ctx.state == (GameState { next_instance_id: next_id(pre.state.next_instance_id), ..pre.state }));
        lemma_ctx_evolves_refl(pre);
    }
    c
}

/// Handler for SummonToken effects (a token described inline).
pub struct SummonTokenHandler {
    pub owner: PlayerId,
    pub token: TokenDefinition,
    pub slot: Option<Slot>,
}

impl EffectHandler for SummonTokenHandler {
    open spec fn handler_wf(&self) -> bool {
        self.owner.valid() && (self.slot matches Some(s) ==> s.0 < 5)
    }

    fn apply(&self, ctx: &mut EffectContext) -> (r: bool)
        ensures
            ({
                let b = old(ctx).state.players[self.owner.0 as int].creatures@;
                let target = summon_slot(self.slot, b);
                &&& r == (target matches Some(s) && slot_index(b, s) < 0)
                &&& !r ==> *final(ctx) == *old(ctx)
                &&& r ==> {
                    &&& same_apart_from_boards(old(ctx).state, final(ctx).state)
                    &&& final(ctx).state.next_instance_id == next_id(old(ctx).state.next_instance_id)
                    &&& final(ctx).state.players[self.owner.0 as int].creatures@.len() == b.len() + 1
                    &&& final(ctx).state.players[self.owner.0 as int].creatures@.drop_last() == b
                    &&& exists|c: Creature| {
                        &&& token_fields_from(c, self.token)
                        &&& c == fresh_creature(old(ctx).state.next_instance_id, CardId(0), self.owner, target->0,
                            self.token.attack, self.token.health, self.token.keywords, old(ctx).state.current_turn,
                            c.token_abilities, c.token_name)
                        &&& final(ctx).state.players[self.owner.0 as int].creatures@.last()
                            == with_cached_passive(c, old(ctx).state.players[self.owner.0 as int].commander_passive)
                    }
                    &&& final(ctx).state.players[self.owner.spec_opponent().0 as int].creatures@
                        == old(ctx).state.players[self.owner.spec_opponent().0 as int].creatures@
                    &&& final(ctx).queue@ == old(ctx).queue@
                }
            }),
    {
        proof { lemma_ctx_evolves_refl(*ctx); }
        let ghost pre = *ctx;
        let o = self.owner.index();
        let target = match self.slot {
            Some(s) => Some(s),
            None => ctx.state.players[o].find_empty_creature_slot(),
        };
        let target_slot = match target {
            Some(s) => s,
            None => return false,
        };
        proof {
            lemma_first_free_slot(pre.state.players[o as int].creatures@, 0);
            lemma_slot_index(pre.state.players[o as int].creatures@, target_slot);
        }
        if find_creature_index(&ctx.state.players[o].creatures, target_slot).is_some() {
            return false;
        }
        let c = token_creature(ctx, self.owner, target_slot, &self.token);
        let ghost mid = *ctx;
        place_creature(ctx, self.owner, c, false);
        proof {
            lemma_ctx_evolves_trans(pre, mid, *ctx);
            let placed = ctx.state.players[o as int].creatures@;
            assert(placed.drop_last() =~= pre.state.players[o as int].creatures@);
            assert(same_but_boards(mid.state, ctx.state));
            lemma_same_apart_then_same_but(pre.state, mid.state, ctx.state);
        }
        true
    }

    fn blocked_by_ward(&self) -> (r: bool) {
        false
    }
}

/// Handler for Transform effects: the creature at a single target is
/// replaced by a token in the same slot.
pub struct TransformHandler {
    pub target: EffectTarget,
    pub into: TokenDefinition,
}

impl EffectHandler for TransformHandler {
    open spec fn handler_wf(&self) -> bool {
        target_wf(self.target)
    }

    fn apply(&self, ctx: &mut EffectContext) -> (r: bool)
        ensures
            r == (self.target matches EffectTarget::Creature { owner, slot }
                && slot_index(old(ctx).state.players[owner.0 as int].creatures@, slot) >= 0),
            !r ==> *final(ctx) == *old(ctx),
            r ==> (self.target matches EffectTarget::Creature { owner, slot } && {
                let b = old(ctx).state.players[owner.0 as int].creatures@;
                &&& same_apart_from_boards(old(ctx).state, final(ctx).state)
                &&& final(ctx).state.next_instance_id == next_id(old(ctx).state.next_instance_id)
                &&& final(ctx).state.players[owner.0 as int].creatures@.drop_last() == without_slot(b, slot)
                &&& final(ctx).state.players[owner.0 as int].creatures@.len() == without_slot(b, slot).len() + 1
                &&& exists|c: Creature| {
                    &&& token_fields_from(c, self.into)
                    &&& c == fresh_creature(old(ctx).state.next_instance_id, CardId(0), owner, slot,
                        self.into.attack, self.into.health, self.into.keywords, old(ctx).state.current_turn,
                        c.token_abilities, c.token_name)
                    &&& final(ctx).state.players[owner.0 as int].creatures@.last()
                        == with_cached_passive(c, old(ctx).state.players[owner.0 as int].commander_passive)
                }
                &&& final(ctx).state.players[owner.spec_opponent().0 as int].creatures@
                    == old(ctx).state.players[owner.spec_opponent().0 as int].creatures@
            }),
    {
        proof { lemma_ctx_evolves_refl(*ctx); }
        let ghost pre = *ctx;
        let (owner, slot) = match self.target {
            EffectTarget::Creature { owner, slot } => (owner, slot),
            _ => return false,
        };
        let o = owner.index();
        if find_creature_index(&ctx.state.players[o].creatures, slot).is_none() {
            return false;
        }
        remove_creatures_at(&mut ctx.state.players[o].creatures, slot);
        let ghost mid0 = *ctx;
        proof {
            let b = pre.state.players[o as int].creatures@;
            lemma_slot_index(b, slot);
            lemma_board_ok_without_slot(b, slot);
            assert(slot.0 < 5) by {
                assert(b[slot_index(b, slot)].slot == slot);
            }
            if occupied(without_slot(b, slot), slot) {
                crate::gamecore::combat::death::lemma_without_slot_occupied(b, slot, slot);
            }
            lemma_ctx_evolves_refl(pre);
            assert(ctx_evolves(pre, mid0));
        }
        let c = token_creature(ctx, owner, slot, &self.into);
        let ghost mid = *ctx;
        place_creature(ctx, owner, c, true);
        proof {
            lemma_ctx_evolves_trans(pre, mid0, mid);
            lemma_ctx_evolves_trans(pre, mid, *ctx);
            let placed = ctx.state.players[o as int].creatures@;
            assert(placed.drop_last() =~= without_slot(pre.state.players[o as int].creatures@, slot));
            assert(mid0.state.players[o as int].commander_passive == pre.state.players[o as int].commander_passive);
            assert(placed.last() == with_cached_passive(c, pre.state.players[o as int].commander_passive));
            assert(same_but_boards(pre.state, mid0.state));
            assert(same_apart_from_boards(pre.state, ctx.state));
        }
        true
    }
}

/// Handler for Copy effects: a fresh copy (base stats, keywords, token
/// fields) of the target creature joins `owner`'s board in its first free slot.
pub struct CopyHandler {
    pub target: EffectTarget,
    pub owner: PlayerId,
}

impl EffectHandler for CopyHandler {
    open spec fn handler_wf(&self) -> bool {
        target_wf(self.target) && self.owner.valid()
    }

    fn apply(&self, ctx: &mut EffectContext) -> (r: bool)
        ensures
            r == (self.target matches EffectTarget::Creature { owner, slot }
                && slot_index(old(ctx).state.players[owner.0 as int].creatures@, slot) >= 0
                && first_free_slot_from(old(ctx).state.players[self.owner.0 as int].creatures@, 0) is Some),
            !r ==> *final(ctx) == *old(ctx),
            r ==> (self.target matches EffectTarget::Creature { owner: so, slot: ss } && {
                let src_board = old(ctx).state.players[so.0 as int].creatures@;
                let src = src_board[slot_index(src_board, ss)];
                let b = old(ctx).state.players[self.owner.0 as int].creatures@;
                let target = first_free_slot_from(b, 0)->0;
                &&& same_apart_from_boards(old(ctx).state, final(ctx).state)
                &&& final(ctx).state.next_instance_id == next_id(old(ctx).state.next_instance_id)
                &&& final(ctx).state.players[self.owner.0 as int].creatures@.drop_last() == b
                &&& final(ctx).state.players[self.owner.0 as int].creatures@.len() == b.len() + 1
                &&& exists|c: Creature| {
                    &&& (c.token_abilities is None <==> src.token_abilities is None)
                    &&& (c.token_abilities matches Some(v) ==> same_abilities(v@, src.token_abilities->0@))
                    &&& (c.token_name is None <==> src.token_name is None)
                    &&& (c.token_name matches Some(n) ==> n@ == src.token_name->0@)
                    &&& c == fresh_creature(old(ctx).state.next_instance_id, src.card_id, self.owner, target,
                        src.base_attack, src.base_health, src.keywords.0, old(ctx).state.current_turn,
                        c.token_abilities, c.token_name)
                    &&& final(ctx).state.players[self.owner.0 as int].creatures@.last()
                        == with_cached_passive(c, old(ctx).state.players[self.owner.0 as int].commander_passive)
                }
                &&& final(ctx).state.players[self.owner.spec_opponent().0 as int].creatures@
                    == old(ctx).state.players[self.owner.spec_opponent().0 as int].creatures@
            }),
    {
        proof { lemma_ctx_evolves_refl(*ctx); }
        let ghost pre = *ctx;
        let (so, ss) = match self.target {
            EffectTarget::Creature { owner, slot } => (owner, slot),
            _ => return false,
        };
        let idx = match find_creature_index(&ctx.state.players[so.index()].creatures, ss) {
            Some(i) => i,
            None => return false,
        };
        let card_id = ctx.state.players[so.index()].creatures[idx].card_id;
        let base_attack = ctx.state.players[so.index()].creatures[idx].base_attack;
        let base_health = ctx.state.players[so.index()].creatures[idx].base_health;
        let keywords = ctx.state.players[so.index()].creatures[idx].keywords;
        let token_abilities = duplicate_optional_abilities(&ctx.state.players[so.index()].creatures[idx].token_abilities);
        let token_name = duplicate_optional_name(&ctx.state.players[so.index()].creatures[idx].token_name);
        let target_slot = match ctx.state.players[self.owner.index()].find_empty_creature_slot() {
            Some(s) => s,
            None => return false,
        };
        proof { lemma_first_free_slot(pre.state.players[self.owner.0 as int].creatures@, 0); }
        let instance_id = ctx.state.next_creature_instance_id();
        let c = Creature {
            instance_id,
            card_id,
            owner: self.owner,
            slot: target_slot,
            attack: base_attack as i8,
            current_health: base_health as i8,
            max_health: base_health as i8,
            base_attack,
            base_health,
            keywords,
            status: CreatureStatus(0),
            turn_played: ctx.state.current_turn,
            frenzy_stacks: 0,
            token_abilities,
            token_name,
        };
        let ghost mid = *ctx;
        proof {
            lemma_ctx_evolves_refl(pre);
            assert(ctx_evolves(pre, mid));
        }
        place_creature(ctx, self.owner, c, false);
        proof {
            lemma_ctx_evolves_trans(pre, mid, *ctx);
            let placed = ctx.state.players[self.owner.0 as int].creatures@;
            assert(placed.drop_last() =~= pre.state.players[self.owner.0 as int].creatures@);
        }
        true
    }
}

} // verus!
