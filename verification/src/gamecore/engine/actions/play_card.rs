//! The PlayCard action: creatures, spells and supports.

use vstd::prelude::*;
use crate::gamecore::cards::{AbilityDefinition, CardDefinition, CardType, CommanderTrigger, ConditionalEffectGroup, EffectDefinition};
use crate::gamecore::combat::triggers::{abilities_count, abilities_queued, lemma_abilities_len, lemma_queue_split, queue_grew, queue_triggered_abilities};
use crate::gamecore::engine::handlers::summon::{fresh_creature, next_id};
use crate::gamecore::engine::triggers::pendings_of;
use crate::gamecore::effects::Effect;
use crate::gamecore::effects::{EffectSource, EffectTarget, TargetingRule, Trigger};
use crate::gamecore::engine::actions::ActionContext;
use crate::gamecore::engine::effect_context::target_wf;
use crate::gamecore::engine::effect_convert::{effect_def_to_effect_with_target, resolve_spell_target, spell_target, targeted_converted};
use crate::gamecore::engine::effect_queue::{EffectQueue, resolved, same_turn};
use crate::gamecore::engine::turn::{lemma_split, lemma_support_defs_len, lemma_support_step, support_abilities_queued, support_defs_queued};
use crate::gamecore::effects::PendingEffect;
use crate::gamecore::cards::CardDatabase;
use crate::gamecore::engine::passive::{commander_fires, support_modifiers, supports_modifiers, with_cached_passive, with_modifiers};
use crate::gamecore::engine::passive::{
    apply_all_support_passives_to_creature, apply_commander_passive_from_cache, apply_support_passives_to_all_creatures,
    collect_commander_creature_played_effects, lemma_commander_fires, support_effect_def_to_effect,
};
use crate::gamecore::keywords::Keywords;
use crate::gamecore::state::{Creature, CreatureStatus, GameState, PlayerState, Support, find_creature_index, occupied, support_index_from};
use crate::gamecore::types::{CardId, PlayerId, Slot};

verus! {

/// Why the active player cannot play the card at `hand_index` into `slot`, if not.
pub open spec fn play_card_error(s: GameState, db: crate::gamecore::cards::CardDatabase, hand_index: usize, slot: Slot)
    -> Option<Seq<char>>
{
    let ps = s.players[s.active_player.0 as int];
    if hand_index >= ps.hand@.len() {
        Some("Invalid hand index"@)
    } else {
        match db.spec_get(ps.hand@[hand_index as int].card_id) {
            None => Some("Card not found in database"@),
            Some(def) =>
                if ps.action_points < 1 {
                    Some("Not enough AP"@)
                } else if def.cost > ps.current_essence {
                    Some("Not enough Essence"@)
                } else {
                    match def.card_type {
                        CardType::Spell { targeting, .. } =>
                            if spell_target(targeting, slot, s.active_player) is Err {
                                Some("Invalid target slot"@)
                            } else {
                                None
                            },
                        _ => None,
                    }
                },
        }
    }
}

/// A creature card of the hand goes onto a free slot of the five, a support
/// card onto a free slot of the two (the board keeps one card per slot).
pub open spec fn placement_ok(s: GameState, db: crate::gamecore::cards::CardDatabase, hand_index: usize, slot: Slot) -> bool {
    let ps = s.players[s.active_player.0 as int];
    hand_index < ps.hand@.len() ==> {
        &&& (db.spec_get(ps.hand@[hand_index as int].card_id) matches Some(def)
            && def.card_type is Creature ==> slot.0 < 5 && !occupied(ps.creatures@, slot))
        &&& (db.spec_get(ps.hand@[hand_index as int].card_id) matches Some(def)
            && def.card_type is Support ==> slot.0 < 2 && support_index_from(ps.supports@, slot, 0) == -1)
    }
}

/// Copy a list of supports.
fn copy_supports(v: &Vec<Support>) -> (r: Vec<Support>)
    ensures
        r@ == v@,
{
    let mut out: Vec<Support> = Vec::new();
    let mut i: usize = 0;
    while i < v.len()
        invariant
            i <= v@.len(),
            out@ == v@.subrange(0, i as int),
        decreases v@.len() - i,
    {
        out.push(v[i]);
        proof { assert(out@ =~= v@.subrange(0, i + 1)); }
        i = i + 1;
    }
    proof { assert(v@.subrange(0, v@.len() as int) =~= v@); }
    out
}

/// The card the active player of `s` holds at `hand_index`.
pub open spec fn hand_card(s: GameState, hand_index: usize) -> CardId {
    s.players[s.active_player.0 as int].hand@[hand_index as int].card_id
}

/// `s1` is `s0` after the active player takes the card at `hand_index` out
/// of their hand and pays one action point and `cost` essence for it.
pub open spec fn card_paid(s0: GameState, hand_index: usize, cost: u8, s1: GameState) -> bool {
    let me = s0.active_player;
    let p = me.0 as int;
    &&& s1 == (GameState { players: s1.players, ..s0 })
    &&& s1.players[me.spec_opponent().0 as int] == s0.players[me.spec_opponent().0 as int]
    &&& s1.players[p] == (PlayerState {
            hand: s1.players[p].hand,
            action_points: (s0.players[p].action_points - 1) as u8,
            current_essence: (s0.players[p].current_essence - cost) as u8,
            ..s0.players[p]
        })
    &&& s1.players[p].hand@ == s0.players[p].hand@.remove(hand_index as int)
}

/// `s1` is `s0` after the active player takes the card at `hand_index` out
/// of their hand, paying nothing.
pub open spec fn card_taken(s0: GameState, hand_index: usize, s1: GameState) -> bool {
    let me = s0.active_player;
    let p = me.0 as int;
    &&& s1 == (GameState { players: s1.players, ..s0 })
    &&& s1.players[me.spec_opponent().0 as int] == s0.players[me.spec_opponent().0 as int]
    &&& s1.players[p] == (PlayerState { hand: s1.players[p].hand, ..s0.players[p] })
    &&& s1.players[p].hand@ == s0.players[p].hand@.remove(hand_index as int)
}

/// What the paid card `def` does from `(s0, q0)` on, ending at
/// `(fin, qfin)`: a creature is played, a support placed, a spell's effects
/// queued at its target (then those of its conditional groups), and what
/// was queued resolves.
pub open spec fn card_entered(s0: GameState, q0: EffectQueue, db: CardDatabase, card_id: CardId, def: CardDefinition,
    slot: Slot, fin: GameState, qfin: EffectQueue) -> bool
{
    match def.card_type {
        CardType::Creature { attack, health, abilities, .. } =>
            exists|s1: GameState, q1: EffectQueue, r: Seq<(Effect, EffectSource)>| #[trigger] creature_played(s0, q0, db,
                card_id, slot, attack, health, Keywords(def.spec_keywords()), abilities@, s1, q1, r)
                && resolved(s1, q1, fin, qfin),
        CardType::Support { durability, triggered_effects, .. } =>
            exists|s1: GameState, q1: EffectQueue| #[trigger] support_played(s0, q0, db,
                Support { card_id, owner: s0.active_player, slot, current_durability: durability }, triggered_effects@, s1, q1)
                && resolved(s1, q1, fin, qfin),
        CardType::Spell { targeting, effects, conditional_effects } =>
            if conditional_effects@.len() == 0 {
                exists|q1: EffectQueue| #[trigger] spell_queued(s0, q0, card_id, slot, targeting, effects@, q1)
                    && resolved(s0, q1, fin, qfin)
            } else {
                exists|q1: EffectQueue, s2: GameState, q2: EffectQueue, q3: EffectQueue|
                    #![trigger spell_queued(s0, q0, card_id, slot, targeting, effects@, q1), resolved(s0, q1, s2, q2),
                        resolved(s2, q3, fin, qfin)]
                    spell_queued(s0, q0, card_id, slot, targeting, effects@, q1) && resolved(s0, q1, s2, q2)
                    && resolved(s2, q3, fin, qfin)
            },
    }
}

/// Play the card at `hand_index` of the active player into `slot`: the card
/// leaves the hand, one action point and its cost in essence are paid, and
/// it enters play as a creature, a spell or a support.
pub fn execute_play_card(ctx: &mut ActionContext, hand_index: usize, slot: Slot) -> (r: Result<(), String>)
    requires
        old(ctx).wf(),
        placement_ok(old(ctx).state, *old(ctx).card_db, hand_index, slot),
    ensures
        final(ctx).wf(),
        final(ctx).card_db == old(ctx).card_db,
        same_turn(old(ctx).state, final(ctx).state),
        r is Err <==> play_card_error(old(ctx).state, *old(ctx).card_db, hand_index, slot) is Some,
        r matches Err(m) ==> m@ == play_card_error(old(ctx).state, *old(ctx).card_db, hand_index, slot)->0,
        hand_index >= old(ctx).state.players[old(ctx).state.active_player.0 as int].hand@.len() ==> *final(ctx) == *old(ctx),
        r is Err && hand_index < old(ctx).state.players[old(ctx).state.active_player.0 as int].hand@.len() ==> {
            &&& final(ctx).effect_queue == old(ctx).effect_queue
            &&& play_card_error(old(ctx).state, *old(ctx).card_db, hand_index, slot) == Some("Invalid target slot"@)
                ==> card_paid(old(ctx).state, hand_index, old(ctx).card_db.spec_get(hand_card(old(ctx).state, hand_index))->0.cost,
                    final(ctx).state)
            &&& play_card_error(old(ctx).state, *old(ctx).card_db, hand_index, slot) != Some("Invalid target slot"@)
                ==> card_taken(old(ctx).state, hand_index, final(ctx).state)
        },
        r is Ok ==> exists|sp: GameState| #[trigger] card_paid(old(ctx).state, hand_index,
            old(ctx).card_db.spec_get(hand_card(old(ctx).state, hand_index))->0.cost, sp)
            && card_entered(sp, old(ctx).effect_queue, *old(ctx).card_db, hand_card(old(ctx).state, hand_index),
                old(ctx).card_db.spec_get(hand_card(old(ctx).state, hand_index))->0, slot, final(ctx).state, final(ctx).effect_queue),
{
    let current_player = ctx.state.active_player;
    let p = current_player.index();
    if hand_index >= ctx.state.players[p].hand.len() {
        return Err(String::from_str("Invalid hand index"));
    }
    let card_instance = ctx.state.players[p].hand.remove(hand_index);
    let card_id = card_instance.card_id;
    proof {
        reveal_strlit("Invalid target slot");
        reveal_strlit("Card not found in database");
        reveal_strlit("Not enough AP");
        reveal_strlit("Not enough Essence");
        assert(card_taken(old(ctx).state, hand_index, ctx.state));
        assert("Not enough AP"@.len() != "Invalid target slot"@.len());
        assert("Not enough Essence"@.len() != "Invalid target slot"@.len());
        assert("Card not found in database"@.len() != "Invalid target slot"@.len());
    }
    let card_def = match ctx.card_db.get(card_id) {
        Some(c) => c,
        None => return Err(String::from_str("Card not found in database")),
    };
    if ctx.state.players[p].action_points < 1 {
        return Err(String::from_str("Not enough AP"));
    }
    if card_def.cost > ctx.state.players[p].current_essence {
        return Err(String::from_str("Not enough Essence"));
    }
    ctx.state.players[p].action_points = ctx.state.players[p].action_points - 1;
    ctx.state.players[p].current_essence = ctx.state.players[p].current_essence - card_def.cost;
    let ghost sp = ctx.state;
    proof {
        assert(card_paid(old(ctx).state, hand_index, card_def.cost, sp));
    }
    match &card_def.card_type {
        CardType::Creature { attack, health, abilities, .. } => {
            play_creature(ctx, card_id, slot, *attack, *health, card_def.keywords(), abilities);
            Ok(())
        }
        CardType::Spell { targeting, effects, conditional_effects } => {
            play_spell(ctx, card_id, slot, targeting, effects, conditional_effects)
        }
        CardType::Support { durability, triggered_effects, .. } => {
            play_support(ctx, card_id, slot, *durability, triggered_effects);
            Ok(())
        }
    }
}

/// The creature abilities of card `id` (none when unknown or not a creature).
pub open spec fn card_creature_abilities(db: CardDatabase, id: CardId) -> Seq<AbilityDefinition> {
    match db.spec_get(id) {
        Some(def) => match def.card_type {
            CardType::Creature { abilities, .. } => abilities@,
            _ => Seq::empty(),
        },
        None => Seq::empty(),
    }
}

/// Whether creature `c` answers a creature played at `slot`: it stands on
/// another slot and is not silenced.
pub open spec fn answers_ally_played(c: Creature, slot: Slot) -> bool {
    c.slot.0 != slot.0 && !c.status.spec_silenced()
}

/// How many entries the OnAllyPlayed abilities of the creatures `cs` queue.
pub open spec fn ally_played_count(cs: Seq<Creature>, db: CardDatabase, owner: PlayerId, slot: Slot) -> int
    decreases cs.len(),
{
    if cs.len() == 0 {
        0
    } else {
        ally_played_count(cs.drop_last(), db, owner, slot) + if answers_ally_played(cs.last(), slot) {
            abilities_count(card_creature_abilities(db, cs.last().card_id), Trigger::OnAllyPlayed, owner, cs.last().slot)
        } else {
            0
        }
    }
}

/// `out` is what queuing the OnAllyPlayed abilities of the creatures `cs`
/// (those that answer a creature played at `slot`) gives, in board order.
pub open spec fn ally_played_queued(cs: Seq<Creature>, db: CardDatabase, owner: PlayerId, slot: Slot, out: Seq<PendingEffect>) -> bool
    decreases cs.len(),
{
    if cs.len() == 0 {
        out.len() == 0
    } else {
        let c = cs.last();
        if answers_ally_played(c, slot) {
            let abs = card_creature_abilities(db, c.card_id);
            let k = out.len() - abilities_count(abs, Trigger::OnAllyPlayed, owner, c.slot);
            &&& 0 <= k
            &&& ally_played_queued(cs.drop_last(), db, owner, slot, out.subrange(0, k))
            &&& abilities_queued(abs, Trigger::OnAllyPlayed, out.subrange(k, out.len() as int), owner, c.slot)
        } else {
            ally_played_queued(cs.drop_last(), db, owner, slot, out)
        }
    }
}

proof fn lemma_ally_played_len(cs: Seq<Creature>, db: CardDatabase, owner: PlayerId, slot: Slot, out: Seq<PendingEffect>)
    requires
        ally_played_queued(cs, db, owner, slot, out),
    ensures
        out.len() == ally_played_count(cs, db, owner, slot),
    decreases cs.len(),
{
    if cs.len() > 0 {
        let c = cs.last();
        if answers_ally_played(c, slot) {
            let abs = card_creature_abilities(db, c.card_id);
            let k = out.len() - abilities_count(abs, Trigger::OnAllyPlayed, owner, c.slot);
            lemma_ally_played_len(cs.drop_last(), db, owner, slot, out.subrange(0, k));
            lemma_abilities_len(abs, Trigger::OnAllyPlayed, out.subrange(k, out.len() as int), owner, c.slot);
        } else {
            lemma_ally_played_len(cs.drop_last(), db, owner, slot, out);
        }
    }
}

/// The creature that the active player of `s` puts at `slot` when playing
/// card `card_id`: fresh (this turn, the next instance id), with the
/// passives of the player's supports and then of the commander applied.
pub open spec fn played_creature(s: GameState, db: CardDatabase, card_id: CardId, slot: Slot, attack: u8, health: u8,
    keywords: Keywords) -> Creature
{
    let p = s.active_player.0 as int;
    with_cached_passive(
        with_modifiers(
            fresh_creature(s.next_instance_id, card_id, s.active_player, slot, attack, health, keywords.0, s.current_turn, None, None),
            supports_modifiers(db, s.players[p].supports@)),
        s.players[p].commander_passive)
}

/// Playing a creature card from `(s0, q0)` gives `(s1, q1)` before
/// resolution: the creature joins the active player's board (one instance
/// id used), and queued after what was there are its OnPlay abilities, the
/// OnAllyPlayed abilities of the player's other creatures, and the
/// commander's OnCreaturePlayed effects `r`.
pub open spec fn creature_played(s0: GameState, q0: EffectQueue, db: CardDatabase, card_id: CardId, slot: Slot, attack: u8,
    health: u8, keywords: Keywords, abs: Seq<AbilityDefinition>, s1: GameState, q1: EffectQueue,
    r: Seq<(Effect, EffectSource)>) -> bool
{
    let me = s0.active_player;
    let p = me.0 as int;
    let q = q1.pending();
    let n0 = q0.pending().len() as int;
    let n1 = n0 + abilities_count(abs, Trigger::OnPlay, me, slot);
    let n2 = n1 + ally_played_count(s1.players[p].creatures@, db, me, slot);
    &&& s1 == (GameState { players: s1.players, next_instance_id: next_id(s0.next_instance_id), ..s0 })
    &&& s1.players[me.spec_opponent().0 as int] == s0.players[me.spec_opponent().0 as int]
    &&& s1.players[p] == (PlayerState { creatures: s1.players[p].creatures, ..s0.players[p] })
    &&& s1.players[p].creatures@ == s0.players[p].creatures@.push(
            played_creature(s0, db, card_id, slot, attack, health, keywords))
    &&& q1.wf()
    &&& q1.deaths() == q0.deaths()
    &&& q1.result() == q0.result()
    &&& n0 <= n1 <= n2 <= q.len()
    &&& q.subrange(0, n0) == q0.pending()
    &&& abilities_queued(abs, Trigger::OnPlay, q.subrange(n0, n1), me, slot)
    &&& ally_played_queued(s1.players[p].creatures@, db, me, slot, q.subrange(n1, n2))
    &&& commander_fires(s1, me, CommanderTrigger::OnCreaturePlayed, db, Some(keywords), r)
    &&& q.subrange(n2, q.len() as int) == pendings_of(r)
}

/// Put a creature card onto the board: supports' and commander's passives
/// apply to it, its OnPlay abilities, its allies' OnAllyPlayed abilities and
/// the commander's OnCreaturePlayed effects are queued and resolved.
fn play_creature(ctx: &mut ActionContext, card_id: CardId, slot: Slot, attack: u8, health: u8, keywords: Keywords,
    abilities: &Vec<AbilityDefinition>)
    requires
        old(ctx).wf(),
        slot.0 < 5,
        !occupied(old(ctx).state.players[old(ctx).state.active_player.0 as int].creatures@, slot),
    ensures
        final(ctx).wf(),
        final(ctx).card_db == old(ctx).card_db,
        same_turn(old(ctx).state, final(ctx).state),
        exists|s1: GameState, q1: EffectQueue, r: Seq<(Effect, EffectSource)>| #[trigger] creature_played(old(ctx).state,
            old(ctx).effect_queue, *old(ctx).card_db, card_id, slot, attack, health, keywords, abilities@, s1, q1, r)
            && resolved(s1, q1, final(ctx).state, final(ctx).effect_queue),
{
    let ghost s0 = ctx.state;
    let ghost q0 = ctx.effect_queue.pending();
    let current_player = ctx.state.active_player;
    let p = current_player.index();
    let instance_id = ctx.state.next_creature_instance_id();
    let creature = Creature {
        instance_id,
        card_id,
        owner: current_player,
        slot,
        attack: attack as i8,
        current_health: health as i8,
        max_health: health as i8,
        base_attack: attack,
        base_health: health,
        keywords,
        status: CreatureStatus(0),
        turn_played: ctx.state.current_turn,
        frenzy_stacks: 0,
        token_abilities: None,
        token_name: None,
    };
    proof {
        assert(creature == fresh_creature(s0.next_instance_id, card_id, current_player, slot, attack, health, keywords.0,
            s0.current_turn, None, None));
    }
    let ghost b0 = ctx.state.players[p as int].creatures@;
    ctx.state.players[p].creatures.push(creature);
    proof { crate::gamecore::state::lemma_board_ok_push(b0, creature); }
    let supports = copy_supports(&ctx.state.players[p].supports);
    proof {
        crate::gamecore::state::lemma_slot_index(b0.push(creature), slot);
        crate::gamecore::state::lemma_slot_index(b0, slot);
        assert(b0.push(creature)[b0.len() as int] == creature);
        assert(forall|j: int| 0 <= j < b0.len() ==> b0.push(creature)[j] == b0[j]);
    }
    if let Some(i) = find_creature_index(&ctx.state.players[p].creatures, slot) {
        let ghost b1 = ctx.state.players[p as int].creatures@;
        proof { assert(i == b0.len()); }
        apply_all_support_passives_to_creature(&mut ctx.state.players[p].creatures[i], supports.as_slice(), ctx.card_db);
        proof {
            crate::gamecore::engine::passive::lemma_with_modifiers_slot(b1[i as int],
                crate::gamecore::engine::passive::supports_modifiers(*ctx.card_db, supports@));
            assert(ctx.state.players[p as int].creatures@ == b1.update(i as int, ctx.state.players[p as int].creatures@[i as int]));
            crate::gamecore::state::lemma_board_ok_update(b1, i as int, ctx.state.players[p as int].creatures@[i as int]);
        }
    }
    let ghost c1 = with_modifiers(creature, supports_modifiers(*ctx.card_db, s0.players[p as int].supports@));
    proof {
        assert(ctx.state.players[p as int].creatures@ == b0.push(c1));
    }
    let passive = ctx.state.players[p].commander_passive;
    proof {
        crate::gamecore::state::lemma_slot_index(b0.push(c1), slot);
        assert(b0.push(c1)[b0.len() as int] == c1);
    }
    if let Some(i) = find_creature_index(&ctx.state.players[p].creatures, slot) {
        let ghost b2 = ctx.state.players[p as int].creatures@;
        proof { assert(i == b0.len()); }
        apply_commander_passive_from_cache(&mut ctx.state.players[p].creatures[i], &passive);
        proof {
            assert(ctx.state.players[p as int].creatures@ == b2.update(i as int, ctx.state.players[p as int].creatures@[i as int]));
            crate::gamecore::state::lemma_board_ok_update(b2, i as int, ctx.state.players[p as int].creatures@[i as int]);
        }
    }
    let ghost s1 = ctx.state;
    proof {
        assert(s1.players[p as int].creatures@ =~= b0.push(played_creature(s0, *ctx.card_db, card_id, slot, attack, health, keywords)));
    }
    let ghost e0 = ctx.effect_queue;
    queue_triggered_abilities(&mut ctx.effect_queue, abilities.as_slice(), Trigger::OnPlay, current_player, slot);
    let ghost m1 = ctx.effect_queue.pending();
    proof {
        lemma_abilities_len(abilities@, Trigger::OnPlay, m1.subrange(q0.len() as int, m1.len() as int), current_player, slot);
        assert(m1.subrange(m1.len() as int, m1.len() as int) =~= Seq::<PendingEffect>::empty());
    }
    let mut k: usize = 0;
    while k < ctx.state.players[p].creatures.len()
        invariant
            ctx.wf(),
            ctx.card_db == old(ctx).card_db,
            ctx.state == s1,
            current_player == s0.active_player,
            current_player.valid(),
            p == current_player.0,
            k <= s1.players[p as int].creatures@.len(),
            queue_grew(e0, ctx.effect_queue),
            ctx.effect_queue.pending().len() >= m1.len(),
            ctx.effect_queue.pending().subrange(0, m1.len() as int) == m1,
            ally_played_queued(s1.players[p as int].creatures@.subrange(0, k as int), *ctx.card_db, current_player, slot,
                ctx.effect_queue.pending().subrange(m1.len() as int, ctx.effect_queue.pending().len() as int)),
        decreases ctx.state.players[p as int].creatures@.len() - k,
    {
        let ghost before = ctx.effect_queue;
        let ghost cs1 = s1.players[p as int].creatures@.subrange(0, k + 1);
        proof {
            assert(cs1.drop_last() =~= s1.players[p as int].creatures@.subrange(0, k as int));
            assert(cs1.last() == s1.players[p as int].creatures@[k as int]);
        }
        let ally_slot = ctx.state.players[p].creatures[k].slot;
        if ally_slot.0 != slot.0 && !ctx.state.players[p].creatures[k].status.is_silenced() {
            if let Some(ally_def) = ctx.card_db.get(ctx.state.players[p].creatures[k].card_id) {
                if let Some(ally_abilities) = ally_def.creature_abilities() {
                    queue_triggered_abilities(&mut ctx.effect_queue, ally_abilities, Trigger::OnAllyPlayed, current_player,
                        ally_slot);
                    proof { crate::gamecore::combat::triggers::lemma_queue_grew_trans(e0, before, ctx.effect_queue); }
                }
            }
            proof {
                let q = ctx.effect_queue.pending();
                let abs = card_creature_abilities(*ctx.card_db, cs1.last().card_id);
                if q.len() == before.pending().len() {
                    assert(q =~= before.pending());
                }
                assert(abilities_queued(abs, Trigger::OnAllyPlayed, q.subrange(before.pending().len() as int, q.len() as int),
                    current_player, ally_slot));
                lemma_abilities_len(abs, Trigger::OnAllyPlayed, q.subrange(before.pending().len() as int, q.len() as int),
                    current_player, ally_slot);
                assert(q.subrange(0, before.pending().len() as int) == before.pending());
                lemma_queue_split(m1, before.pending(), q);
                assert(q.subrange(0, m1.len() as int) =~= m1);
                assert(ally_played_queued(cs1, *ctx.card_db, current_player, slot, q.subrange(m1.len() as int, q.len() as int)));
            }
        }
        k = k + 1;
    }
    let ghost m2 = ctx.effect_queue.pending();
    proof {
        assert(s1.players[p as int].creatures@.subrange(0, s1.players[p as int].creatures@.len() as int) =~= s1.players[p as int].creatures@);
        lemma_ally_played_len(s1.players[p as int].creatures@, *ctx.card_db, current_player, slot,
            m2.subrange(m1.len() as int, m2.len() as int));
    }
    let played = collect_commander_creature_played_effects(&ctx.state, current_player, keywords, ctx.card_db);
    proof {
        lemma_commander_fires(ctx.state, current_player, CommanderTrigger::OnCreaturePlayed, *ctx.card_db, Some(keywords),
            played@);
    }
    ctx.effect_queue.push_commander_effects(played, current_player);
    proof {
        let q = ctx.effect_queue.pending();
        let n0 = q0.len() as int;
        let n1 = m1.len() as int;
        let n2 = m2.len() as int;
        assert(q.subrange(0, n2) == m2);
        assert(q.subrange(n2, q.len() as int) =~= pendings_of(played@));
        assert(q.subrange(0, n0) =~= m2.subrange(0, n0));
        assert(m2.subrange(0, n0) =~= m1.subrange(0, n0));
        assert(q.subrange(n0, n1) =~= m1.subrange(n0, n1));
        assert(q.subrange(n1, n2) =~= m2.subrange(n1, n2));
        assert(creature_played(s0, old(ctx).effect_queue, *old(ctx).card_db, card_id, slot, attack, health, keywords,
            abilities@, s1, ctx.effect_queue, played@));
    }
    let ghost qmid = ctx.effect_queue;
    ctx.process_effects();
    proof {
        assert(resolved(s1, qmid, ctx.state, ctx.effect_queue));
    }
}

/// `out` is what queuing the effect definitions `defs` of `owner`, aimed at
/// `target`, gives: each definition that converts adds its effect, in order,
/// from `source`.
pub open spec fn defs_queued(defs: Seq<EffectDefinition>, target: EffectTarget, owner: PlayerId, source: EffectSource,
    out: Seq<PendingEffect>) -> bool
    decreases defs.len(),
{
    if defs.len() == 0 {
        out.len() == 0
    } else {
        exists|e: Option<Effect>| #[trigger] targeted_converted(defs.last(), e, target, owner) && match e {
            Some(x) => out.len() > 0 && out.last() == (PendingEffect { effect: x, source })
                && defs_queued(defs.drop_last(), target, owner, source, out.drop_last()),
            None => defs_queued(defs.drop_last(), target, owner, source, out),
        }
    }
}

/// Casting spell `card_id` at `slot` from `(s0, q0)` queues, after what was
/// there, the effects of `defs` aimed at the spell's target; the game is
/// untouched until the queue resolves.
pub open spec fn spell_queued(s0: GameState, q0: EffectQueue, card_id: CardId, slot: Slot, targeting: TargetingRule,
    defs: Seq<EffectDefinition>, q1: EffectQueue) -> bool
{
    let n0 = q0.pending().len() as int;
    match spell_target(targeting, slot, s0.active_player) {
        Ok(t) => {
            &&& q1.wf()
            &&& q1.deaths() == q0.deaths()
            &&& q1.pending().len() >= n0
            &&& q1.pending().subrange(0, n0) == q0.pending()
            &&& defs_queued(defs, t, s0.active_player, EffectSource::Card(card_id), q1.pending().subrange(n0, q1.pending().len() as int))
        },
        Err(_) => false,
    }
}

/// Cast a spell: its effects are queued at its target and resolved; when it
/// has conditional effects, those whose condition holds on what the primary
/// effects did are queued next and resolved.
fn play_spell(ctx: &mut ActionContext, card_id: CardId, slot: Slot, targeting: &TargetingRule,
    effects: &Vec<EffectDefinition>, conditional_effects: &Vec<ConditionalEffectGroup>) -> (r: Result<(), String>)
    requires
        old(ctx).wf(),
    ensures
        final(ctx).wf(),
        final(ctx).card_db == old(ctx).card_db,
        same_turn(old(ctx).state, final(ctx).state),
        r is Err <==> spell_target(*targeting, slot, old(ctx).state.active_player) is Err,
        r matches Err(m) ==> m@ == "Invalid target slot"@ && *final(ctx) == *old(ctx),
        r is Ok && conditional_effects@.len() == 0 ==> exists|q1: EffectQueue| #[trigger] spell_queued(old(ctx).state,
            old(ctx).effect_queue, card_id, slot, *targeting, effects@, q1)
            && resolved(old(ctx).state, q1, final(ctx).state, final(ctx).effect_queue),
        r is Ok && conditional_effects@.len() > 0 ==> exists|q1: EffectQueue, s2: GameState, q2: EffectQueue, q3: EffectQueue|
            #![trigger spell_queued(old(ctx).state, old(ctx).effect_queue, card_id, slot, *targeting, effects@, q1),
                resolved(old(ctx).state, q1, s2, q2), resolved(s2, q3, final(ctx).state, final(ctx).effect_queue)]
            spell_queued(old(ctx).state, old(ctx).effect_queue, card_id, slot, *targeting, effects@, q1)
            && resolved(old(ctx).state, q1, s2, q2) && resolved(s2, q3, final(ctx).state, final(ctx).effect_queue),
{
    let current_player = ctx.state.active_player;
    let target = match resolve_spell_target(targeting, slot, current_player) {
        Ok(t) => t,
        Err(e) => return Err(e),
    };
    let source = EffectSource::Card(card_id);
    let ghost q0 = ctx.effect_queue.pending();
    let ghost n0 = q0.len() as int;
    proof { assert(q0.subrange(n0, n0) =~= Seq::<PendingEffect>::empty()); assert(q0.subrange(0, n0) =~= q0); }
    let mut k: usize = 0;
    while k < effects.len()
        invariant
            ctx.wf(),
            ctx.card_db == old(ctx).card_db,
            ctx.state == old(ctx).state,
            current_player.valid(),
            current_player == old(ctx).state.active_player,
            target_wf(target),
            source == EffectSource::Card(card_id),
            k <= effects@.len(),
            q0 == old(ctx).effect_queue.pending(),
            n0 == q0.len(),
            ctx.effect_queue.deaths() == old(ctx).effect_queue.deaths(),
            ctx.effect_queue.result() == old(ctx).effect_queue.result(),
            ctx.effect_queue.pending().len() >= n0,
            ctx.effect_queue.pending().subrange(0, n0) == q0,
            defs_queued(effects@.subrange(0, k as int), target, current_player, source,
                ctx.effect_queue.pending().subrange(n0, ctx.effect_queue.pending().len() as int)),
        decreases effects@.len() - k,
    {
        let ghost before = ctx.effect_queue.pending();
        let conv = effect_def_to_effect_with_target(&effects[k], target, current_player);
        proof {
            let d = effects@.subrange(0, k + 1);
            assert(d.drop_last() =~= effects@.subrange(0, k as int));
            assert(d.last() == effects@[k as int]);
        }
        if let Some(effect) = conv {
            ctx.effect_queue.push(effect, source);
            proof {
                let q = ctx.effect_queue.pending();
                assert(q.subrange(0, n0) =~= before.subrange(0, n0));
                assert(q.subrange(n0, q.len() as int).drop_last() =~= before.subrange(n0, before.len() as int));
                assert(defs_queued(effects@.subrange(0, k + 1), target, current_player, source,
                    q.subrange(n0, q.len() as int)));
            }
        } else {
            proof {
                assert(defs_queued(effects@.subrange(0, k + 1), target, current_player, source,
                    before.subrange(n0, before.len() as int)));
            }
        }
        k = k + 1;
    }
    let ghost q1 = ctx.effect_queue;
    proof {
        assert(effects@.subrange(0, effects@.len() as int) =~= effects@);
        assert(spell_queued(old(ctx).state, old(ctx).effect_queue, card_id, slot, *targeting, effects@, q1));
    }
    if conditional_effects.len() > 0 {
        ctx.effect_queue.reset_accumulated_result();
        let ghost q1r = ctx.effect_queue;
        ctx.process_effects();
        let ghost s2 = ctx.state;
        let ghost q2 = ctx.effect_queue;
        let result = *ctx.effect_queue.accumulated_result();
        let mut g: usize = 0;
        while g < conditional_effects.len()
            invariant
                ctx.wf(),
                ctx.card_db == old(ctx).card_db,
                same_turn(old(ctx).state, ctx.state),
                ctx.state == s2,
                current_player.valid(),
                target_wf(target),
                source == EffectSource::Card(card_id),
            decreases conditional_effects@.len() - g,
        {
            let group = &conditional_effects[g];
            if result.check(&group.condition) {
                let mut e: usize = 0;
                while e < group.effects.len()
                    invariant
                        ctx.wf(),
                        ctx.card_db == old(ctx).card_db,
                        same_turn(old(ctx).state, ctx.state),
                        ctx.state == s2,
                        current_player.valid(),
                        target_wf(target),
                        source == EffectSource::Card(card_id),
                    decreases group.effects@.len() - e,
                {
                    if let Some(effect) = effect_def_to_effect_with_target(&group.effects[e], target, current_player) {
                        ctx.effect_queue.push(effect, source);
                    }
                    e = e + 1;
                }
            }
            g = g + 1;
        }
        let ghost q3 = ctx.effect_queue;
        ctx.process_effects();
        proof {
            assert(spell_queued(old(ctx).state, old(ctx).effect_queue, card_id, slot, *targeting, effects@, q1r));
            assert(resolved(s2, q3, ctx.state, ctx.effect_queue));
        }
        return Ok(());
    }
    ctx.process_effects();
    Ok(())
}

/// The support `sup` placed for the active player of `s0`: it joins their
/// supports and its passives apply to each of their creatures; nothing else
/// changes.
pub open spec fn support_placed(s0: GameState, s1: GameState, db: CardDatabase, sup: Support) -> bool {
    let me = s0.active_player;
    let p = me.0 as int;
    &&& s1 == (GameState { players: s1.players, ..s0 })
    &&& s1.players[me.spec_opponent().0 as int] == s0.players[me.spec_opponent().0 as int]
    &&& s1.players[p] == (PlayerState { supports: s1.players[p].supports, creatures: s1.players[p].creatures, ..s0.players[p] })
    &&& s1.players[p].supports@ == s0.players[p].supports@.push(sup)
    &&& s1.players[p].creatures@ == s0.players[p].creatures@.map_values(
            |c: Creature| with_modifiers(c, support_modifiers(db, sup.card_id)))
}

/// Playing support `sup` with triggered abilities `abs` from `(s0, q0)`
/// gives `(s1, q1)` before resolution: the support is placed and the
/// effects of its OnPlay abilities are queued from it.
pub open spec fn support_played(s0: GameState, q0: EffectQueue, db: CardDatabase, sup: Support, abs: Seq<AbilityDefinition>,
    s1: GameState, q1: EffectQueue) -> bool
{
    &&& support_placed(s0, s1, db, sup)
    &&& q1.wf()
    &&& q1.pending().len() >= q0.pending().len()
    &&& q1.pending().subrange(0, q0.pending().len() as int) == q0.pending()
    &&& support_abilities_queued(abs, Trigger::OnPlay, q1.pending().subrange(q0.pending().len() as int, q1.pending().len() as int),
            s0.active_player, sup.slot)
    &&& q1.deaths() == q0.deaths()
    &&& q1.result() == q0.result()
}

/// Put a support onto the board: its passives apply to the player's
/// creatures, its OnPlay abilities are queued and resolved.
fn play_support(ctx: &mut ActionContext, card_id: CardId, slot: Slot, durability: u8, triggered_effects: &Vec<AbilityDefinition>)
    requires
        old(ctx).wf(),
        slot.0 < 2,
        support_index_from(old(ctx).state.players[old(ctx).state.active_player.0 as int].supports@, slot, 0) == -1,
    ensures
        final(ctx).wf(),
        final(ctx).card_db == old(ctx).card_db,
        same_turn(old(ctx).state, final(ctx).state),
        exists|s1: GameState, q1: EffectQueue| #[trigger] support_played(old(ctx).state, old(ctx).effect_queue, *old(ctx).card_db,
            Support { card_id, owner: old(ctx).state.active_player, slot, current_durability: durability }, triggered_effects@, s1, q1)
            && resolved(s1, q1, final(ctx).state, final(ctx).effect_queue),
{
    let ghost s0 = ctx.state;
    let ghost q0 = ctx.effect_queue.pending();
    let current_player = ctx.state.active_player;
    let p = current_player.index();
    let ghost sup = Support { card_id, owner: current_player, slot, current_durability: durability };
    proof {
        crate::gamecore::state::lemma_supports_ok_push(ctx.state.players[p as int].supports@, sup);
    }
    ctx.state.players[p].supports.push(Support { card_id, owner: current_player, slot, current_durability: durability });
    let ghost b0 = ctx.state.players[p as int].creatures@;
    apply_support_passives_to_all_creatures(card_id, &mut ctx.state.players[p].creatures, ctx.card_db);
    proof {
        assert forall|j: int| 0 <= j < b0.len() implies (#[trigger] ctx.state.players[p as int].creatures@[j]).slot == b0[j].slot by {
            crate::gamecore::engine::passive::lemma_with_modifiers_slot(b0[j],
                crate::gamecore::engine::passive::support_modifiers(*ctx.card_db, card_id));
        }
        crate::gamecore::state::lemma_board_ok_same_slots(b0, ctx.state.players[p as int].creatures@);
        assert(ctx.state.players[p as int].creatures@ =~= b0.map_values(
            |c: Creature| with_modifiers(c, support_modifiers(*ctx.card_db, card_id))));
        assert(support_placed(s0, ctx.state, *ctx.card_db, sup));
        assert(q0.subrange(q0.len() as int, q0.len() as int) =~= Seq::<PendingEffect>::empty());
    }
    let ghost s1 = ctx.state;
    let source = EffectSource::Support { owner: current_player, slot };
    let mut a: usize = 0;
    while a < triggered_effects.len()
        invariant
            ctx.wf(),
            ctx.card_db == old(ctx).card_db,
            ctx.state == s1,
            current_player.valid(),
            current_player == s0.active_player,
            source == (EffectSource::Support { owner: current_player, slot }),
            a <= triggered_effects@.len(),
            ctx.effect_queue.pending().len() >= q0.len(),
            ctx.effect_queue.pending().subrange(0, q0.len() as int) == q0,
            support_abilities_queued(triggered_effects@.subrange(0, a as int), Trigger::OnPlay,
                ctx.effect_queue.pending().subrange(q0.len() as int, ctx.effect_queue.pending().len() as int), current_player, slot),
            ctx.effect_queue.deaths() == old(ctx).effect_queue.deaths(),
            ctx.effect_queue.result() == old(ctx).effect_queue.result(),
        decreases triggered_effects@.len() - a,
    {
        let ability = &triggered_effects[a];
        let ghost m1 = ctx.effect_queue.pending();
        let ghost t1 = triggered_effects@.subrange(0, a + 1);
        proof { assert(t1.drop_last() =~= triggered_effects@.subrange(0, a as int)); }
        if ability.trigger == Trigger::OnPlay {
            proof { assert(m1.subrange(m1.len() as int, m1.len() as int) =~= Seq::<PendingEffect>::empty()); }
            let mut k: usize = 0;
            while k < ability.effects.len()
                invariant
                    ctx.wf(),
                    ctx.card_db == old(ctx).card_db,
                    ctx.state == s1,
                    current_player.valid(),
                    source == (EffectSource::Support { owner: current_player, slot }),
                    k <= ability.effects@.len(),
                    ctx.effect_queue.pending().len() >= m1.len(),
                    ctx.effect_queue.pending().subrange(0, m1.len() as int) == m1,
                    support_defs_queued(ability.effects@.subrange(0, k as int), ability.targeting,
                        ctx.effect_queue.pending().subrange(m1.len() as int, ctx.effect_queue.pending().len() as int),
                        current_player, slot),
                    ctx.effect_queue.deaths() == old(ctx).effect_queue.deaths(),
                    ctx.effect_queue.result() == old(ctx).effect_queue.result(),
                decreases ability.effects@.len() - k,
            {
                let ghost before = ctx.effect_queue.pending();
                let r = support_effect_def_to_effect(&ability.effects[k], current_player, ability);
                proof {
                    lemma_support_step(ability.effects@.subrange(0, k as int), ability.targeting,
                        before.subrange(m1.len() as int, before.len() as int), current_player, slot, ability.effects@[k as int], r);
                    assert(ability.effects@.subrange(0, k as int).push(ability.effects@[k as int]) =~= ability.effects@.subrange(0, k + 1));
                }
                if let Some(effect) = r {
                    ctx.effect_queue.push(effect, source);
                    proof {
                        assert(ctx.effect_queue.pending().subrange(0, m1.len() as int) =~= before.subrange(0, m1.len() as int));
                        assert(ctx.effect_queue.pending().subrange(m1.len() as int, ctx.effect_queue.pending().len() as int)
                            =~= before.subrange(m1.len() as int, before.len() as int).push(PendingEffect { effect, source }));
                    }
                }
                k = k + 1;
            }
            proof {
                let q = ctx.effect_queue.pending();
                assert(ability.effects@.subrange(0, ability.effects@.len() as int) =~= ability.effects@);
                lemma_support_defs_len(ability.effects@, ability.targeting, q.subrange(m1.len() as int, q.len() as int), current_player, slot);
                lemma_split(q0, m1, q);
                assert(q.subrange(0, q0.len() as int) =~= q0);
                assert(support_abilities_queued(t1, Trigger::OnPlay, q.subrange(q0.len() as int, q.len() as int), current_player, slot));
            }
        }
        a = a + 1;
    }
    proof {
        assert(triggered_effects@.subrange(0, triggered_effects@.len() as int) =~= triggered_effects@);
        assert(support_played(s0, old(ctx).effect_queue, *old(ctx).card_db, sup, triggered_effects@, ctx.state, ctx.effect_queue));
    }
    let ghost qmid = ctx.effect_queue;
    ctx.process_effects();
    proof {
        assert(resolved(s1, qmid, ctx.state, ctx.effect_queue));
    }
}

} // verus!
