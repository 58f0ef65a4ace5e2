//! Creature deaths in combat, and the life check after combat.

use vstd::prelude::*;
use crate::gamecore::cards::{CardDatabase, CommanderTrigger};
use crate::gamecore::combat::triggers::{
    lemma_queue_grew_refl, lemma_queue_grew_trans, queue_grew, trigger_ally_death_for_allies, queue_triggered_abilities,
};
use crate::gamecore::effects::Trigger;
use crate::gamecore::keywords::Keywords;
use crate::gamecore::engine::effect_queue::EffectQueue;
use crate::gamecore::engine::passive::{
    collect_commander_ally_death_effects, collect_commander_any_death_effects, collect_commander_enemy_death_effects,
    lemma_commander_fires,
};
use crate::gamecore::engine::triggers::{same_but_boards, lemma_same_but_boards_trans};
use crate::gamecore::engine::victory::{ended_with, life_result};
use crate::gamecore::state::{lemma_board_ok_same_slots, lemma_board_ok_without_slot, 
    Creature, GamePhase, GameResult, GameState, WinReason, find_creature_index, lemma_slot_index, lemma_without_slot,
    occupied, remove_creatures_at, without_slot, board_ok, slot_index,
};
use crate::gamecore::types::{PlayerId, Slot};

verus! {

/// The number of creatures on both boards.
pub open spec fn total_creatures(s: GameState) -> nat {
    s.players[0].creatures@.len() + s.players[1].creatures@.len()
}

/// Every slot occupied on a side of `post` was occupied on that side of `pre`.
pub open spec fn slots_shrunk(pre: GameState, post: GameState) -> bool {
    forall|p: int, s: Slot| 0 <= p < 2 && #[trigger] occupied(post.players[p].creatures@, s) ==> occupied(pre.players[p].creatures@, s)
}

/// Removing an occupied slot removes at least one creature.
pub proof fn lemma_without_slot_shrinks(cs: Seq<Creature>, slot: Slot)
    requires
        occupied(cs, slot),
    ensures
        without_slot(cs, slot).len() < cs.len(),
    decreases cs.len(),
{
    let init = cs.drop_last();
    lemma_without_slot(init, slot);
    if cs.last().slot != slot {
        let k = choose|k: int| 0 <= k < cs.len() && (#[trigger] cs[k]).slot == slot;
        assert(k < cs.len() - 1);
        assert(init[k].slot == slot);
        lemma_without_slot_shrinks(init, slot);
    }
}

/// The slots left after removing a slot were there before, and the removed slot is gone.
pub proof fn lemma_without_slot_occupied(cs: Seq<Creature>, slot: Slot, s: Slot)
    ensures
        occupied(without_slot(cs, slot), s) ==> occupied(cs, s) && s != slot,
{
    lemma_without_slot(cs, slot);
    let w = without_slot(cs, slot);
    if occupied(w, s) {
        let j = choose|j: int| 0 <= j < w.len() && (#[trigger] w[j]).slot == s;
        assert(cs.contains(w[j]));
        let k = choose|k: int| 0 <= k < cs.len() && cs[k] == w[j];
        assert(cs[k].slot == s);
    }
}

/// A creature after Volatile's 2 damage (health not below 0).
pub open spec fn volatile_hit(c: Creature) -> Creature {
    Creature { current_health: if c.current_health <= 2 { 0i8 } else { (c.current_health - 2) as i8 }, ..c }
}

/// The slots of the creatures that Volatile's 2 damage leaves at 0, in board order.
pub open spec fn volatile_killed(cs: Seq<Creature>) -> Seq<Slot>
    decreases cs.len(),
{
    if cs.len() == 0 {
        Seq::empty()
    } else {
        let rest = volatile_killed(cs.drop_last());
        if cs.last().current_health <= 2 { rest.push(cs.last().slot) } else { rest }
    }
}

/// Volatile: when a (not silenced) Volatile creature dies, every enemy
/// creature takes 2 damage; returns the slots of the enemies it killed.
fn process_volatile(state: &mut GameState, player: PlayerId, has_volatile: bool, is_silenced: bool) -> (r: Vec<Slot>)
    requires
        player.valid(),
    ensures
        same_but_boards(*old(state), *final(state)),
        final(state).players[player.0 as int].creatures == old(state).players[player.0 as int].creatures,
        ({
            let e = player.spec_opponent().0 as int;
            &&& final(state).players[e].creatures@.len() == old(state).players[e].creatures@.len()
            &&& forall|j: int| 0 <= j < old(state).players[e].creatures@.len() ==>
                (#[trigger] final(state).players[e].creatures@[j]).slot == old(state).players[e].creatures@[j].slot
        }),
        !(has_volatile && !is_silenced) ==> *final(state) == *old(state) && r@.len() == 0,
        ({
            let b = old(state).players[player.spec_opponent().0 as int].creatures@;
            (has_volatile && !is_silenced && board_ok(b)) ==> {
                &&& final(state).players[player.spec_opponent().0 as int].creatures@ == b.map_values(|c: Creature| volatile_hit(c))
                &&& r@ == volatile_killed(b)
            }
        }),
{
    let ghost pre = *state;
    let mut killed: Vec<Slot> = Vec::new();
    if !(has_volatile && !is_silenced) {
        return killed;
    }
    let enemy = player.opponent();
    let e = enemy.index();
    let ghost b = pre.players[e as int].creatures@;
    let mut slots: Vec<Slot> = Vec::new();
    let mut k: usize = 0;
    while k < state.players[e].creatures.len()
        invariant
            e == enemy.0,
            enemy.valid(),
            *state == pre,
            b == pre.players[e as int].creatures@,
            slots@.len() == k,
            k <= state.players[e as int].creatures@.len(),
            forall|j: int| 0 <= j < k ==> #[trigger] slots@[j] == b[j].slot,
        decreases state.players[e as int].creatures@.len() - k,
    {
        slots.push(state.players[e].creatures[k].slot);
        k = k + 1;
    }
    let mut i: usize = 0;
    while i < slots.len()
        invariant
            e == enemy.0,
            enemy.valid(),
            enemy == player.spec_opponent(),
            player.valid(),
            same_but_boards(pre, *state),
            state.players[player.0 as int].creatures == pre.players[player.0 as int].creatures,
            state.players[e as int].creatures@.len() == pre.players[e as int].creatures@.len(),
            forall|j: int| 0 <= j < pre.players[e as int].creatures@.len() ==>
                (#[trigger] state.players[e as int].creatures@[j]).slot == pre.players[e as int].creatures@[j].slot,
            b == pre.players[e as int].creatures@,
            slots@.len() == b.len(),
            i <= slots@.len(),
            forall|j: int| 0 <= j < b.len() ==> #[trigger] slots@[j] == b[j].slot,
            board_ok(b) ==> {
                &&& forall|j: int| 0 <= j < i ==> #[trigger] state.players[e as int].creatures@[j] == volatile_hit(b[j])
                &&& forall|j: int| i <= j < b.len() ==> #[trigger] state.players[e as int].creatures@[j] == b[j]
                &&& killed@ == volatile_killed(b.subrange(0, i as int))
            },
        decreases slots@.len() - i,
    {
        let slot = slots[i];
        let ghost cur = state.players[e as int].creatures@;
        proof {
            let b1 = b.subrange(0, i + 1);
            assert(b1.drop_last() =~= b.subrange(0, i as int));
            assert(b1.last() == b[i as int]);
            if board_ok(b) {
                crate::gamecore::state::lemma_slot_index(cur, slot);
                assert(cur[i as int].slot == slot);
                let kk = slot_index(cur, slot);
                assert(kk == i as int) by {
                    if kk != i as int {
                        assert(cur[kk].slot == b[kk].slot);
                        if kk < i { assert(b[kk].slot != b[i as int].slot); } else { assert(b[i as int].slot != b[kk].slot); }
                    }
                }
            }
        }
        if let Some(idx) = find_creature_index(&state.players[e].creatures, slot) {
            let ghost before = *state;
            let h = state.players[e].creatures[idx].current_health;
            let nh: i8 = if h <= 2 { 0 } else { h - 2 };
            state.players[e].creatures[idx].current_health = nh;
            proof {
                assert(forall|j: int| 0 <= j < pre.players[e as int].creatures@.len() ==>
                    (#[trigger] state.players[e as int].creatures@[j]).slot == before.players[e as int].creatures@[j].slot);
                assert(state.players[0].life == before.players[0].life);
                assert(state.players[1].life == before.players[1].life);
                lemma_same_but_boards_trans(pre, before, *state);
            }
            if nh == 0 {
                killed.push(slot);
            }
            proof {
                if board_ok(b) {
                    assert(idx == i);
                    assert(state.players[e as int].creatures@ == cur.update(i as int, volatile_hit(b[i as int])));
                    assert(killed@ =~= volatile_killed(b.subrange(0, i + 1)));
                }
            }
        }
        i = i + 1;
    }
    proof {
        if board_ok(b) {
            assert(b.subrange(0, b.len() as int) =~= b);
            assert(state.players[e as int].creatures@ =~= b.map_values(|c: Creature| volatile_hit(c)));
        }
    }
    killed
}

/// Queue the commander death triggers of a creature of `player` dying: the
/// owner's OnAllyDeath, the opponent's OnEnemyDeath, and both OnAnyDeath.
fn trigger_commander_death_effects(state: &GameState, card_db: &CardDatabase, effect_queue: &mut EffectQueue, player: PlayerId)
    requires
        old(effect_queue).wf(),
        player.valid(),
    ensures
        queue_grew(*old(effect_queue), *final(effect_queue)),
{
    let ghost q0 = *effect_queue;
    let a = collect_commander_ally_death_effects(state, player, card_db);
    proof { lemma_commander_fires(*state, player, CommanderTrigger::OnAllyDeath, *card_db, None, a@); }
    effect_queue.push_commander_effects(a, player);
    let ghost q1 = *effect_queue;
    let opp = player.opponent();
    let b = collect_commander_enemy_death_effects(state, player, card_db);
    proof { lemma_commander_fires(*state, opp, CommanderTrigger::OnEnemyDeath, *card_db, None, b@); }
    effect_queue.push_commander_effects(b, opp);
    let ghost q2 = *effect_queue;
    let c = collect_commander_any_death_effects(state, player, card_db);
    proof { lemma_commander_fires(*state, player, CommanderTrigger::OnAnyDeath, *card_db, None, c@); }
    effect_queue.push_commander_effects(c, player);
    let ghost q3 = *effect_queue;
    let d = collect_commander_any_death_effects(state, opp, card_db);
    proof { lemma_commander_fires(*state, opp, CommanderTrigger::OnAnyDeath, *card_db, None, d@); }
    effect_queue.push_commander_effects(d, opp);
    proof {
        lemma_queue_grew_trans(q0, q1, q2);
        lemma_queue_grew_trans(q0, q2, q3);
        lemma_queue_grew_trans(q0, q3, *effect_queue);
    }
}

/// The creature of `player` at `slot` in `s`, if any.
pub open spec fn creature_at(s: GameState, player: PlayerId, slot: Slot) -> Option<Creature> {
    let b = s.players[player.0 as int].creatures@;
    let k = slot_index(b, slot);
    if k < 0 { None } else { Some(b[k]) }
}

/// Whether creature `c` sets off Volatile when it dies (it has the keyword
/// and is not silenced).
pub open spec fn explodes(c: Creature) -> bool {
    c.keywords.spec_has(Keywords::VOLATILE) && !c.status.spec_silenced()
}

/// `cs` with each slot of `slots` removed in turn.
pub open spec fn without_slots(cs: Seq<Creature>, slots: Seq<Slot>) -> Seq<Creature>
    decreases slots.len(),
{
    if slots.len() == 0 {
        cs
    } else {
        without_slot(without_slots(cs, slots.drop_last()), slots.last())
    }
}

/// A creature of `player` at `slot` dies: Volatile hits the enemy board, its
/// OnDeath abilities (unless silenced), its allies' OnAllyDeath abilities and
/// the commander death triggers are queued, it leaves the board, and the
/// enemies Volatile killed die in turn.
pub fn process_creature_death(state: &mut GameState, card_db: &CardDatabase, effect_queue: &mut EffectQueue,
    player: PlayerId, slot: Slot)
    requires
        old(effect_queue).wf(),
        player.valid(),
    ensures
        queue_grew(*old(effect_queue), *final(effect_queue)),
        same_but_boards(*old(state), *final(state)),
        total_creatures(*final(state)) <= total_creatures(*old(state)),
        slots_shrunk(*old(state), *final(state)),
        !occupied(final(state).players[player.0 as int].creatures@, slot),
        old(state).wf() ==> final(state).wf(),
        creature_at(*old(state), player, slot) is None ==> *final(state) == *old(state)
            && *final(effect_queue) == *old(effect_queue),
        creature_at(*old(state), player, slot) matches Some(c) && !explodes(c) ==> {
            &&& final(state).players[player.0 as int].creatures@ == without_slot(old(state).players[player.0 as int].creatures@, slot)
            &&& final(state).players[player.spec_opponent().0 as int] == old(state).players[player.spec_opponent().0 as int]
        },
        ({
            let b = old(state).players[player.spec_opponent().0 as int].creatures@;
            (old(state).wf() && creature_at(*old(state), player, slot) is Some
                && explodes(creature_at(*old(state), player, slot)->0)
                && (forall|j: int| 0 <= j < b.len() ==> !explodes(#[trigger] b[j]))) ==> {
                &&& final(state).players[player.spec_opponent().0 as int].creatures@
                    == without_slots(b.map_values(|x: Creature| volatile_hit(x)), volatile_killed(b))
                &&& final(state).players[player.0 as int].creatures@ == without_slot(old(state).players[player.0 as int].creatures@, slot)
            }
        }),
    decreases total_creatures(*state),
{
    let ghost pre = *state;
    let ghost q0 = *effect_queue;
    proof {
        lemma_queue_grew_refl(*effect_queue);
        lemma_slot_index(state.players[player.0 as int].creatures@, slot);
    }
    let p = player.index();
    let idx = match find_creature_index(&state.players[p].creatures, slot) {
        Some(i) => i,
        None => return,
    };
    let ghost c = state.players[p as int].creatures@[idx as int];
    let ghost b = pre.players[player.spec_opponent().0 as int].creatures@;
    let ghost hb = b.map_values(|x: Creature| volatile_hit(x));
    let ghost vol = pre.wf() && explodes(c) && (forall|j: int| 0 <= j < b.len() ==> !explodes(#[trigger] b[j]));
    proof { assert(creature_at(pre, player, slot) == Some(c)); }
    let card_id = state.players[p].creatures[idx].card_id;
    let is_silenced = state.players[p].creatures[idx].status.is_silenced();
    let has_volatile = state.players[p].creatures[idx].keywords.has_volatile();
    let enemies_killed = process_volatile(state, player, has_volatile, is_silenced);
    let ghost after_volatile = *state;
    proof {
        if vol {
            assert(crate::gamecore::state::board_ok(b));
            assert forall|j: int| 0 <= j < hb.len() implies !explodes(#[trigger] hb[j]) by {
                assert(hb[j] == volatile_hit(b[j]));
            }
        }
    }
    proof {
        let e = player.spec_opponent().0 as int;
        if pre.wf() {
            lemma_board_ok_same_slots(pre.players[e].creatures@, state.players[e].creatures@);
            crate::gamecore::engine::triggers::lemma_same_but_boards_wf(pre, *state);
        }
        assert forall|q: int, s: Slot| 0 <= q < 2 && #[trigger] occupied(state.players[q].creatures@, s)
            implies occupied(pre.players[q].creatures@, s) by {
            let j = choose|j: int| 0 <= j < state.players[q].creatures@.len() && (#[trigger] state.players[q].creatures@[j]).slot == s;
            if q == e {
                assert(pre.players[q].creatures@[j].slot == s);
            } else {
                assert(state.players[q].creatures == pre.players[q].creatures);
            }
        }
    }
    if !is_silenced {
        if let Some(card_def) = card_db.get(card_id) {
            if let Some(abilities) = card_def.creature_abilities() {
                let ghost before = *effect_queue;
                queue_triggered_abilities(effect_queue, abilities, Trigger::OnDeath, player, slot);
                proof { lemma_queue_grew_trans(q0, before, *effect_queue); }
            }
        }
    }
    let ghost qa = *effect_queue;
    trigger_ally_death_for_allies(state, card_db, effect_queue, player, slot);
    let ghost qb = *effect_queue;
    trigger_commander_death_effects(state, card_db, effect_queue, player);
    proof {
        lemma_queue_grew_trans(q0, qa, qb);
        lemma_queue_grew_trans(q0, qb, *effect_queue);
    }
    let ghost before_removal = *state;
    remove_creatures_at(&mut state.players[p].creatures, slot);
    proof {
        assert(occupied(before_removal.players[p as int].creatures@, slot)) by {
            assert(before_removal.players[p as int].creatures@.len() == pre.players[p as int].creatures@.len()
                || p as int == player.spec_opponent().0);
            assert(before_removal.players[p as int].creatures@[idx as int].slot == slot);
        }
        lemma_without_slot_shrinks(before_removal.players[p as int].creatures@, slot);
        assert forall|s: Slot| #[trigger] occupied(state.players[p as int].creatures@, s)
            implies occupied(before_removal.players[p as int].creatures@, s) && s != slot by {
            lemma_without_slot_occupied(before_removal.players[p as int].creatures@, slot, s);
        }
        assert(!occupied(state.players[p as int].creatures@, slot));
        assert(state.players[0].life == before_removal.players[0].life);
        assert(state.players[1].life == before_removal.players[1].life);
        lemma_same_but_boards_trans(pre, before_removal, *state);
        assert(total_creatures(*state) < total_creatures(pre));
        if pre.wf() {
            assert(before_removal.players[p as int].creatures == after_volatile.players[p as int].creatures);
            lemma_board_ok_without_slot(before_removal.players[p as int].creatures@, slot);
            crate::gamecore::engine::triggers::lemma_same_but_boards_wf(pre, *state);
        }
    }
    let enemy = player.opponent();
    let ghost after_removal = *state;
    proof {
        assert(enemies_killed@.subrange(0, 0) =~= Seq::<Slot>::empty());
        assert(before_removal.players[p as int].creatures == pre.players[p as int].creatures);
    }
    let mut i: usize = 0;
    while i < enemies_killed.len()
        invariant
            pre == *old(state),
            player.valid(),
            enemy == player.spec_opponent(),
            enemy.spec_opponent() == player,
            i <= enemies_killed@.len(),
            !explodes(c) ==> enemies_killed@.len() == 0 && *state == after_removal,
            vol ==> enemies_killed@ == volatile_killed(b),
            vol ==> state.players[enemy.0 as int].creatures@ == without_slots(hb, enemies_killed@.subrange(0, i as int)),
            vol ==> state.players[player.0 as int].creatures@ == without_slot(pre.players[player.0 as int].creatures@, slot),
            vol ==> forall|j: int| 0 <= j < state.players[enemy.0 as int].creatures@.len()
                ==> !explodes(#[trigger] state.players[enemy.0 as int].creatures@[j]),
            queue_grew(q0, *effect_queue),
            same_but_boards(pre, *state),
            total_creatures(*state) < total_creatures(pre),
            slots_shrunk(pre, *state),
            !occupied(state.players[player.0 as int].creatures@, slot),
            pre.wf() ==> state.wf(),
        decreases enemies_killed@.len() - i,
    {
        let ghost before = *state;
        let ghost qbefore = *effect_queue;
        process_creature_death(state, card_db, effect_queue, enemy, enemies_killed[i]);
        proof {
            lemma_queue_grew_trans(q0, qbefore, *effect_queue);
            lemma_same_but_boards_trans(pre, before, *state);
            assert(!occupied(state.players[player.0 as int].creatures@, slot)) by {
                if occupied(state.players[player.0 as int].creatures@, slot) {
                    assert(occupied(before.players[player.0 as int].creatures@, slot));
                }
            }
            assert forall|q: int, s: Slot| 0 <= q < 2 && #[trigger] occupied(state.players[q].creatures@, s)
                implies occupied(pre.players[q].creatures@, s) by {
                assert(occupied(before.players[q].creatures@, s));
            }
            if vol {
                let eb = before.players[enemy.0 as int].creatures@;
                let si = enemies_killed@[i as int];
                lemma_slot_index(eb, si);
                crate::gamecore::state::lemma_without_slot(eb, si);
                assert(enemies_killed@.subrange(0, i + 1).drop_last() =~= enemies_killed@.subrange(0, i as int));
                assert(enemies_killed@.subrange(0, i + 1).last() == si);
                if creature_at(before, enemy, si) is Some {
                    let k = slot_index(eb, si);
                    assert(!explodes(eb[k]));
                }
                assert(state.players[enemy.0 as int].creatures@ == without_slot(eb, si));
                assert forall|j: int| 0 <= j < state.players[enemy.0 as int].creatures@.len()
                    implies !explodes(#[trigger] state.players[enemy.0 as int].creatures@[j]) by {
                    assert(eb.contains(without_slot(eb, si)[j]));
                }
            }
        }
        i = i + 1;
    }
    proof {
        if vol {
            assert(enemies_killed@.subrange(0, enemies_killed@.len() as int) =~= enemies_killed@);
        }
    }
}

/// End the game if a player's life has reached 0 (both: a draw); unlike the
/// Apart from the players, `fin` is `pre` with the life rule applied to
/// the players of `fin`: the game ends exactly when their lives call for it.
pub open spec fn game_over_applied(pre: GameState, fin: GameState) -> bool {
    &&& fin == (GameState { players: fin.players, result: fin.result, phase: fin.phase, ..pre })
    &&& match life_result(fin) {
        None => fin.result == pre.result && fin.phase == pre.phase,
        Some(g) => fin.result == Some(g) && fin.phase == GamePhase::Ended,
    }
}

/// victory check, this also replaces an existing result.
pub fn check_game_over(state: &mut GameState)
    ensures
        life_result(*old(state)) is None ==> *final(state) == *old(state),
        life_result(*old(state)) is Some ==> ended_with(*old(state), *final(state), life_result(*old(state))->0),
{
    let p1_dead = state.players[0].life <= 0;
    let p2_dead = state.players[1].life <= 0;
    if p1_dead && p2_dead {
        state.result = Some(GameResult::Draw);
        state.phase = GamePhase::Ended;
    } else if p1_dead {
        state.result = Some(GameResult::Win { winner: PlayerId(1), reason: WinReason::LifeReachedZero });
        state.phase = GamePhase::Ended;
    } else if p2_dead {
        state.result = Some(GameResult::Win { winner: PlayerId(0), reason: WinReason::LifeReachedZero });
        state.phase = GamePhase::Ended;
    }
}

} // verus!
