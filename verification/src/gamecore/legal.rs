//! Legal action generation.

use vstd::prelude::*;
use crate::gamecore::actions::{Action, Target};
use crate::gamecore::cards::{AbilityDefinition, CardDatabase, CardType};
use crate::gamecore::config::insight;
use crate::gamecore::effects::{TargetingRule, TokenAbility, Trigger};
use crate::gamecore::keywords::Keywords;
use crate::gamecore::state::{
    Creature, GameState, PlayerState, find_creature_index, lemma_slot_index, occupied, slot_index, support_index_from,
};
use crate::gamecore::types::Slot;

verus! {

/// The most actions a legal action list holds.
pub const MAX_LEGAL_ACTIONS: usize = 64;

/// Room for actions before EndTurn, which always takes the last place.
pub const ACTION_ROOM: usize = 63;

/// Whether playing the card at `h` into `slot` is legal: the card is known,
/// affordable (one action point and its cost), and the slot fits the card:
/// an empty creature slot, slot 0 for spells, an empty support slot.
pub open spec fn play_legal(s: GameState, db: CardDatabase, h: u8, slot: Slot) -> bool {
    let ps = s.players[s.active_player.0 as int];
    &&& (h as int) < ps.hand@.len()
    &&& db.spec_get(ps.hand@[h as int].card_id) matches Some(def) && {
        &&& ps.action_points >= 1
        &&& def.cost <= ps.current_essence
        &&& match def.card_type {
            CardType::Creature { .. } => slot.0 < 5 && !occupied(ps.creatures@, slot),
            CardType::Spell { .. } => slot == Slot(0),
            CardType::Support { .. } => slot.0 < 2 && support_index_from(ps.supports@, slot, 0) == -1,
        }
    }
}

/// Whether some Guard without Stealth stands on the opponent's board.
pub open spec fn guards_present(opp: PlayerState) -> bool {
    exists|j: int| 0 <= j < opp.creatures@.len() && (#[trigger] opp.creatures@[j]).keywords.spec_has(Keywords::GUARD)
        && !opp.creatures@[j].keywords.spec_has(Keywords::STEALTH)
}

/// Whether slot `d` of the opponent may be attacked: no Stealth creature
/// stands there, and with Guards present only a Guard may be attacked.
pub open spec fn defender_ok(opp: PlayerState, d: Slot) -> bool {
    let b = opp.creatures@;
    let k = slot_index(b, d);
    &&& (k >= 0 ==> !b[k].keywords.spec_has(Keywords::STEALTH))
    &&& (guards_present(opp) ==> k >= 0 && b[k].keywords.spec_has(Keywords::GUARD))
}

/// Law: while the opponent has a Guard that is not hidden by Stealth, every
/// legal attack targets a slot where one of the opponent's Guard creatures
/// stands; and no legal attack ever targets a creature in Stealth.
pub proof fn lemma_guard_must_be_attacked(s: GameState, db: CardDatabase, act: Action)
    requires
        action_legal(s, db, act),
        act is Attack,
    ensures
        ({
            let opp = s.players[s.active_player.spec_opponent().0 as int].creatures@;
            let d = act->defender;
            &&& (exists|j: int| 0 <= j < opp.len() && (#[trigger] opp[j]).keywords.spec_has(Keywords::GUARD)
                    && !opp[j].keywords.spec_has(Keywords::STEALTH))
                ==> exists|k: int| 0 <= k < opp.len() && (#[trigger] opp[k]).slot == d && opp[k].keywords.spec_has(Keywords::GUARD)
            &&& forall|k: int| 0 <= k < opp.len() && (#[trigger] opp[k]).slot == d && crate::gamecore::state::board_ok(opp)
                ==> !opp[k].keywords.spec_has(Keywords::STEALTH)
        }),
{
    let opp = s.players[s.active_player.spec_opponent().0 as int].creatures@;
    let d = act->defender;
    lemma_slot_index(opp, d);
    let k = slot_index(opp, d);
    if exists|j: int| 0 <= j < opp.len() && (#[trigger] opp[j]).keywords.spec_has(Keywords::GUARD)
        && !opp[j].keywords.spec_has(Keywords::STEALTH) {
        assert(guards_present(s.players[s.active_player.spec_opponent().0 as int]));
        assert(opp[k].slot == d);
    }
    assert forall|k2: int| 0 <= k2 < opp.len() && (#[trigger] opp[k2]).slot == d && crate::gamecore::state::board_ok(opp)
        implies !opp[k2].keywords.spec_has(Keywords::STEALTH) by {
        assert(k >= 0);
        if k2 != k {
            if k2 < k {
                assert(opp[k2].slot != opp[k].slot);
            } else {
                assert(opp[k].slot != opp[k2].slot);
            }
        }
    }
}

/// Whether a creature at `a` may attack slot `d`: some creature of the active
/// player at `a` can attack, `d` is in its reach (any slot for Ranged, the
/// adjacent ones otherwise) and may be attacked.
pub open spec fn attack_legal(s: GameState, a: Slot, d: Slot) -> bool {
    let ps = s.players[s.active_player.0 as int];
    let opp = s.players[s.active_player.spec_opponent().0 as int];
    &&& exists|j: int| 0 <= j < ps.creatures@.len() && {
        let c = #[trigger] ps.creatures@[j];
        &&& c.slot == a
        &&& c.spec_can_attack(s.current_turn)
        &&& if c.keywords.spec_has(Keywords::RANGED) { d.0 < 5 } else { a.spec_adjacent().contains(d) }
    }
    &&& defender_ok(opp, d)
}

/// Whether an ability use targets legally for a targeting rule.
pub open spec fn ability_target_legal(targeting: TargetingRule, target: Target, ps: Option<PlayerState>, opp: PlayerState) -> bool {
    match targeting {
        TargetingRule::TargetAny => target == Target::NoTarget || (target matches Target::EnemySlot(d)
            && exists|j: int| 0 <= j < opp.creatures@.len() && (#[trigger] opp.creatures@[j]).slot == d
                && !opp.creatures@[j].keywords.spec_has(Keywords::STEALTH)),
        TargetingRule::TargetEnemyCreature => target matches Target::EnemySlot(d)
            && exists|j: int| 0 <= j < opp.creatures@.len() && (#[trigger] opp.creatures@[j]).slot == d
                && !opp.creatures@[j].keywords.spec_has(Keywords::STEALTH),
        TargetingRule::TargetAllyCreature => target == Target::Self_ && (ps matches Some(p) && p.creatures@.len() > 0),
        TargetingRule::TargetEnemyPlayer | TargetingRule::NoTarget => target == Target::NoTarget,
        _ => false,
    }
}

/// Whether token ability `i` of creature `c` may be used on `t`.
pub open spec fn token_ability_at(s: GameState, c: Creature, i: u8, t: Target) -> bool {
    let ps = s.players[s.active_player.0 as int];
    let opp = s.players[s.active_player.spec_opponent().0 as int];
    c.token_abilities matches Some(v) && (i as int) < v@.len() && v@[i as int].essence_cost <= ps.current_essence
        && ability_target_legal(v@[i as int].targeting, t, None, opp)
}

/// Whether activated card ability `i` of creature `c` may be used on `t`.
pub open spec fn card_ability_at(s: GameState, db: CardDatabase, c: Creature, i: u8, t: Target) -> bool {
    let ps = s.players[s.active_player.0 as int];
    let opp = s.players[s.active_player.spec_opponent().0 as int];
    db.spec_get(c.card_id) matches Some(def) && def.card_type matches CardType::Creature { abilities, .. }
        && (i as int) < abilities@.len() && abilities@[i as int].trigger == Trigger::Activated
        && abilities@[i as int].essence_cost <= ps.current_essence
        && ability_target_legal(abilities@[i as int].targeting, t, Some(ps), opp)
}

/// Whether creature `c` of the active player, at `slot`, may use ability
/// `i` on `t`.
pub open spec fn ability_at(s: GameState, db: CardDatabase, c: Creature, slot: Slot, i: u8, t: Target) -> bool {
    &&& c.slot == slot
    &&& !c.status.spec_silenced()
    &&& !c.status.spec_exhausted()
    &&& (token_ability_at(s, c, i, t) || card_ability_at(s, db, c, i, t))
}

/// Whether using ability `i` of a creature at `slot` on `target` is legal:
/// some ready, unsilenced creature of the active player at `slot` has an
/// affordable token ability `i`, or an affordable activated card ability `i`,
/// whose targeting admits `target`.
pub open spec fn ability_legal(s: GameState, db: CardDatabase, slot: Slot, i: u8, target: Target) -> bool {
    let ps = s.players[s.active_player.0 as int];
    exists|j: int| 0 <= j < ps.creatures@.len() && ability_at(s, db, #[trigger] ps.creatures@[j], slot, i, target)
}

/// Whether Commander's Insight is available: late game (turn 10 on), at
/// most one card in hand, 4 essence, not used this turn, and behind on
/// creatures or on life.
pub open spec fn insight_legal(s: GameState) -> bool {
    let ps = s.players[s.active_player.0 as int];
    let opp = s.players[s.active_player.spec_opponent().0 as int];
    &&& s.current_turn >= insight::MIN_TURN
    &&& !ps.used_commander_insight
    &&& ps.hand@.len() <= insight::MAX_HAND_SIZE
    &&& ps.current_essence >= insight::ESSENCE_COST
    &&& (ps.creatures@.len() < opp.creatures@.len() || ps.life < opp.life)
}

/// Whether an action is legal in a state.
pub open spec fn action_legal(s: GameState, db: CardDatabase, a: Action) -> bool {
    match a {
        Action::PlayCard { hand_index, slot } => play_legal(s, db, hand_index, slot),
        Action::Attack { attacker, defender } => attack_legal(s, attacker, defender),
        Action::UseAbility { slot, ability_index, target } => ability_legal(s, db, slot, ability_index, target),
        Action::CommanderInsight => insight_legal(s),
        Action::EndTurn => true,
    }
}

/// Every action of `v` from position `from` on is legal.
pub open spec fn all_legal_from(s: GameState, db: CardDatabase, v: Seq<Action>, from: int) -> bool {
    forall|j: int| from <= j < v.len() ==> action_legal(s, db, #[trigger] v[j])
}

/// `post` is `pre` with legal actions appended, within the cap.
pub open spec fn appended_legal(s: GameState, db: CardDatabase, pre: Seq<Action>, post: Seq<Action>) -> bool {
    &&& post.len() >= pre.len()
    &&& post.len() <= ACTION_ROOM || post.len() == pre.len()
    &&& post.subrange(0, pre.len() as int) == pre
    &&& all_legal_from(s, db, post, pre.len() as int)
}

/// Appending legal actions is transitive.
pub proof fn lemma_appended_trans(s: GameState, db: CardDatabase, a: Seq<Action>, b: Seq<Action>, c: Seq<Action>)
    requires
        appended_legal(s, db, a, b),
        appended_legal(s, db, b, c),
        a.len() <= ACTION_ROOM,
    ensures
        appended_legal(s, db, a, c),
{
    assert(c.subrange(0, a.len() as int) =~= c.subrange(0, b.len() as int).subrange(0, a.len() as int));
    assert forall|j: int| a.len() <= j < c.len() implies action_legal(s, db, #[trigger] c[j]) by {
        if j < b.len() {
            assert(c[j] == c.subrange(0, b.len() as int)[j]);
        }
    }
}

/// The list holds `a`, or is full.
pub open spec fn covers(v: Seq<Action>, a: Action) -> bool {
    v.contains(a) || v.len() >= ACTION_ROOM
}

/// What a list covers, a longer list with the same start covers too.
pub proof fn lemma_covers_grow(pre: Seq<Action>, post: Seq<Action>, a: Action)
    requires
        covers(pre, a),
        post.len() >= pre.len(),
        post.subrange(0, pre.len() as int) == pre,
    ensures
        covers(post, a),
{
    if pre.contains(a) {
        let k = choose|k: int| 0 <= k < pre.len() && pre[k] == a;
        assert(post.subrange(0, pre.len() as int)[k] == post[k]);
        assert(post.contains(a));
    }
}

/// Everything a list covers, a longer list with the same start covers too.
pub proof fn lemma_covers_all_grow(pre: Seq<Action>, post: Seq<Action>)
    requires
        post.len() >= pre.len(),
        post.subrange(0, pre.len() as int) == pre,
    ensures
        forall|a: Action| covers(pre, a) ==> #[trigger] covers(post, a),
{
    assert forall|a: Action| covers(pre, a) implies #[trigger] covers(post, a) by {
        lemma_covers_grow(pre, post, a);
    }
}

/// Append a legal action if there is room.
fn push_legal(actions: &mut Vec<Action>, a: Action, Ghost(s): Ghost<GameState>, Ghost(db): Ghost<CardDatabase>)
    requires
        action_legal(s, db, a),
        old(actions)@.len() <= ACTION_ROOM,
    ensures
        appended_legal(s, db, old(actions)@, final(actions)@),
        final(actions)@.len() <= ACTION_ROOM,
        covers(final(actions)@, a),
{
    let ghost pre = actions@;
    if actions.len() < ACTION_ROOM {
        actions.push(a);
        proof {
            assert(actions@.subrange(0, pre.len() as int) =~= pre);
            assert(actions@[pre.len() as int] == a);
        }
    } else {
        proof { assert(actions@.subrange(0, pre.len() as int) =~= pre); }
    }
}

/// Append the legal PlayCard actions.
fn generate_play_card_actions(state: &GameState, card_db: &CardDatabase, actions: &mut Vec<Action>)
    requires
        old(actions)@.len() <= ACTION_ROOM,
        state.wf(),
    ensures
        appended_legal(*state, *card_db, old(actions)@, final(actions)@),
        final(actions)@.len() <= ACTION_ROOM,
        forall|hh: u8, sl: Slot| #[trigger] play_legal(*state, *card_db, hh, sl)
            ==> covers(final(actions)@, Action::PlayCard { hand_index: hh, slot: sl }),
{
    let ghost a0 = actions@;
    proof { assert(actions@.subrange(0, a0.len() as int) =~= a0); }
    let player = &state.players[state.active_player.index()];
    let mut h: usize = 0;
    while h < player.hand.len() && h < 256
        invariant
            state.wf(),
            player == state.players[state.active_player.0 as int],
            appended_legal(*state, *card_db, a0, actions@),
            actions@.len() <= ACTION_ROOM,
            a0.len() <= ACTION_ROOM,
            forall|hh: u8, sl: Slot| (hh as int) < h && #[trigger] play_legal(*state, *card_db, hh, sl)
                ==> covers(actions@, Action::PlayCard { hand_index: hh, slot: sl }),
        decreases player.hand@.len() - h,
    {
        let hi = h as u8;
        if let Some(card_def) = card_db.get(player.hand[h].card_id) {
            if player.action_points >= 1 && card_def.cost <= player.current_essence {
                match &card_def.card_type {
                    CardType::Creature { .. } => {
                        let mut sl: u8 = 0;
                        while sl < 5
                            invariant
                                sl <= 5,
                                hi as int == h,
                                (hi as int) < player.hand@.len(),
                                forall|hh: u8, sl2: Slot| (hh as int) < h && #[trigger] play_legal(*state, *card_db, hh, sl2)
                                    ==> covers(actions@, Action::PlayCard { hand_index: hh, slot: sl2 }),
                                forall|sl2: Slot| sl2.0 < sl && #[trigger] play_legal(*state, *card_db, hi, sl2)
                                    ==> covers(actions@, Action::PlayCard { hand_index: hi, slot: sl2 }),
                                player == state.players[state.active_player.0 as int],
                                card_db.spec_get(player.hand@[hi as int].card_id) == Some(*card_def),
                                card_def.card_type is Creature,
                                player.action_points >= 1,
                                card_def.cost <= player.current_essence,
                                appended_legal(*state, *card_db, a0, actions@),
                                actions@.len() <= ACTION_ROOM,
                                a0.len() <= ACTION_ROOM,
                            decreases 5 - sl,
                        {
                            proof { lemma_slot_index(player.creatures@, Slot(sl)); }
                            if find_creature_index(&player.creatures, Slot(sl)).is_none() {
                                let ghost before = actions@;
                                push_legal(actions, Action::PlayCard { hand_index: hi, slot: Slot(sl) }, Ghost(*state), Ghost(*card_db));
                                proof {
                                    lemma_appended_trans(*state, *card_db, a0, before, actions@);
                                    lemma_covers_all_grow(before, actions@);
                                }
                            }
                            sl = sl + 1;
                        }
                    }
                    CardType::Spell { .. } => {
                        let ghost before = actions@;
                        push_legal(actions, Action::PlayCard { hand_index: hi, slot: Slot(0) }, Ghost(*state), Ghost(*card_db));
                        proof {
                            lemma_appended_trans(*state, *card_db, a0, before, actions@);
                            lemma_covers_all_grow(before, actions@);
                        }
                    }
                    CardType::Support { .. } => {
                        let mut sl: u8 = 0;
                        while sl < 2
                            invariant
                                sl <= 2,
                                hi as int == h,
                                (hi as int) < player.hand@.len(),
                                forall|hh: u8, sl2: Slot| (hh as int) < h && #[trigger] play_legal(*state, *card_db, hh, sl2)
                                    ==> covers(actions@, Action::PlayCard { hand_index: hh, slot: sl2 }),
                                forall|sl2: Slot| sl2.0 < sl && #[trigger] play_legal(*state, *card_db, hi, sl2)
                                    ==> covers(actions@, Action::PlayCard { hand_index: hi, slot: sl2 }),
                                player == state.players[state.active_player.0 as int],
                                card_db.spec_get(player.hand@[hi as int].card_id) == Some(*card_def),
                                card_def.card_type is Support,
                                player.action_points >= 1,
                                card_def.cost <= player.current_essence,
                                appended_legal(*state, *card_db, a0, actions@),
                                actions@.len() <= ACTION_ROOM,
                                a0.len() <= ACTION_ROOM,
                            decreases 2 - sl,
                        {
                            if player.get_support(Slot(sl)).is_none() {
                                let ghost before = actions@;
                                push_legal(actions, Action::PlayCard { hand_index: hi, slot: Slot(sl) }, Ghost(*state), Ghost(*card_db));
                                proof {
                                    lemma_appended_trans(*state, *card_db, a0, before, actions@);
                                    lemma_covers_all_grow(before, actions@);
                                }
                            }
                            sl = sl + 1;
                        }
                    }
                }
            }
        }
        proof {
            assert forall|hh: u8, sl2: Slot| (hh as int) < h + 1 && #[trigger] play_legal(*state, *card_db, hh, sl2)
                implies covers(actions@, Action::PlayCard { hand_index: hh, slot: sl2 }) by {
            }
        }
        h = h + 1;
    }
}

/// Whether a Guard without Stealth stands on a board.
fn has_visible_guard(opp: &PlayerState) -> (r: bool)
    ensures
        r == guards_present(*opp),
{
    let mut i: usize = 0;
    while i < opp.creatures.len()
        invariant
            i <= opp.creatures@.len(),
            forall|j: int| 0 <= j < i ==> !((#[trigger] opp.creatures@[j]).keywords.spec_has(Keywords::GUARD)
                && !opp.creatures@[j].keywords.spec_has(Keywords::STEALTH)),
        decreases opp.creatures@.len() - i,
    {
        if opp.creatures[i].keywords.has_guard() && !opp.creatures[i].keywords.has_stealth() {
            return true;
        }
        i = i + 1;
    }
    false
}

/// Whether slot `d` of the opponent may be attacked.
fn defender_allowed(opp: &PlayerState, d: Slot, guards: bool) -> (r: bool)
    requires
        guards == guards_present(*opp),
    ensures
        r == defender_ok(*opp, d),
{
    proof { lemma_slot_index(opp.creatures@, d); }
    match find_creature_index(&opp.creatures, d) {
        Some(k) => {
            if opp.creatures[k].keywords.has_stealth() {
                return false;
            }
            !guards || opp.creatures[k].keywords.has_guard()
        }
        None => !guards,
    }
}

/// Whether creature `c`, standing at `a`, may attack slot `d` on this turn
/// (leaving aside what stands at `d`).
pub open spec fn attacker_reaches(c: Creature, turn: u16, a: Slot, d: Slot) -> bool {
    &&& c.slot == a
    &&& c.spec_can_attack(turn)
    &&& if c.keywords.spec_has(Keywords::RANGED) { d.0 < 5 } else { a.spec_adjacent().contains(d) }
}

/// Append the legal Attack actions.
fn generate_attack_actions(state: &GameState, Ghost(db): Ghost<CardDatabase>, actions: &mut Vec<Action>)
    requires
        old(actions)@.len() <= ACTION_ROOM,
        state.wf(),
    ensures
        appended_legal(*state, db, old(actions)@, final(actions)@),
        final(actions)@.len() <= ACTION_ROOM,
        forall|a: Slot, d: Slot| #[trigger] attack_legal(*state, a, d)
            ==> covers(final(actions)@, Action::Attack { attacker: a, defender: d }),
{
    let ghost a0 = actions@;
    proof { assert(actions@.subrange(0, a0.len() as int) =~= a0); }
    let player = &state.players[state.active_player.index()];
    let opp = &state.players[state.active_player.opponent().index()];
    let guards = has_visible_guard(opp);
    let mut i: usize = 0;
    while i < player.creatures.len()
        invariant
            state.wf(),
            player == state.players[state.active_player.0 as int],
            opp == state.players[state.active_player.spec_opponent().0 as int],
            guards == guards_present(*opp),
            appended_legal(*state, db, a0, actions@),
            actions@.len() <= ACTION_ROOM,
            a0.len() <= ACTION_ROOM,
            i <= player.creatures@.len(),
            forall|jj: int, a: Slot, d: Slot| 0 <= jj < i
                && #[trigger] attacker_reaches(player.creatures@[jj], state.current_turn, a, d) && defender_ok(*opp, d)
                ==> covers(actions@, Action::Attack { attacker: a, defender: d }),
        decreases player.creatures@.len() - i,
    {
        let c = &player.creatures[i];
        if c.can_attack(state.current_turn) {
            let a = c.slot;
            if c.keywords.has_ranged() {
                let mut d: u8 = 0;
                while d < 5
                    invariant
                        d <= 5,
                        i < player.creatures@.len(),
                        *c == player.creatures@[i as int],
                        c.spec_can_attack(state.current_turn),
                        c.keywords.spec_has(Keywords::RANGED),
                        a == c.slot,
                        player == state.players[state.active_player.0 as int],
                        opp == state.players[state.active_player.spec_opponent().0 as int],
                        guards == guards_present(*opp),
                        appended_legal(*state, db, a0, actions@),
                        actions@.len() <= ACTION_ROOM,
                        a0.len() <= ACTION_ROOM,
                        forall|jj: int, a2: Slot, d2: Slot| 0 <= jj < i
                            && #[trigger] attacker_reaches(player.creatures@[jj], state.current_turn, a2, d2)
                            && defender_ok(*opp, d2) ==> covers(actions@, Action::Attack { attacker: a2, defender: d2 }),
                        forall|d2: Slot| d2.0 < d && #[trigger] defender_ok(*opp, d2)
                            ==> covers(actions@, Action::Attack { attacker: a, defender: d2 }),
                    decreases 5 - d,
                {
                    if defender_allowed(opp, Slot(d), guards) {
                        let ghost before = actions@;
                        proof { assert(player.creatures@[i as int].slot == a); }
                        push_legal(actions, Action::Attack { attacker: a, defender: Slot(d) }, Ghost(*state), Ghost(db));
                        proof {
                            lemma_appended_trans(*state, db, a0, before, actions@);
                            lemma_covers_all_grow(before, actions@);
                        }
                    }
                    d = d + 1;
                }
            } else {
                let adj = a.adjacent_slots();
                let mut k: usize = 0;
                while k < adj.len()
                    invariant
                        k <= adj@.len(),
                        adj@ == a.spec_adjacent(),
                        i < player.creatures@.len(),
                        *c == player.creatures@[i as int],
                        c.spec_can_attack(state.current_turn),
                        !c.keywords.spec_has(Keywords::RANGED),
                        a == c.slot,
                        player == state.players[state.active_player.0 as int],
                        opp == state.players[state.active_player.spec_opponent().0 as int],
                        guards == guards_present(*opp),
                        appended_legal(*state, db, a0, actions@),
                        actions@.len() <= ACTION_ROOM,
                        a0.len() <= ACTION_ROOM,
                        forall|jj: int, a2: Slot, d2: Slot| 0 <= jj < i
                            && #[trigger] attacker_reaches(player.creatures@[jj], state.current_turn, a2, d2)
                            && defender_ok(*opp, d2) ==> covers(actions@, Action::Attack { attacker: a2, defender: d2 }),
                        forall|kk: int| 0 <= kk < k && #[trigger] defender_ok(*opp, adj@[kk])
                            ==> covers(actions@, Action::Attack { attacker: a, defender: adj@[kk] }),
                    decreases adj@.len() - k,
                {
                    let d = adj[k];
                    if defender_allowed(opp, d, guards) {
                        let ghost before = actions@;
                        proof {
                            assert(player.creatures@[i as int].slot == a);
                            assert(a.spec_adjacent()[k as int] == d);
                        }
                        push_legal(actions, Action::Attack { attacker: a, defender: d }, Ghost(*state), Ghost(db));
                        proof {
                            lemma_appended_trans(*state, db, a0, before, actions@);
                            lemma_covers_all_grow(before, actions@);
                        }
                    }
                    k = k + 1;
                }
                proof {
                    assert forall|d2: Slot| a.spec_adjacent().contains(d2) && defender_ok(*opp, d2)
                        implies covers(actions@, Action::Attack { attacker: a, defender: d2 }) by {
                        let kk = choose|kk: int| 0 <= kk < adj@.len() && adj@[kk] == d2;
                        assert(defender_ok(*opp, adj@[kk]));
                    }
                }
            }
        }
        proof {
            assert forall|jj: int, a2: Slot, d2: Slot| 0 <= jj < i + 1
                && #[trigger] attacker_reaches(player.creatures@[jj], state.current_turn, a2, d2) && defender_ok(*opp, d2)
                implies covers(actions@, Action::Attack { attacker: a2, defender: d2 }) by {
                if jj == i {
                    assert(player.creatures@[jj] == *c);
                    if c.keywords.spec_has(Keywords::RANGED) {
                        assert(d2.0 < 5);
                    }
                }
            }
        }
        i = i + 1;
    }
    proof {
        assert forall|a2: Slot, d2: Slot| #[trigger] attack_legal(*state, a2, d2)
            implies covers(actions@, Action::Attack { attacker: a2, defender: d2 }) by {
            let ps = state.players[state.active_player.0 as int];
            let jj = choose|jj: int| 0 <= jj < ps.creatures@.len() && {
                let c = #[trigger] ps.creatures@[jj];
                &&& c.slot == a2
                &&& c.spec_can_attack(state.current_turn)
                &&& if c.keywords.spec_has(Keywords::RANGED) { d2.0 < 5 } else { a2.spec_adjacent().contains(d2) }
            };
            assert(attacker_reaches(player.creatures@[jj], state.current_turn, a2, d2));
        }
    }
}

/// The player a reference stands for, if any.
pub open spec fn deref_player(p: Option<&PlayerState>) -> Option<PlayerState> {
    match p {
        Some(x) => Some(*x),
        None => None,
    }
}

/// Append the UseAbility actions for ability `i` of the creature at
/// `slot` under a targeting rule.
fn generate_targeting_actions(slot: Slot, i: u8, targeting: &TargetingRule, player: Option<&PlayerState>, opp: &PlayerState,
    actions: &mut Vec<Action>, Ghost(s): Ghost<GameState>, Ghost(db): Ghost<CardDatabase>)
    requires
        old(actions)@.len() <= ACTION_ROOM,
        *opp == s.players[s.active_player.spec_opponent().0 as int],
        forall|t: Target| ability_target_legal(*targeting, t,
            deref_player(player), *opp) ==> action_legal(s, db,
            Action::UseAbility { slot, ability_index: i, target: t }),
    ensures
        appended_legal(s, db, old(actions)@, final(actions)@),
        final(actions)@.len() <= ACTION_ROOM,
        forall|a: Action| covers(old(actions)@, a) ==> #[trigger] covers(final(actions)@, a),
        forall|t: Target| #[trigger] ability_target_legal(*targeting, t, deref_player(player), *opp)
            ==> covers(final(actions)@, Action::UseAbility { slot, ability_index: i, target: t }),
{
    let ghost a0 = actions@;
    let ghost ps = deref_player(player);
    proof { assert(actions@.subrange(0, a0.len() as int) =~= a0); }
    match targeting {
        TargetingRule::TargetAny | TargetingRule::TargetEnemyCreature => {
            let mut k: usize = 0;
            while k < opp.creatures.len()
                invariant
                    *opp == s.players[s.active_player.spec_opponent().0 as int],
                    forall|t: Target| ability_target_legal(*targeting, t, ps, *opp) ==> action_legal(s, db,
                        Action::UseAbility { slot, ability_index: i, target: t }),
                    *targeting == TargetingRule::TargetAny || *targeting == TargetingRule::TargetEnemyCreature,
                    appended_legal(s, db, a0, actions@),
                    actions@.len() <= ACTION_ROOM,
                    a0.len() <= ACTION_ROOM,
                    k <= opp.creatures@.len(),
                    forall|a: Action| covers(a0, a) ==> #[trigger] covers(actions@, a),
                    forall|kk: int| 0 <= kk < k && !(#[trigger] opp.creatures@[kk]).keywords.spec_has(Keywords::STEALTH)
                        ==> covers(actions@, Action::UseAbility { slot, ability_index: i,
                            target: Target::EnemySlot(opp.creatures@[kk].slot) }),
                decreases opp.creatures@.len() - k,
            {
                if !opp.creatures[k].keywords.has_stealth() {
                    let t = Target::EnemySlot(opp.creatures[k].slot);
                    proof { assert(ability_target_legal(*targeting, t, ps, *opp)); }
                    let ghost before = actions@;
                    push_legal(actions, Action::UseAbility { slot, ability_index: i, target: t }, Ghost(s), Ghost(db));
                    proof {
                        lemma_appended_trans(s, db, a0, before, actions@);
                        lemma_covers_all_grow(before, actions@);
                    }
                }
                k = k + 1;
            }
            if *targeting == TargetingRule::TargetAny {
                proof { assert(ability_target_legal(*targeting, Target::NoTarget, ps, *opp)); }
                let ghost before = actions@;
                push_legal(actions, Action::UseAbility { slot, ability_index: i, target: Target::NoTarget }, Ghost(s), Ghost(db));
                proof {
                    lemma_appended_trans(s, db, a0, before, actions@);
                    lemma_covers_all_grow(before, actions@);
                }
            }
            proof {
                assert forall|t: Target| #[trigger] ability_target_legal(*targeting, t, ps, *opp)
                    implies covers(actions@, Action::UseAbility { slot, ability_index: i, target: t }) by {
                    if t != Target::NoTarget {
                        let d = t->EnemySlot_0;
                        let kk = choose|kk: int| 0 <= kk < opp.creatures@.len() && (#[trigger] opp.creatures@[kk]).slot == d
                            && !opp.creatures@[kk].keywords.spec_has(Keywords::STEALTH);
                        assert(!opp.creatures@[kk].keywords.spec_has(Keywords::STEALTH));
                    }
                }
            }
        }
        TargetingRule::TargetAllyCreature => {
            if let Some(p) = player {
                if p.creatures.len() > 0 {
                    proof { assert(ability_target_legal(*targeting, Target::Self_, ps, *opp)); }
                    let ghost before = actions@;
                    push_legal(actions, Action::UseAbility { slot, ability_index: i, target: Target::Self_ }, Ghost(s), Ghost(db));
                    proof { lemma_covers_all_grow(before, actions@); }
                } else {
                    proof { assert(actions@.subrange(0, a0.len() as int) =~= a0); }
                }
            } else {
                proof { assert(actions@.subrange(0, a0.len() as int) =~= a0); }
            }
        }
        TargetingRule::TargetEnemyPlayer | TargetingRule::NoTarget => {
            proof { assert(ability_target_legal(*targeting, Target::NoTarget, ps, *opp)); }
            let ghost before = actions@;
            push_legal(actions, Action::UseAbility { slot, ability_index: i, target: Target::NoTarget }, Ghost(s), Ghost(db));
            proof { lemma_covers_all_grow(before, actions@); }
        }
        _ => {
            proof { assert(actions@.subrange(0, a0.len() as int) =~= a0); }
        }
    }
}

/// Append the legal UseAbility actions: token abilities, then activated
/// card abilities, of each ready, unsilenced creature.
fn generate_ability_actions(state: &GameState, card_db: &CardDatabase, actions: &mut Vec<Action>)
    requires
        old(actions)@.len() <= ACTION_ROOM,
        state.wf(),
    ensures
        appended_legal(*state, *card_db, old(actions)@, final(actions)@),
        final(actions)@.len() <= ACTION_ROOM,
        forall|sl: Slot, i: u8, t: Target| #[trigger] ability_legal(*state, *card_db, sl, i, t)
            ==> covers(final(actions)@, Action::UseAbility { slot: sl, ability_index: i, target: t }),
{
    let ghost a0 = actions@;
    proof { assert(actions@.subrange(0, a0.len() as int) =~= a0); }
    let player = &state.players[state.active_player.index()];
    let opp = &state.players[state.active_player.opponent().index()];
    let mut j: usize = 0;
    while j < player.creatures.len()
        invariant
            state.wf(),
            player == state.players[state.active_player.0 as int],
            opp == state.players[state.active_player.spec_opponent().0 as int],
            appended_legal(*state, *card_db, a0, actions@),
            actions@.len() <= ACTION_ROOM,
            a0.len() <= ACTION_ROOM,
            j <= player.creatures@.len(),
            forall|jj: int, sl: Slot, ii: u8, t: Target| 0 <= jj < j
                && #[trigger] ability_at(*state, *card_db, player.creatures@[jj], sl, ii, t)
                ==> covers(actions@, Action::UseAbility { slot: sl, ability_index: ii, target: t }),
        decreases player.creatures@.len() - j,
    {
        let c = &player.creatures[j];
        let ghost at_start = actions@;
        proof { assert(at_start.subrange(0, at_start.len() as int) =~= at_start); }
        if !c.status.is_silenced() && !c.status.is_exhausted() {
            if let Some(v) = c.token_abilities() {
                let mut i: usize = 0;
                while i < v.len() && i < 256
                    invariant
                        j < player.creatures@.len(),
                        *c == player.creatures@[j as int],
                        !c.status.spec_silenced() && !c.status.spec_exhausted(),
                        c.token_abilities == Some(*v),
                        player == state.players[state.active_player.0 as int],
                        opp == state.players[state.active_player.spec_opponent().0 as int],
                        appended_legal(*state, *card_db, a0, actions@),
                        actions@.len() <= ACTION_ROOM,
                        a0.len() <= ACTION_ROOM,
                        actions@.len() >= at_start.len(),
                        actions@.subrange(0, at_start.len() as int) == at_start,
                        forall|ii: u8, t: Target| (ii as int) < i && #[trigger] token_ability_at(*state, *c, ii, t)
                            ==> covers(actions@, Action::UseAbility { slot: c.slot, ability_index: ii, target: t }),
                    decreases v@.len() - i,
                {
                    if v[i].essence_cost <= player.current_essence {
                        let ghost before = actions@;
                        proof {
                            assert forall|t: Target| ability_target_legal(v@[i as int].targeting, t, None, *opp) implies
                                action_legal(*state, *card_db, Action::UseAbility { slot: c.slot, ability_index: i as u8, target: t }) by {
                                assert(player.creatures@[j as int] == *c);
                            }
                        }
                        generate_targeting_actions(c.slot, i as u8, &v[i].targeting, None, opp, actions, Ghost(*state), Ghost(*card_db));
                        proof {
                            lemma_appended_trans(*state, *card_db, a0, before, actions@);
                            assert(actions@.subrange(0, at_start.len() as int)
                                =~= actions@.subrange(0, before.len() as int).subrange(0, at_start.len() as int));
                            assert forall|ii: u8, t: Target| (ii as int) < i + 1 && #[trigger] token_ability_at(*state, *c, ii, t)
                                implies covers(actions@, Action::UseAbility { slot: c.slot, ability_index: ii, target: t }) by {
                                if (ii as int) < i {
                                    assert(covers(before, Action::UseAbility { slot: c.slot, ability_index: ii, target: t }));
                                } else {
                                    assert(ii == i as u8);
                                    assert(ability_target_legal(v@[i as int].targeting, t, deref_player(None), *opp));
                                }
                            }
                        }
                    }
                    i = i + 1;
                }
            }
            proof {
                assert forall|ii: u8, t: Target| #[trigger] token_ability_at(*state, *c, ii, t)
                    implies covers(actions@, Action::UseAbility { slot: c.slot, ability_index: ii, target: t }) by {
                }
            }
            if let Some(card_def) = card_db.get(c.card_id) {
                if let CardType::Creature { abilities, .. } = &card_def.card_type {
                    let mut i: usize = 0;
                    while i < abilities.len() && i < 256
                        invariant
                            j < player.creatures@.len(),
                            *c == player.creatures@[j as int],
                            !c.status.spec_silenced() && !c.status.spec_exhausted(),
                            card_db.spec_get(c.card_id) == Some(*card_def),
                            card_def.card_type matches CardType::Creature { abilities: ab, .. } && ab == *abilities,
                            player == state.players[state.active_player.0 as int],
                            opp == state.players[state.active_player.spec_opponent().0 as int],
                            appended_legal(*state, *card_db, a0, actions@),
                            actions@.len() <= ACTION_ROOM,
                            a0.len() <= ACTION_ROOM,
                            actions@.len() >= at_start.len(),
                            actions@.subrange(0, at_start.len() as int) == at_start,
                            forall|ii: u8, t: Target| (ii as int) < i && #[trigger] card_ability_at(*state, *card_db, *c, ii, t)
                                ==> covers(actions@, Action::UseAbility { slot: c.slot, ability_index: ii, target: t }),
                            forall|ii: u8, t: Target| #[trigger] token_ability_at(*state, *c, ii, t)
                                ==> covers(actions@, Action::UseAbility { slot: c.slot, ability_index: ii, target: t }),
                        decreases abilities@.len() - i,
                    {
                        let ab: &AbilityDefinition = &abilities[i];
                        if ab.trigger == Trigger::Activated && ab.essence_cost <= player.current_essence {
                            let ghost before = actions@;
                            proof {
                                assert forall|t: Target| ability_target_legal(ab.targeting, t, Some(*player), *opp) implies
                                    action_legal(*state, *card_db, Action::UseAbility { slot: c.slot, ability_index: i as u8, target: t }) by {
                                    assert(player.creatures@[j as int] == *c);
                                }
                            }
                            generate_targeting_actions(c.slot, i as u8, &ab.targeting, Some(player), opp, actions, Ghost(*state),
                                Ghost(*card_db));
                            proof {
                                lemma_appended_trans(*state, *card_db, a0, before, actions@);
                                assert(actions@.subrange(0, at_start.len() as int)
                                    =~= actions@.subrange(0, before.len() as int).subrange(0, at_start.len() as int));
                                assert forall|ii: u8, t: Target| (ii as int) < i + 1
                                    && #[trigger] card_ability_at(*state, *card_db, *c, ii, t)
                                    implies covers(actions@, Action::UseAbility { slot: c.slot, ability_index: ii, target: t }) by {
                                    if (ii as int) < i {
                                        assert(covers(before, Action::UseAbility { slot: c.slot, ability_index: ii, target: t }));
                                    } else {
                                        assert(ii == i as u8);
                                        assert(ability_target_legal(abilities@[i as int].targeting, t, deref_player(Some(player)), *opp));
                                    }
                                }
                            }
                        }
                        i = i + 1;
                    }
                }
            }
        }
        proof {
            lemma_covers_all_grow(at_start, actions@);
            assert forall|jj: int, sl: Slot, ii: u8, t: Target| 0 <= jj < j + 1
                && #[trigger] ability_at(*state, *card_db, player.creatures@[jj], sl, ii, t)
                implies covers(actions@, Action::UseAbility { slot: sl, ability_index: ii, target: t }) by {
                if jj < j {
                    assert(covers(at_start, Action::UseAbility { slot: sl, ability_index: ii, target: t }));
                } else {
                    assert(player.creatures@[jj] == *c);
                }
            }
        }
        j = j + 1;
    }
    proof {
        assert forall|sl: Slot, ii: u8, t: Target| #[trigger] ability_legal(*state, *card_db, sl, ii, t)
            implies covers(actions@, Action::UseAbility { slot: sl, ability_index: ii, target: t }) by {
            let ps = state.players[state.active_player.0 as int];
            let jj = choose|jj: int| 0 <= jj < ps.creatures@.len()
                && ability_at(*state, *card_db, #[trigger] ps.creatures@[jj], sl, ii, t);
            assert(ability_at(*state, *card_db, player.creatures@[jj], sl, ii, t));
        }
    }
}

/// Whether Commander's Insight is available to the active player.
pub fn is_commander_insight_legal(state: &GameState) -> (r: bool)
    requires
        state.wf(),
    ensures
        r == insight_legal(*state),
{
    if state.current_turn < insight::MIN_TURN {
        return false;
    }
    let player = &state.players[state.active_player.index()];
    let opp = &state.players[state.active_player.opponent().index()];
    if player.used_commander_insight {
        return false;
    }
    if player.hand.len() > insight::MAX_HAND_SIZE {
        return false;
    }
    if player.current_essence < insight::ESSENCE_COST {
        return false;
    }
    player.creatures.len() < opp.creatures.len() || player.life < opp.life
}

/// `r` lists legal actions as `legal_actions` does: none when the game is
/// over; otherwise at most 64, EndTurn last, each legal, and every legal
/// action when fewer than 64 are listed.
pub open spec fn is_legal_list(state: GameState, db: CardDatabase, r: Seq<Action>) -> bool {
    &&& state.spec_is_terminal() ==> r.len() == 0
    &&& !state.spec_is_terminal() ==> r.len() >= 1 && r.last() == Action::EndTurn
    &&& r.len() <= MAX_LEGAL_ACTIONS
    &&& forall|j: int| 0 <= j < r.len() ==> action_legal(state, db, #[trigger] r[j])
    &&& !state.spec_is_terminal() && r.len() < MAX_LEGAL_ACTIONS
        ==> forall|a: Action| #[trigger] action_legal(state, db, a) ==> r.contains(a)
}

/// The mask of a list of actions: entry `i` is set when an encodable action
/// of the list has index `i`.
pub open spec fn mask_of(acts: Seq<Action>, mask: Seq<bool>) -> bool {
    &&& mask.len() == 256
    &&& forall|i: int| 0 <= i < 256 ==> (#[trigger] mask[i] <==> exists|j: int| 0 <= j < acts.len()
            && (#[trigger] acts[j]).encodable() && acts[j].spec_to_index() == i)
}

/// All legal actions of the active player (none once the game is over):
/// card plays, attacks, ability uses, Commander's Insight when available
/// and there is room, and ending the turn, which is always last.
pub fn legal_actions(state: &GameState, card_db: &CardDatabase) -> (r: Vec<Action>)
    requires
        state.wf(),
    ensures
        state.spec_is_terminal() ==> r@.len() == 0,
        !state.spec_is_terminal() ==> r@.len() >= 1 && r@.last() == Action::EndTurn,
        r@.len() <= MAX_LEGAL_ACTIONS,
        forall|j: int| 0 <= j < r@.len() ==> action_legal(*state, *card_db, #[trigger] r@[j]),
        !state.spec_is_terminal() && r@.len() < MAX_LEGAL_ACTIONS
            ==> forall|a: Action| #[trigger] action_legal(*state, *card_db, a) ==> r@.contains(a),
        is_legal_list(*state, *card_db, r@),
{
    let mut actions: Vec<Action> = Vec::new();
    if state.is_terminal() {
        return actions;
    }
    let ghost a0 = actions@;
    generate_play_card_actions(state, card_db, &mut actions);
    let ghost a1 = actions@;
    generate_attack_actions(state, Ghost(*card_db), &mut actions);
    let ghost a2 = actions@;
    generate_ability_actions(state, card_db, &mut actions);
    let ghost a3 = actions@;
    proof {
        lemma_appended_trans(*state, *card_db, a0, a1, a2);
        lemma_appended_trans(*state, *card_db, a0, a2, actions@);
        lemma_appended_trans(*state, *card_db, a1, a2, a3);
        lemma_covers_all_grow(a1, a3);
        lemma_covers_all_grow(a2, a3);
    }
    if is_commander_insight_legal(state) && actions.len() < ACTION_ROOM {
        actions.push(Action::CommanderInsight);
    }
    let ghost before = actions@;
    actions.push(Action::EndTurn);
    proof {
        if actions@.len() < MAX_LEGAL_ACTIONS {
            assert(actions@.subrange(0, a3.len() as int) =~= a3);
            lemma_covers_all_grow(a3, actions@);
            assert(actions@[actions@.len() - 1] == Action::EndTurn);
            assert forall|a: Action| #[trigger] action_legal(*state, *card_db, a) implies actions@.contains(a) by {
                match a {
                    Action::PlayCard { hand_index, slot } => {
                        assert(play_legal(*state, *card_db, hand_index, slot));
                        assert(covers(a1, a));
                    }
                    Action::Attack { attacker, defender } => {
                        assert(attack_legal(*state, attacker, defender));
                        assert(covers(a2, a));
                    }
                    Action::UseAbility { slot, ability_index, target } => {
                        assert(ability_legal(*state, *card_db, slot, ability_index, target));
                        assert(covers(a3, a));
                    }
                    Action::CommanderInsight => {
                        assert(actions@[a3.len() as int] == Action::CommanderInsight);
                    }
                    Action::EndTurn => {}
                }
            }
        }
    }
    proof {
        assert forall|j: int| 0 <= j < actions@.len() implies action_legal(*state, *card_db, #[trigger] actions@[j]) by {
            if j < before.len() - 1 || (j < before.len() && before.len() > 0) {
                assert(actions@[j] == before[j]);
            }
        }
    }
    actions
}

/// The legal action mask: entry `i` is true when the action with index `i`
/// is legal (actions outside the encoding are left out).
pub fn legal_action_mask(state: &GameState, card_db: &CardDatabase) -> (r: Vec<bool>)
    requires
        state.wf(),
    ensures
        r@.len() == 256,
        forall|i: int| 0 <= i < 256 && #[trigger] r@[i] ==> exists|a: Action| a.encodable() && a.spec_to_index() == i
            && action_legal(*state, *card_db, a),
        exists|acts: Seq<Action>| #[trigger] is_legal_list(*state, *card_db, acts) && mask_of(acts, r@)
            && (!state.spec_is_terminal() && acts.len() < MAX_LEGAL_ACTIONS ==> forall|a: Action| #[trigger] action_legal(*state, *card_db, a)
                && a.encodable() ==> r@[a.spec_to_index()]),
        !state.spec_is_terminal() ==> r@[Action::EndTurn.spec_to_index()],
{
    let mut mask: Vec<bool> = Vec::new();
    let mut i: usize = 0;
    while i < 256
        invariant
            i <= 256,
            mask@.len() == i,
            forall|k: int| 0 <= k < i ==> !#[trigger] mask@[k],
        decreases 256 - i,
    {
        mask.push(false);
        i = i + 1;
    }
    let actions = legal_actions(state, card_db);
    let mut j: usize = 0;
    while j < actions.len()
        invariant
            j <= actions@.len(),
            mask@.len() == 256,
            forall|k: int| 0 <= k < actions@.len() ==> action_legal(*state, *card_db, #[trigger] actions@[k]),
            forall|k: int| 0 <= k < 256 && #[trigger] mask@[k] ==> exists|a: Action| a.encodable() && a.spec_to_index() == k
                && action_legal(*state, *card_db, a),
            forall|k: int| 0 <= k < 256 ==> (#[trigger] mask@[k] <==> exists|jj: int| 0 <= jj < j
                && (#[trigger] actions@[jj]).encodable() && actions@[jj].spec_to_index() == k),
        decreases actions@.len() - j,
    {
        let a = actions[j];
        if action_encodable(&a) {
            let idx = a.to_index() as usize;
            proof { assert(action_legal(*state, *card_db, actions@[j as int])); }
            let ghost before = mask@;
            mask.set(idx, true);
            proof {
                assert forall|k: int| 0 <= k < 256 implies (#[trigger] mask@[k] <==> exists|jj: int| 0 <= jj < j + 1
                    && (#[trigger] actions@[jj]).encodable() && actions@[jj].spec_to_index() == k) by {
                    if k == idx as int {
                        assert(actions@[j as int].encodable() && actions@[j as int].spec_to_index() == k);
                    } else {
                        assert(mask@[k] == before[k]);
                        if exists|jj: int| 0 <= jj < j + 1 && (#[trigger] actions@[jj]).encodable() && actions@[jj].spec_to_index() == k {
                            let jj = choose|jj: int| 0 <= jj < j + 1 && (#[trigger] actions@[jj]).encodable() && actions@[jj].spec_to_index() == k;
                            assert(jj != j);
                        }
                    }
                }
                assert forall|k: int| 0 <= k < 256 && #[trigger] mask@[k] implies exists|b: Action| b.encodable()
                    && b.spec_to_index() == k && action_legal(*state, *card_db, b) by {
                    if k == idx as int {
                        assert(a.encodable() && a.spec_to_index() == k && action_legal(*state, *card_db, a));
                    }
                }
            }
        }
        else {
            proof {
                assert forall|k: int| 0 <= k < 256 implies (#[trigger] mask@[k] <==> exists|jj: int| 0 <= jj < j + 1
                    && (#[trigger] actions@[jj]).encodable() && actions@[jj].spec_to_index() == k) by {
                    if exists|jj: int| 0 <= jj < j + 1 && (#[trigger] actions@[jj]).encodable() && actions@[jj].spec_to_index() == k {
                        let jj = choose|jj: int| 0 <= jj < j + 1 && (#[trigger] actions@[jj]).encodable() && actions@[jj].spec_to_index() == k;
                        assert(jj != j);
                    }
                }
            }
        }
        j = j + 1;
    }
    proof {
        assert(mask_of(actions@, mask@));
        if !state.spec_is_terminal() {
            let n = actions@.len() - 1;
            assert(actions@[n] == Action::EndTurn);
            assert(Action::EndTurn.encodable());
        }
        if actions@.len() < MAX_LEGAL_ACTIONS && !state.spec_is_terminal() {
            assert(actions@.len() >= 1);
            assert forall|a: Action| #[trigger] action_legal(*state, *card_db, a) && a.encodable()
                implies mask@[a.spec_to_index()] by {
                assert(actions@.contains(a));
                let jj = choose|jj: int| 0 <= jj < actions@.len() && actions@[jj] == a;
                assert(actions@[jj].encodable() && actions@[jj].spec_to_index() == a.spec_to_index());
            }
        }
        assert(is_legal_list(*state, *card_db, actions@));
    }
    mask
}

/// Whether an action fits the 256-entry encoding.
fn action_encodable(a: &Action) -> (r: bool)
    ensures
        r == a.encodable(),
{
    match a {
        Action::PlayCard { hand_index, slot } => *hand_index < 10 && slot.0 < 5,
        Action::Attack { attacker, defender } => attacker.0 < 5 && defender.0 < 5,
        Action::UseAbility { slot, ability_index, target } => slot.0 < 5 && *ability_index < 2 && match target {
            Target::EnemySlot(s) => s.0 < 5,
            _ => true,
        },
        _ => true,
    }
}

} // verus!
