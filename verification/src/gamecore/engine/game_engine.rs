//! The game engine: turn flow and action execution over one game.

use vstd::prelude::*;
use crate::gamecore::actions::{Action, action_string, action_text};
use crate::gamecore::cards::{CardDatabase, CommanderDefinition};
use crate::gamecore::config::insight;
use crate::gamecore::engine::actions::ActionContext;
use crate::gamecore::engine::actions::ability::execute_use_ability;
use crate::gamecore::engine::actions::attack::execute_attack_with_tracers;
use crate::gamecore::engine::actions::play_card;
use crate::gamecore::engine::effect_queue::{EffectQueue, resolved, same_turn};
use crate::gamecore::engine::actions::attack::attack_done;
use crate::gamecore::engine::actions::ability::ability_used;
use crate::gamecore::effects::{Effect, EffectSource};
use crate::gamecore::legal::{is_legal_list, MAX_LEGAL_ACTIONS};
use crate::gamecore::engine::init::{card_drawn, draw_card, initialize_game_raw, initialized, GameInitError};
use crate::gamecore::engine::passive::remove_support_passives_from_all_creatures;
use crate::gamecore::engine::turn;
use crate::gamecore::engine::turn::{remove_supports_at, supports_without_slot};
use crate::gamecore::engine::victory;
use crate::gamecore::engine::victory::victory_result;
use crate::gamecore::legal::{action_legal, legal_actions};
use crate::gamecore::state::{GameMode, GameResult, GameState, PlayerState, support_index_from};
use crate::gamecore::tracing::combat_tracer::CombatTracer;
use crate::gamecore::tracing::effect_tracer::EffectTracer;
use crate::gamecore::types::{CardId, PlayerId, Slot};
use crate::decks::DeckDefinition;

verus! {

/// A game in progress: its state, the card definitions and the effect queue.
pub struct GameEngine<'a> {
    pub state: GameState,
    pub card_db: &'a CardDatabase,
    pub effect_queue: EffectQueue,
}

/// The state after the active player used Commander's Insight: 4 essence
/// paid, marked as used, and a card drawn.
pub open spec fn insight_used(pre: GameState, post: GameState) -> bool {
    let p = pre.active_player;
    let ps = pre.players[p.0 as int];
    let qs = post.players[p.0 as int];
    &&& post == GameState { players: post.players, ..pre }
    &&& post.players[p.spec_opponent().0 as int] == pre.players[p.spec_opponent().0 as int]
    &&& qs == PlayerState {
            current_essence: (ps.current_essence - insight::ESSENCE_COST) as u8,
            used_commander_insight: true,
            hand: qs.hand,
            deck: qs.deck,
            ..ps
        }
    &&& (qs.hand@, crate::gamecore::state::deck_cards(qs.deck))
        == crate::gamecore::engine::init::drawn_top(ps.hand@, crate::gamecore::state::deck_cards(ps.deck))
}

/// `post` is `pre` once the victory conditions are checked: the result is
/// the one the rules give, and nothing else changes.
pub open spec fn victory_checked(pre: GameState, post: GameState) -> bool {
    &&& post.result == victory_result(pre)
    &&& victory_result(pre) == pre.result ==> post == pre
    &&& victory_result(pre) != pre.result ==> victory::ended_with(pre, post, victory_result(pre)->0)
}

/// Why the action `a`, once found among the legal actions, fails, if it does.
pub open spec fn action_error(s: GameState, db: CardDatabase, a: Action) -> Option<Seq<char>> {
    match a {
        Action::PlayCard { hand_index, slot } => play_card::play_card_error(s, db, hand_index as usize, slot),
        Action::Attack { attacker, .. } => crate::gamecore::engine::actions::attack::attack_error(s, attacker),
        Action::UseAbility { slot, ability_index, .. } =>
            crate::gamecore::engine::actions::ability::ability_error(s, db, slot, ability_index),
        Action::CommanderInsight =>
            if s.players[s.active_player.0 as int].current_essence < insight::ESSENCE_COST {
                Some("Not enough essence for Commander's Insight"@)
            } else {
                None
            },
        Action::EndTurn => None,
    }
}

/// What the action `a` does when it succeeds from `(s0, q0)`, up to
/// `(fin, qfin)`, before the victory check.
pub open spec fn action_done(s0: GameState, q0: EffectQueue, db: CardDatabase, a: Action, fin: GameState, qfin: EffectQueue)
    -> bool
{
    match a {
        Action::PlayCard { hand_index, slot } => {
            let id = play_card::hand_card(s0, hand_index as usize);
            exists|sp: GameState| #[trigger] play_card::card_paid(s0, hand_index as usize, db.spec_get(id)->0.cost, sp)
                && play_card::card_entered(sp, q0, db, id, db.spec_get(id)->0, slot, fin, qfin)
        },
        Action::Attack { attacker, defender } =>
            exists|ce: Seq<(Effect, EffectSource)>, q1: EffectQueue, s2: GameState, q2: EffectQueue, s3: GameState,
                q3: EffectQueue| #[trigger] attack_done(s0, q0, db, attacker, defender, ce, q1, s2, q2, s3, q3, fin, qfin),
        Action::UseAbility { slot, ability_index, target } =>
            exists|s1: GameState, q1: EffectQueue| #[trigger] ability_used(s0, q0, db, slot, ability_index, target, s1, q1)
                && resolved(s1, q1, fin, qfin),
        Action::CommanderInsight => insight_used(s0, fin) && qfin == q0,
        Action::EndTurn =>
            exists|sa: GameState, s1: GameState, q1: EffectQueue, sb: GameState, qb: EffectQueue, sc: GameState|
                #[trigger] turn::turn_ended(s0, q0, db, sa, s1, q1, sb, qb, sc) && turn::turn_start_outcome(sc, qb, db, fin, qfin),
    }
}

impl<'a> GameEngine<'a> {
    /// The engine's game and queue are consistent.
    pub open spec fn wf(&self) -> bool {
        self.state.wf() && self.effect_queue.wf()
    }

    /// The card definitions the engine plays with.
    pub open spec fn db(&self) -> CardDatabase {
        *self.card_db
    }

    /// An engine with an empty game.
    pub fn new(card_db: &'a CardDatabase) -> (r: GameEngine<'a>)
        ensures
            r.wf(),
            r.db() == *card_db,
            r.state.result is None,
            r.state.current_turn == 0,
    {
        GameEngine { state: GameState::new(), card_db, effect_queue: EffectQueue::new() }
    }

    /// Start a game from two decks (Attrition mode).
    pub fn start_game(&mut self, deck1: &DeckDefinition, deck2: &DeckDefinition, seed: u64) -> (r: Result<(), GameInitError>)
        requires
            old(self).wf(),
        ensures
            final(self).wf(),
            final(self).db() == old(self).db(),
            r is Ok <==> old(self).db().spec_get_commander(CardId(deck1.commander)) is Some
                && old(self).db().spec_get_commander(CardId(deck2.commander)) is Some,
            r is Ok ==> final(self).state.current_turn == 1 && final(self).state.active_player == PlayerId(0)
                && final(self).state.game_mode == GameMode::Attrition,
            r is Ok ==> exists|s0: GameState| #[trigger] initialized(s0, deck1.card_ids(), deck2.card_ids(), CardId(deck1.commander), CardId(deck2.commander), seed, GameMode::Attrition)
                && turn::turn_start_outcome(s0, old(self).effect_queue, old(self).db(), final(self).state, final(self).effect_queue),
    {
        self.start_game_with_mode(deck1, deck2, seed, GameMode::Attrition)
    }

    /// Start a game from two decks in the given mode.
    pub fn start_game_with_mode(&mut self, deck1: &DeckDefinition, deck2: &DeckDefinition, seed: u64, mode: GameMode)
        -> (r: Result<(), GameInitError>)
        requires
            old(self).wf(),
        ensures
            final(self).wf(),
            final(self).db() == old(self).db(),
            r is Ok <==> old(self).db().spec_get_commander(CardId(deck1.commander)) is Some
                && old(self).db().spec_get_commander(CardId(deck2.commander)) is Some,
            r is Ok ==> final(self).state.current_turn == 1 && final(self).state.active_player == PlayerId(0)
                && final(self).state.game_mode == mode,
            r is Ok ==> exists|s0: GameState| #[trigger] initialized(s0, deck1.card_ids(), deck2.card_ids(), CardId(deck1.commander), CardId(deck2.commander), seed, mode)
                && turn::turn_start_outcome(s0, old(self).effect_queue, old(self).db(), final(self).state, final(self).effect_queue),
    {
        self.start_game_raw(deck1.to_card_ids(), deck2.to_card_ids(), deck1.commander_id(), deck2.commander_id(), seed, mode)
    }

    /// Start a game from card ids and commanders, then start player one's
    /// first turn.
    pub fn start_game_raw(&mut self, deck1: Vec<CardId>, deck2: Vec<CardId>, commander1: CardId, commander2: CardId,
        seed: u64, mode: GameMode) -> (r: Result<(), GameInitError>)
        requires
            old(self).wf(),
        ensures
            final(self).wf(),
            final(self).db() == old(self).db(),
            old(self).db().spec_get_commander(commander1) is None ==> r == Err::<(), GameInitError>(
                GameInitError::CommanderNotFound { commander_id: commander1.0, player: 1 }),
            old(self).db().spec_get_commander(commander1) is Some && old(self).db().spec_get_commander(commander2) is None
                ==> r == Err::<(), GameInitError>(GameInitError::CommanderNotFound { commander_id: commander2.0, player: 2 }),
            r is Ok <==> old(self).db().spec_get_commander(commander1) is Some
                && old(self).db().spec_get_commander(commander2) is Some,
            r is Err ==> final(self).state == old(self).state,
            r is Ok ==> final(self).state.current_turn == 1 && final(self).state.active_player == PlayerId(0)
                && final(self).state.game_mode == mode,
            r is Ok ==> exists|s0: GameState| #[trigger] initialized(s0, deck1@, deck2@, commander1, commander2, seed, mode)
                && turn::turn_start_outcome(s0, old(self).effect_queue, old(self).db(), final(self).state, final(self).effect_queue),
    {
        let ghost ids1 = deck1@;
        let ghost ids2 = deck2@;
        let r = initialize_game_raw(&mut self.state, self.card_db, deck1, deck2, commander1, commander2, seed, mode);
        if r.is_err() {
            return r;
        }
        let ghost s0 = self.state;
        turn::start_turn(&mut self.state, self.card_db, &mut self.effect_queue);
        proof { assert(initialized(s0, ids1, ids2, commander1, commander2, seed, mode)); }
        Ok(())
    }

    /// The definition of a player's commander, if set and known.
    pub fn get_commander_def(&self, player: PlayerId) -> (r: Option<&CommanderDefinition>)
        ensures
            r == (match self.state.spec_commander(player) {
                Some(id) => match self.db().spec_get_commander(id) { Some(c) => Some(&c), None => None },
                None => None,
            }),
    {
        match self.state.get_commander(player) {
            Some(id) => self.card_db.get_commander(id),
            None => None,
        }
    }

    /// Run an action in an action context built from the engine's game and queue.
    fn run_in_context(&mut self, action: Action, combat_tracer: Option<&mut CombatTracer>, effect_tracer: Option<EffectTracer>)
        -> (r: (Result<(), String>, Option<EffectTracer>))
        requires
            old(self).wf(),
            action is PlayCard || action is Attack || action is UseAbility,
            action matches Action::PlayCard { hand_index, slot } ==> play_card::placement_ok(old(self).state, old(self).db(),
                hand_index as usize, slot),
        ensures
            final(self).wf(),
            final(self).db() == old(self).db(),
            same_turn(old(self).state, final(self).state),
            action matches Action::PlayCard { hand_index, slot } ==> (r.0 is Err <==>
                play_card::play_card_error(old(self).state, old(self).db(), hand_index as usize, slot) is Some),
            action matches Action::Attack { attacker, .. } ==> (r.0 is Err <==>
                crate::gamecore::engine::actions::attack::attack_error(old(self).state, attacker) is Some),
            action matches Action::UseAbility { slot, ability_index, .. } ==> (r.0 is Err <==>
                crate::gamecore::engine::actions::ability::ability_error(old(self).state, old(self).db(), slot, ability_index) is Some),
            r.0 is Ok ==> action_done(old(self).state, old(self).effect_queue, old(self).db(), action, final(self).state,
                final(self).effect_queue),
            r.0 matches Err(m) ==> m@ == action_error(old(self).state, old(self).db(), action)->0,
    {
        let mut state = GameState::new();
        std::mem::swap(&mut state, &mut self.state);
        let mut queue = EffectQueue::new();
        std::mem::swap(&mut queue, &mut self.effect_queue);
        let mut ctx = ActionContext::new(state, self.card_db, queue, effect_tracer);
        let r = match action {
            Action::PlayCard { hand_index, slot } => play_card::execute_play_card(&mut ctx, hand_index as usize, slot),
            Action::Attack { attacker, defender } => execute_attack_with_tracers(&mut ctx, attacker, defender, combat_tracer),
            Action::UseAbility { slot, ability_index, target } => execute_use_ability(&mut ctx, slot, ability_index, target),
            _ => Ok(()),
        };
        let (state2, queue2, tracer2) = ctx.into_parts();
        self.state = state2;
        self.effect_queue = queue2;
        (r, tracer2)
    }

    /// Commander's Insight: pay 4 essence, mark it used this turn, draw a card.
    fn execute_commander_insight(&mut self) -> (r: Result<(), String>)
        requires
            old(self).wf(),
        ensures
            final(self).wf(),
            final(self).db() == old(self).db(),
            same_turn(old(self).state, final(self).state),
            r is Err <==> old(self).state.players[old(self).state.active_player.0 as int].current_essence < insight::ESSENCE_COST,
            r matches Err(m) ==> m@ == "Not enough essence for Commander's Insight"@ && final(self).state == old(self).state,
            r is Ok ==> insight_used(old(self).state, final(self).state),
            final(self).effect_queue == old(self).effect_queue,
    {
        let p = self.state.active_player;
        let i = p.index();
        if self.state.players[i].current_essence < insight::ESSENCE_COST {
            return Err(String::from_str("Not enough essence for Commander's Insight"));
        }
        self.state.players[i].current_essence = self.state.players[i].current_essence - insight::ESSENCE_COST;
        self.state.players[i].used_commander_insight = true;
        draw_card(&mut self.state, p);
        Ok(())
    }

    /// Apply an action (with optional tracers): it must be legal in a game
    /// that is not over; after it, the victory conditions are checked.
    pub fn apply_action_with_tracers(&mut self, action: Action, combat_tracer: Option<&mut CombatTracer>,
        effect_tracer: Option<&mut EffectTracer>) -> (r: Result<(), String>)
        requires
            old(self).wf(),
            action == Action::EndTurn ==> old(self).state.current_turn < u16::MAX,
        ensures
            final(self).wf(),
            final(self).db() == old(self).db(),
            old(self).state.spec_is_terminal() ==> (r matches Err(m) && m@ == "Game is already over"@
                && final(self).state == old(self).state),
            !old(self).state.spec_is_terminal() && !action_legal(old(self).state, old(self).db(), action) ==> (r matches Err(m)
                && m@ == "Illegal action: "@ + action_text(action) && final(self).state == old(self).state),
            r is Ok ==> action_legal(old(self).state, old(self).db(), action),
            r is Ok ==> victory_result(final(self).state) == final(self).state.result,
            r is Ok && action == Action::EndTurn ==> final(self).state.active_player == old(self).state.active_player.spec_opponent()
                && final(self).state.current_turn == old(self).state.current_turn + 1,
            r is Ok && action != Action::EndTurn ==> final(self).state.active_player == old(self).state.active_player
                && final(self).state.current_turn == old(self).state.current_turn,
            r is Ok ==> action_error(old(self).state, old(self).db(), action) is None,
            r is Ok ==> exists|mid: GameState| #[trigger] action_done(old(self).state, old(self).effect_queue, old(self).db(),
                action, mid, final(self).effect_queue) && victory_checked(mid, final(self).state),
            !old(self).state.spec_is_terminal() && action == Action::EndTurn ==> r is Ok,
            !old(self).state.spec_is_terminal() && action_legal(old(self).state, old(self).db(), action) && r is Err ==> (
                (r matches Err(m) && action_error(old(self).state, old(self).db(), action) == Some(m@))
                || exists|acts: Seq<Action>| #[trigger] is_legal_list(old(self).state, old(self).db(), acts)
                    && acts.len() == MAX_LEGAL_ACTIONS && !acts.contains(action)),
    {
        if self.state.is_terminal() {
            return Err(String::from_str("Game is already over"));
        }
        let legal = legal_actions(&self.state, self.card_db);
        let mut found = false;
        let mut k: usize = 0;
        while k < legal.len()
            invariant
                k <= legal@.len(),
                found ==> action_legal(self.state, *self.card_db, action),
                !found ==> forall|j: int| 0 <= j < k ==> legal@[j] != action,
                forall|j: int| 0 <= j < legal@.len() ==> action_legal(self.state, *self.card_db, #[trigger] legal@[j]),
            decreases legal@.len() - k,
        {
            if legal[k] == action {
                found = true;
            }
            k = k + 1;
        }
        if !found {
            proof {
                assert(!legal@.contains(action));
                assert(legal@[legal@.len() - 1] == Action::EndTurn);
                assert(is_legal_list(self.state, *self.card_db, legal@));
            }
            let mut m = String::from_str("Illegal action: ");
            m.append(action_string(&action).as_str());
            return Err(m);
        }
        let ghost pre = self.state;
        let ghost qpre = self.effect_queue;
        match action {
            Action::CommanderInsight => {
                let r = self.execute_commander_insight();
                if r.is_err() {
                    return r;
                }
            }
            Action::EndTurn => {
                turn::end_turn(&mut self.state, self.card_db, &mut self.effect_queue);
            }
            _ => {
                let (r, _t) = match effect_tracer {
                    Some(t) => {
                        let mut tr = EffectTracer::new(t.enabled);
                        std::mem::swap(&mut tr, t);
                        let (r, back) = self.run_in_context(action, combat_tracer, Some(tr));
                        if let Some(b) = back {
                            *t = b;
                        }
                        (r, 0u8)
                    }
                    None => {
                        let (r, _back) = self.run_in_context(action, combat_tracer, None);
                        (r, 0u8)
                    }
                };
                if r.is_err() {
                    return r;
                }
            }
        }
        let ghost mid = self.state;
        proof { assert(action_done(pre, qpre, *self.card_db, action, mid, self.effect_queue)); }
        victory::check_victory_conditions(&mut self.state);
        proof {
            assert(victory_checked(mid, self.state));
            assert(pre == old(self).state && qpre == old(self).effect_queue);
            assert(action_done(old(self).state, old(self).effect_queue, old(self).db(), action, mid, self.effect_queue));
        }
        Ok(())
    }

    /// Apply an action: it must be legal in a game that is not over; after
    /// it, the victory conditions are checked.
    pub fn apply_action(&mut self, action: Action) -> (r: Result<(), String>)
        requires
            old(self).wf(),
            action == Action::EndTurn ==> old(self).state.current_turn < u16::MAX,
        ensures
            final(self).wf(),
            final(self).db() == old(self).db(),
            old(self).state.spec_is_terminal() ==> (r matches Err(m) && m@ == "Game is already over"@
                && final(self).state == old(self).state),
            !old(self).state.spec_is_terminal() && !action_legal(old(self).state, old(self).db(), action) ==> (r matches Err(m)
                && m@ == "Illegal action: "@ + action_text(action) && final(self).state == old(self).state),
            r is Ok ==> action_legal(old(self).state, old(self).db(), action),
            r is Ok ==> victory_result(final(self).state) == final(self).state.result,
            r is Ok && action == Action::EndTurn ==> final(self).state.active_player == old(self).state.active_player.spec_opponent()
                && final(self).state.current_turn == old(self).state.current_turn + 1,
            r is Ok && action != Action::EndTurn ==> final(self).state.active_player == old(self).state.active_player
                && final(self).state.current_turn == old(self).state.current_turn,
            r is Ok ==> action_error(old(self).state, old(self).db(), action) is None,
            r is Ok ==> exists|mid: GameState| #[trigger] action_done(old(self).state, old(self).effect_queue, old(self).db(),
                action, mid, final(self).effect_queue) && victory_checked(mid, final(self).state),
            !old(self).state.spec_is_terminal() && action == Action::EndTurn ==> r is Ok,
            !old(self).state.spec_is_terminal() && action_legal(old(self).state, old(self).db(), action) && r is Err ==> (
                (r matches Err(m) && action_error(old(self).state, old(self).db(), action) == Some(m@))
                || exists|acts: Seq<Action>| #[trigger] is_legal_list(old(self).state, old(self).db(), acts)
                    && acts.len() == MAX_LEGAL_ACTIONS && !acts.contains(action)),
    {
        self.apply_action_with_tracers(action, None, None)
    }

    /// Play a card directly, without the legality check of `apply_action`.
    pub fn execute_play_card(&mut self, hand_index: usize, slot: Slot) -> (r: Result<(), String>)
        requires
            old(self).wf(),
            play_card::placement_ok(old(self).state, old(self).db(), hand_index, slot),
        ensures
            final(self).wf(),
            final(self).db() == old(self).db(),
            same_turn(old(self).state, final(self).state),
            r is Err <==> play_card::play_card_error(old(self).state, old(self).db(), hand_index, slot) is Some,
            r matches Err(m) ==> m@ == play_card::play_card_error(old(self).state, old(self).db(), hand_index, slot)->0,
            r is Err && hand_index >= old(self).state.players[old(self).state.active_player.0 as int].hand@.len()
                ==> final(self).state == old(self).state && final(self).effect_queue == old(self).effect_queue,
            r is Err && hand_index < old(self).state.players[old(self).state.active_player.0 as int].hand@.len() ==> {
                &&& final(self).effect_queue == old(self).effect_queue
                &&& play_card::play_card_error(old(self).state, old(self).db(), hand_index, slot) == Some("Invalid target slot"@)
                    ==> play_card::card_paid(old(self).state, hand_index,
                        old(self).db().spec_get(play_card::hand_card(old(self).state, hand_index))->0.cost, final(self).state)
                &&& play_card::play_card_error(old(self).state, old(self).db(), hand_index, slot) != Some("Invalid target slot"@)
                    ==> play_card::card_taken(old(self).state, hand_index, final(self).state)
            },
            r is Ok ==> exists|sp: GameState| #[trigger] play_card::card_paid(old(self).state, hand_index,
                old(self).db().spec_get(play_card::hand_card(old(self).state, hand_index))->0.cost, sp)
                && play_card::card_entered(sp, old(self).effect_queue, old(self).db(), play_card::hand_card(old(self).state, hand_index),
                    old(self).db().spec_get(play_card::hand_card(old(self).state, hand_index))->0, slot, final(self).state,
                    final(self).effect_queue),
    {
        let mut state = GameState::new();
        std::mem::swap(&mut state, &mut self.state);
        let mut queue = EffectQueue::new();
        std::mem::swap(&mut queue, &mut self.effect_queue);
        let mut ctx = ActionContext::new(state, self.card_db, queue, None);
        let r = play_card::execute_play_card(&mut ctx, hand_index, slot);
        let (state2, queue2, _t) = ctx.into_parts();
        self.state = state2;
        self.effect_queue = queue2;
        r
    }

    /// Check the life rule (an existing result is kept).
    pub fn check_life_victory(&mut self)
        ensures
            old(self).state.result is Some || victory::life_result(old(self).state) is None
                ==> final(self).state == old(self).state,
            old(self).state.result is None && victory::life_result(old(self).state) is Some
                ==> victory::ended_with(old(self).state, final(self).state, victory::life_result(old(self).state)->0),
            final(self).card_db == old(self).card_db,
            final(self).effect_queue == old(self).effect_queue,
    {
        victory::check_life_victory(&mut self.state);
    }

    /// Check essence extraction (EssenceWar only; an existing result is kept).
    pub fn check_essence_extraction_victory(&mut self)
        ensures
            old(self).state.game_mode != GameMode::EssenceWar || old(self).state.result is Some
                || victory::essence_winner(old(self).state) is None ==> final(self).state == old(self).state,
            old(self).state.game_mode == GameMode::EssenceWar && old(self).state.result is None
                && victory::essence_winner(old(self).state) is Some ==> victory::ended_with(old(self).state, final(self).state,
                    GameResult::Win { winner: victory::essence_winner(old(self).state)->0,
                        reason: crate::gamecore::state::WinReason::EssenceExtractionReached }),
            final(self).card_db == old(self).card_db,
            final(self).effect_queue == old(self).effect_queue,
    {
        victory::check_essence_extraction_victory(&mut self.state);
    }

    /// Remove the support at a player's `slot`, taking its passives off that
    /// player's creatures.
    pub fn remove_support(&mut self, player: PlayerId, slot: Slot)
        requires
            player.valid(),
        ensures
            ({
                let ss = old(self).state.players[player.0 as int].supports@;
                let k = support_index_from(ss, slot, 0);
                &&& k == -1 ==> final(self).state == old(self).state
                &&& k != -1 ==> {
                    &&& final(self).state.players[player.0 as int].supports@ == supports_without_slot(ss, slot)
                    &&& final(self).state.players[player.0 as int].creatures@.len()
                        == old(self).state.players[player.0 as int].creatures@.len()
                    &&& forall|j: int| 0 <= j < old(self).state.players[player.0 as int].creatures@.len() ==>
                        #[trigger] final(self).state.players[player.0 as int].creatures@[j]
                        == crate::gamecore::engine::passive::without_modifiers(old(self).state.players[player.0 as int].creatures@[j],
                            crate::gamecore::engine::passive::support_modifiers(old(self).db(), ss[k].card_id))
                    &&& final(self).state.players[player.spec_opponent().0 as int]
                        == old(self).state.players[player.spec_opponent().0 as int]
                }
            }),
            final(self).card_db == old(self).card_db,
            final(self).effect_queue == old(self).effect_queue,
    {
        let i = player.index();
        let card_id = match self.state.players[i].get_support(slot) {
            Some(s) => s.card_id,
            None => return,
        };
        remove_support_passives_from_all_creatures(card_id, &mut self.state.players[i].creatures, self.card_db);
        remove_supports_at(&mut self.state.players[i].supports, slot);
    }

    /// Whether the game is over.
    pub fn is_terminal(&self) -> (r: bool)
        ensures
            r == self.state.spec_is_terminal(),
    {
        self.state.is_terminal()
    }

    /// The winner, if the game was won (none while it goes on or on a draw).
    pub fn winner(&self) -> (r: Option<PlayerId>)
        ensures
            r == (match self.state.result {
                Some(GameResult::Win { winner, .. }) => Some(winner),
                _ => None,
            }),
    {
        match self.state.result {
            Some(GameResult::Win { winner, .. }) => Some(winner),
            _ => None,
        }
    }

    /// The card definitions the engine plays with.
    pub fn card_db(&self) -> (r: &CardDatabase)
        ensures
            *r == self.db(),
    {
        self.card_db
    }

    /// The legal actions of the active player.
    pub fn get_legal_actions(&self) -> (r: Vec<Action>)
        requires
            self.wf(),
        ensures
            forall|j: int| 0 <= j < r@.len() ==> action_legal(self.state, self.db(), #[trigger] r@[j]),
            self.state.spec_is_terminal() ==> r@.len() == 0,
            !self.state.spec_is_terminal() ==> r@.len() >= 1 && r@.last() == Action::EndTurn,
    {
        legal_actions(&self.state, self.card_db)
    }

    /// Apply the action with the given index.
    pub fn apply_action_by_index(&mut self, index: u8) -> (r: Result<(), String>)
        requires
            old(self).wf(),
            Action::spec_from_index(index) == Some(Action::EndTurn) ==> old(self).state.current_turn < u16::MAX,
        ensures
            final(self).wf(),
            Action::spec_from_index(index) is None ==> (r matches Err(m)
                && m@ == "Invalid action index: "@ + crate::gamecore::text::dec(index as nat) && final(self).state == old(self).state),
            r is Ok ==> (Action::spec_from_index(index) matches Some(a) && action_legal(old(self).state, old(self).db(), a)),
            r is Ok ==> exists|mid: GameState| #[trigger] action_done(old(self).state, old(self).effect_queue, old(self).db(),
                Action::spec_from_index(index)->0, mid, final(self).effect_queue) && victory_checked(mid, final(self).state),
            !old(self).state.spec_is_terminal() && Action::spec_from_index(index) == Some(Action::EndTurn) ==> r is Ok,
            Action::spec_from_index(index) is Some && !old(self).state.spec_is_terminal()
                && action_legal(old(self).state, old(self).db(), Action::spec_from_index(index)->0) && r is Err ==> (
                (r matches Err(m) && action_error(old(self).state, old(self).db(), Action::spec_from_index(index)->0) == Some(m@))
                || exists|acts: Seq<Action>| #[trigger] is_legal_list(old(self).state, old(self).db(), acts)
                    && acts.len() == MAX_LEGAL_ACTIONS && !acts.contains(Action::spec_from_index(index)->0)),
    {
        match Action::from_index(index) {
            Some(a) => self.apply_action(a),
            None => {
                let mut m = String::from_str("Invalid action index: ");
                m.append(crate::gamecore::text::decimal(index as u64).as_str());
                Err(m)
            }
        }
    }

    /// Whether the game is over.
    pub fn is_game_over(&self) -> (r: bool)
        ensures
            r == self.state.spec_is_terminal(),
    {
        self.is_terminal()
    }

    /// A copy of the game state (for search).
    pub fn clone_state(&self) -> (r: GameState) {
        self.state.clone()
    }

    /// An independent engine on a copy of the game, with an empty queue.
    pub fn fork(&self) -> (r: GameEngine<'a>)
        ensures
            r.card_db == self.card_db,
            r.effect_queue.wf(),
            r.effect_queue.pending().len() == 0,
    {
        GameEngine { state: self.state.clone(), card_db: self.card_db, effect_queue: EffectQueue::new() }
    }

    /// The active player.
    pub fn current_player(&self) -> (r: PlayerId)
        ensures
            r == self.state.active_player,
    {
        self.state.active_player
    }

    /// The turn number.
    pub fn turn_number(&self) -> (r: u16)
        ensures
            r == self.state.current_turn,
    {
        self.state.current_turn
    }
}

} // verus!
