//! Victory conditions: life reaching zero, essence extraction, turn limit.

use vstd::prelude::*;
use crate::gamecore::config::game;
use crate::gamecore::state::{GameMode, GamePhase, GameResult, GameState, WinReason};
use crate::gamecore::types::PlayerId;

verus! {

/// `post` is `pre` with the game over with `result`.
pub open spec fn ended_with(pre: GameState, post: GameState, result: GameResult) -> bool {
    post == GameState { result: Some(result), phase: GamePhase::Ended, ..pre }
}

/// The result the life rule gives, if any: both at or below 0 life is a
/// draw, one is a loss for that player.
pub open spec fn life_result(s: GameState) -> Option<GameResult> {
    let p1_dead = s.players[0].life <= 0;
    let p2_dead = s.players[1].life <= 0;
    if p1_dead && p2_dead {
        Some(GameResult::Draw)
    } else if p1_dead {
        Some(GameResult::Win { winner: PlayerId(1), reason: WinReason::LifeReachedZero })
    } else if p2_dead {
        Some(GameResult::Win { winner: PlayerId(0), reason: WinReason::LifeReachedZero })
    } else {
        None
    }
}

/// The first player (in seat order) who has extracted enough essence, if any.
pub open spec fn essence_winner(s: GameState) -> Option<PlayerId> {
    if s.players[0].total_damage_dealt >= game::VICTORY_POINTS_THRESHOLD {
        Some(PlayerId(0))
    } else if s.players[1].total_damage_dealt >= game::VICTORY_POINTS_THRESHOLD {
        Some(PlayerId(1))
    } else {
        None
    }
}

/// The tiebreak winner at the turn limit: more essence extracted in
/// EssenceWar, more life in Attrition; ties go to the first player.
pub open spec fn tiebreak_winner(s: GameState) -> PlayerId {
    match s.game_mode {
        GameMode::EssenceWar =>
            if s.players[0].total_damage_dealt >= s.players[1].total_damage_dealt { PlayerId(0) } else { PlayerId(1) },
        GameMode::Attrition => if s.players[0].life >= s.players[1].life { PlayerId(0) } else { PlayerId(1) },
    }
}

/// End the game by tiebreaker at the turn limit.
pub fn check_turn_limit_victory(state: &mut GameState)
    ensures
        ended_with(*old(state), *final(state),
            GameResult::Win { winner: tiebreak_winner(*old(state)), reason: WinReason::TurnLimitTiebreaker }),
{
    let winner = match state.game_mode {
        GameMode::EssenceWar => {
            if state.players[0].total_damage_dealt >= state.players[1].total_damage_dealt {
                PlayerId(0)
            } else {
                PlayerId(1)
            }
        }
        GameMode::Attrition => {
            if state.players[0].life >= state.players[1].life {
                PlayerId(0)
            } else {
                PlayerId(1)
            }
        }
    };
    state.result = Some(GameResult::Win { winner, reason: WinReason::TurnLimitTiebreaker });
    state.phase = GamePhase::Ended;
}

/// End the game when a player's life has reached 0 (both at once: a draw);
/// an existing result is kept.
pub fn check_life_victory(state: &mut GameState)
    ensures
        old(state).result is Some || life_result(*old(state)) is None ==> *final(state) == *old(state),
        old(state).result is None && life_result(*old(state)) is Some ==>
            ended_with(*old(state), *final(state), life_result(*old(state))->0),
{
    if state.result.is_some() {
        return;
    }
    let p1_dead = state.players[0].life <= 0;
    let p2_dead = state.players[1].life <= 0;
    if p1_dead && p2_dead {
        state.result = Some(GameResult::Draw);
        state.phase = GamePhase::Ended;
    } else if p1_dead {
        state.result = Some(GameResult::Win { winner: PlayerId(1), reason: WinReason::LifeReachedZero });
        state.phase = GamePhase::Ended;
    } else if p2_dead {
        state.result = Some(GameResult::Win { winner: PlayerId(0), reason: WinReason::LifeReachedZero });
        state.phase = GamePhase::Ended;
    }
}

/// In EssenceWar, end the game when a player has extracted enough essence
/// (the first player is checked first); an existing result is kept.
pub fn check_essence_extraction_victory(state: &mut GameState)
    ensures
        old(state).game_mode != GameMode::EssenceWar || old(state).result is Some || essence_winner(*old(state)) is None
            ==> *final(state) == *old(state),
        old(state).game_mode == GameMode::EssenceWar && old(state).result is None && essence_winner(*old(state)) is Some
            ==> ended_with(*old(state), *final(state),
                GameResult::Win { winner: essence_winner(*old(state))->0, reason: WinReason::EssenceExtractionReached }),
{
    if state.game_mode != GameMode::EssenceWar {
        return;
    }
    if state.result.is_some() {
        return;
    }
    let mut player_idx: usize = 0;
    while player_idx < 2
        invariant
            player_idx <= 2,
            *state == *old(state),
            old(state).game_mode == GameMode::EssenceWar,
            old(state).result is None,
            player_idx >= 1 ==> old(state).players[0].total_damage_dealt < game::VICTORY_POINTS_THRESHOLD,
            player_idx >= 2 ==> old(state).players[1].total_damage_dealt < game::VICTORY_POINTS_THRESHOLD,
        decreases 2 - player_idx,
    {
        if state.players[player_idx].total_damage_dealt >= game::VICTORY_POINTS_THRESHOLD {
            let winner = if player_idx == 0 { PlayerId(0) } else { PlayerId(1) };
            state.result = Some(GameResult::Win { winner, reason: WinReason::EssenceExtractionReached });
            state.phase = GamePhase::Ended;
            return;
        }
        player_idx = player_idx + 1;
    }
}

/// The result the victory checks give: the life rule first, then essence
/// extraction in EssenceWar.
pub open spec fn victory_result(s: GameState) -> Option<GameResult> {
    if s.result is Some {
        s.result
    } else if life_result(s) is Some {
        life_result(s)
    } else if s.game_mode == GameMode::EssenceWar && essence_winner(s) is Some {
        Some(GameResult::Win { winner: essence_winner(s)->0, reason: WinReason::EssenceExtractionReached })
    } else {
        None
    }
}

/// Check every victory condition after an action.
pub fn check_victory_conditions(state: &mut GameState)
    ensures
        final(state).result == victory_result(*old(state)),
        victory_result(*old(state)) == old(state).result ==> *final(state) == *old(state),
        victory_result(*old(state)) != old(state).result ==> ended_with(*old(state), *final(state), victory_result(*old(state))->0),
{
    check_life_victory(state);
    check_essence_extraction_victory(state);
}

/// Law: once the game has a result, the victory checks leave the state as it is.
pub proof fn lemma_result_is_final(s: GameState)
    requires
        s.result is Some,
    ensures
        victory_result(s) == s.result,
{
}

} // verus!
