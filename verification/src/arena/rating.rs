//! Rating records of decks: match results and the recent rating changes.

use vstd::prelude::*;

verus! {

/// How many rating changes a deck keeps.
pub const HISTORY_LIMIT: usize = 50;

/// The result of a match, for the rating history.
#[derive(Clone, Copy, Debug, PartialEq, Eq, Structural)]
pub enum MatchResult {
    Win,
    Loss,
    Draw,
}

/// One rating change of a deck.
#[derive(Clone, Debug)]
pub struct RatingChange {
    /// Date of the match (ISO 8601).
    pub date: String,
    /// The opponent deck's id.
    pub opponent: String,
    /// The change in rating.
    pub delta: i32,
    /// The result from this deck's side.
    pub result: MatchResult,
    /// The number of games of the match.
    pub games: u32,
}

/// The result for a deck that won `wins` games and lost `losses`.
pub fn match_result(wins: usize, losses: usize) -> (r: MatchResult)
    ensures
        r == (if wins > losses {
            MatchResult::Win
        } else if losses > wins {
            MatchResult::Loss
        } else {
            MatchResult::Draw
        }),
{
    if wins > losses {
        MatchResult::Win
    } else if losses > wins {
        MatchResult::Loss
    } else {
        MatchResult::Draw
    }
}

/// The history after recording `change`: it is appended, and the oldest
/// entry goes when there are more than `HISTORY_LIMIT`.
pub open spec fn history_after(h: Seq<RatingChange>, change: RatingChange) -> Seq<RatingChange> {
    if h.len() + 1 > HISTORY_LIMIT {
        h.push(change).drop_first()
    } else {
        h.push(change)
    }
}

/// Record a rating change, keeping only the last `HISTORY_LIMIT`.
pub fn add_history(history: &mut Vec<RatingChange>, change: RatingChange)
    ensures
        final(history)@ == history_after(old(history)@, change),
{
    history.push(change);
    if history.len() > HISTORY_LIMIT {
        history.remove(0);
    }
}

/// A history never grows past `HISTORY_LIMIT` once it is within it, and the
/// newest change is always last.
pub proof fn lemma_history_bounded(h: Seq<RatingChange>, change: RatingChange)
    requires
        h.len() <= HISTORY_LIMIT,
    ensures
        history_after(h, change).len() <= HISTORY_LIMIT,
        history_after(h, change).last() == change,
{
}

} // verus!
