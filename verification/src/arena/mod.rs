//! Arena utilities: deck selection for matches, Swiss tournaments (results,
//! pairings, ranking, standings), and rating records.

pub mod deck_utils;
pub mod ranking;
pub mod rating;
pub mod swiss;
pub mod tournament;

pub use deck_utils::{load_deck, validate_faction_deck_binding};
pub use rating::{MatchResult, RatingChange};
pub use tournament::{Pairing, TournamentMatchResult};
