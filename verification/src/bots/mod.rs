//! Bot types and the position hashing used by search.

pub mod factory;
pub mod transposition;

pub use factory::{BotType, BotTypeParseError, WeightLookup, WeightResolutionError};
pub use transposition::{zobrist_hash, Bound};
