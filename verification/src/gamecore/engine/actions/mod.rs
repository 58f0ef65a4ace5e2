//! Executing player actions: playing cards, attacking, using abilities.

pub mod context;
pub mod play_card;
pub mod attack;
pub mod ability;

pub use context::ActionContext;
