//! Combat: creature fights, face attacks, deaths and their triggers.

pub mod triggers;
pub mod death;
pub mod face_attack;
pub mod creature_combat;
pub mod resolve;

pub use resolve::CombatResult;
