//! Core game rules and data.

pub mod types;
pub mod keywords;
pub mod config;
pub mod arith;
pub mod text;
pub mod effects;
pub mod state;
pub mod actions;
pub mod cards;
pub mod card_validation;
pub mod engine;
pub mod tracing;
pub mod combat;
pub mod legal;
