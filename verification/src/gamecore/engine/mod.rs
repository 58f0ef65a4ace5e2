//! The game engine: effect resolution, turn flow, actions and victory.

pub mod effect_context;
pub mod passive;
pub mod triggers;
pub mod effect_convert;
pub mod handlers;
pub mod effect_queue;
pub mod victory;
pub mod init;
pub mod turn;
pub mod actions;
pub mod game_engine;
