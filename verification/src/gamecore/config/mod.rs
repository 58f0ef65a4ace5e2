//! Game balance constants.

pub mod board;
pub mod game;
pub mod player;
pub mod insight;
