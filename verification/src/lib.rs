//! Essence Wars: a deterministic, perfect-information card game engine.
//!
//! The rules of the game (combat, effects, turns, victory, legal actions)
//! live under [`gamecore`]; small utilities for bots and arena runs live under
//! [`bots`] and [`arena`].

pub mod gamecore;
pub mod decks;
pub mod bots;
pub mod arena;
