//! The per-tick rules of the game, each a step from one state to the next.

pub mod motion;
pub mod player;
