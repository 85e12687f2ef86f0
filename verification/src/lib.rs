//! A verified rules engine for Kalah-style mancala: a fourteen-slot board
//! (six pits and a store per player), move validation, sowing with the
//! opponent-store skip, the capture and extra-turn rules, end-of-game
//! detection and the final sweep.

pub mod board;
pub mod model;
pub mod sums;
