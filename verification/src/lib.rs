//! Solver and analysis engine for Wordle-family guessing games.
//!
//! The library computes the colored feedback for a guess against a target
//! word, precomputes an outcome index over a word list, and maintains
//! per-board possibility sets that narrow with every guess, together with
//! a ranking of candidate guesses by expected reduction of those sets.

pub mod bitmap;
pub mod constants;
pub mod game_rules;
pub mod game_run;
pub mod rng;
pub mod types;
pub mod utils;
