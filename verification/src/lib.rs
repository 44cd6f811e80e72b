//! Rules engine for a two-board naval combat game: fleet placement on a
//! fixed grid, shot resolution, and win/loss detection, with verified
//! contracts for every operation.
#![verifier::loop_isolation(false)]

pub mod game;
pub mod slot;
