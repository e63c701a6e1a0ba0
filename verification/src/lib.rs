//! Core of a Picross (nonogram) puzzle game: board generation, clue
//! computation, reveal/mark state transitions, and win/loss detection.
//!
//! The library is a pure state machine. A front-end drives it through
//! [`controller::apply`] and re-reads the board, the clue vectors and the
//! win state to render.

pub mod controller;
pub mod game;
mod rng;
pub mod runs;
