//! A two-player, gravity-based grid game (vertical connect-four) with an
//! automated opponent that searches the game tree to a bounded depth.
//!
//! The `board` module owns the grid state, applies moves under gravity and
//! detects four-in-a-row wins; the `search` module chooses moves for the
//! automated player by bounded full-width negamax with a center tie-break.

pub mod board;
pub mod search;
