//! Rules engine for a two-player, turn-based strategy game on a fixed
//! 88-cell hex board.
//!
//! The engine keeps exact game state, enumerates the legal actions at any
//! point as a dense integer index space, applies one action index at a time
//! through a phase state machine, and projects the state into a fixed-length
//! numeric feature vector (given as exact integer fractions, so that a host
//! can divide them out in whatever float width it prefers).

pub mod board;
pub mod encode;
pub mod game;
pub mod legal;
pub mod state;
