//! Exhaustive analysis of positions on a 3×3 board for two players.
//!
//! Given a board and the player to move, the library classifies every legal
//! move as a forced win, draw or loss under best play, and gives the share of
//! the opponent's replies that lead to each outcome.

pub mod board;
pub mod classification;
pub mod moves;
pub mod analysis;
