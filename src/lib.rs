//! A falling-tile merge puzzle: the board, its merge cascade, piece
//! spawning and the per-tick game rules, each with a verified contract.

pub mod board;
pub mod piece;
pub mod game;
pub mod input;
pub mod display;
