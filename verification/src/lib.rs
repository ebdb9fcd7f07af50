//! A Connect Four board kept in two 64-bit sets, one per player.

pub mod bits;
pub mod board;
pub mod game;
pub mod position;
pub mod render;

pub use board::Bitboard;
