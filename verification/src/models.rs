//! The two values that the engine works on: the falling piece and the playfield.

pub mod grid;
pub mod tetris;
