//! The falling-block engine of a terminal block-stacking game: piece geometry,
//! collision-checked movement, rotation with kicks, and the playfield's
//! line clearing.

pub mod builder;
pub mod field;
pub mod game;
pub mod geometry;
pub mod models;
pub mod motion;
pub mod palette;
pub mod rotation;
pub mod score;
