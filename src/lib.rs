//! Simulation core of a falling-block puzzle game: the catalogue of piece
//! shapes, the playing field, and the rules for moving pieces, clearing rows
//! and speeding up.

pub mod shape;
pub mod game;
pub mod layout;
mod random;
