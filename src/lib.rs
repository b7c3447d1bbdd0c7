//! An opening book for a Tak-style board game: lines of recorded moves, loaded
//! from text, and a lookup that proposes a continuation of the moves played so
//! far that stays on the board.
pub mod moves;
pub mod notation;
pub mod text;
pub mod book;
