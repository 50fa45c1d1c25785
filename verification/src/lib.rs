//! Rules and move generation for two-player chess.
//!
//! The board is a set of twelve 64-bit piece sets. Sliding attacks are looked
//! up in tables built once from fixed multipliers; every other attack set is
//! computed from the square alone. A position never changes in place: a move
//! yields a new snapshot and the game is the stack of them.
pub mod bits;
pub mod board;
pub mod board_helper;
pub mod fen;
pub mod geometry;
pub mod laws;
pub mod magics;
pub mod mask;
pub mod move_gen;
pub mod moves;
pub mod piece;
pub mod square;
pub mod uci;
