use vstd::prelude::*;

/// Squares, pieces, move relations and directions.
pub mod types;
/// The board, its storage, the starting arrangement and move execution.
pub mod board;
/// The attack oracle, the legality filter and checkmate detection.
pub mod check;
/// Pseudo-legal move generation for each kind of piece.
pub mod piece;
/// The game as a player drives it: cursor, selection and turns.
pub mod state;

verus! {

} // verus!
