//! A grid snake game engine: the board, its movement and growth rules,
//! food placement and the steering rule that suppresses reversals.
mod board;
mod entropy;
mod geometry;

pub use board::{lemma_interior_move_in_bounds, lemma_self_collision, Board, BoardView, Status};
pub use geometry::{
    cell_at, lemma_reversal_suppressed, lemma_turn_taken, opposite_of, opposite_spec, resolve,
    resolve_spec, shifted, within, Direction, Point,
};
