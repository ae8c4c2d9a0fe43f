//! Solver for a two-layer twisty ball puzzle.
//!
//! A configuration of the puzzle is a cyclic arrangement of 16 pieces over
//! two layers of 12 slots each.  The layers can be rotated independently and
//! a flip exchanges the movable halves of the two layers.  The crate packs a
//! configuration into a `u64`, enumerates the moves that are legal from it,
//! searches the move graph for a path back to the solved configuration, and
//! afterwards relaxes a found path into a shorter one.

pub mod faster;
pub mod find_solution;
pub mod improve_solution;
pub mod outer_layer;
pub mod outer_piece;
pub mod packing;
pub mod piece;
pub mod position;
pub mod prefix_set;
pub mod priority_queue;
pub mod scorable_layer;
pub mod telemetry;
pub mod visited_graph;
