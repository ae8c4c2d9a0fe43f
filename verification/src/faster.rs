//! The packed representation of the puzzle: configurations, layers and moves
//! stored as 4-bit piece tags inside a single `u64`.

pub mod layer;
pub mod position;
pub mod rotatable_layer;
