//! Global pairwise alignment of two symbol sequences under gap-affine scores (Gotoh's
//! algorithm), with the path of moves that realises it.
pub mod align;
pub mod laws;
pub mod model;
pub mod render;
