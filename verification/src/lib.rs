//! Core logic of a retained-mode list-box widget and of the stroke geometry
//! that backs vector line and arc drawing: a decomposer that covers a stroked
//! segment with axis-aligned rectangles, a distance-field evaluator for
//! anti-aliased coverage, a virtualized node pool keyed by stable node ids,
//! and the single-select interaction state machine.
//!
//! All geometry works in integer pixel units and all animation amounts in
//! per-mille, so every function here is exact; the drawing backend that turns
//! these values into GPU calls sits outside this crate.

pub mod geom;
pub mod sqrt;
pub mod arith;
pub mod line;
pub mod stroke;
pub mod arc;
pub mod node;
pub mod pool;
pub mod selection;
pub mod list_box;
