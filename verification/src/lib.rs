//! A tick-driven visual-effects engine for a 2D grid of styled cells.
//!
//! Effects (color fades and their combinators: sequence, parallel,
//! delayed start) are advanced by per-frame time deltas and paint into a
//! grid of cells, restricted by cell filters and eased by interpolation
//! curves.  An effect manager owns the active top-level effects, advances
//! and paints them once per frame, and evicts the finished ones.

pub mod color;
pub mod curve;
pub mod grid;
pub mod filter;
pub mod effect;
pub mod laws;
pub mod manager;
pub mod ui;
