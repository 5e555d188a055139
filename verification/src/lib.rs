//! A many-layer 2D cellular map.
//!
//! The crate provides [`CellMap`], a dense two-dimensional grid in which every
//! cell position carries one value per named layer, together with the integer
//! geometry needed to address it: [`Bounds`] describing the index range of the
//! grid, a composable iteration pipeline over cells, windows and traced lines,
//! and the conversions between array indices and whole-cell coordinates.
//!
//! Continuous (parent-frame) geometry — cell sizes, rotations, translations —
//! is carried opaquely as IEEE-754 bit patterns and interpreted by the
//! embedding application; the grid logic in this crate never reads it.

mod bounds;
mod cell_map;
mod grid;
mod layer;
pub mod line;
pub mod error;
pub mod iterators;

pub use crate::bounds::Bounds;
pub use crate::cell_map::CellMap;
pub use crate::cell_map::CellMapParams;
pub use crate::grid::Grid;
pub use crate::layer::Layer;
pub use crate::error::Error;
