//! The error type shared by all fallible operations on a cell map.

use vstd::prelude::*;

use crate::bounds::Bounds;

verus! {

/// Everything that can go wrong while building or addressing a cell map.
///
/// All variants are immediate value errors: nothing is retryable.
#[derive(Clone, Copy, Debug, PartialEq, Eq)]
pub enum Error {
    /// The requested bounds have a reversed range on some axis.
    InvalidBounds(Bounds),
    /// A window with the given semi-extent (first) cannot fit a map of the
    /// given size (second) on some axis.
    WindowLargerThanMap((usize, usize), (usize, usize)),
    /// The whole-cell coordinate a parent-frame position maps to lies outside
    /// the bounds of the map.
    PositionOutsideMap((i32, i32)),
    /// The given array index lies outside the shape of the map.
    IndexOutsideMap((usize, usize)),
    /// Layer data supplied for reconstruction should have the expected number
    /// of layers (first) but has another (second).
    WrongNumberOfLayers(usize, usize),
    /// A layer supplied for reconstruction should have the expected shape
    /// (first) but has another (second).
    LayerWrongShape((usize, usize), (usize, usize)),
}

} // verus!
