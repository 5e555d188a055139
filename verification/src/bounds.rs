//! The index range of the grid: one half-open integer range per axis.

use vstd::prelude::*;

use crate::error::Error;

verus! {

/// The whole-cell coordinate range of a grid, one half-open range `[min, max)`
/// per axis.
///
/// A cell coordinate `(cx, cy)` lies in the grid when `x.0 <= cx < x.1` and
/// `y.0 <= cy < y.1`; the array index of that cell is `(cx - x.0, cy - y.0)`.
#[derive(Clone, Copy, Debug, PartialEq, Eq)]
pub struct Bounds {
    /// Cell coordinate range on the `x` axis: `x.0` inclusive, `x.1` exclusive.
    pub x: (i32, i32),
    /// Cell coordinate range on the `y` axis: `y.0` inclusive, `y.1` exclusive.
    pub y: (i32, i32),
}

impl Bounds {
    /// A bounds value is valid when neither axis range is reversed.
    pub open spec fn valid(self) -> bool {
        self.x.0 <= self.x.1 && self.y.0 <= self.y.1
    }

    /// Number of cells along the `x` axis.
    pub open spec fn size_x(self) -> int {
        self.x.1 - self.x.0
    }

    /// Number of cells along the `y` axis.
    pub open spec fn size_y(self) -> int {
        self.y.1 - self.y.0
    }

    /// Whether the whole-cell coordinate `cell` lies inside the bounds.
    pub open spec fn spec_contains(self, cell: (i32, i32)) -> bool {
        self.x.0 <= cell.0 < self.x.1 && self.y.0 <= cell.1 < self.y.1
    }

    /// The array index of the cell at whole-cell coordinate `cell`.
    pub open spec fn spec_index_of(self, cell: (i32, i32)) -> (int, int) {
        (cell.0 - self.x.0, cell.1 - self.y.0)
    }

    /// The whole-cell coordinate of the cell at array index `index`.
    pub open spec fn spec_cell_of(self, index: (usize, usize)) -> (int, int) {
        (self.x.0 + index.0, self.y.0 + index.1)
    }

    /// Builds the bounds `[x.0, x.1) x [y.0, y.1)`, rejecting reversed ranges.
    pub fn new(x: (i32, i32), y: (i32, i32)) -> (r: Result<Self, Error>)
        ensures
            ({
                let b = Bounds { x, y };
                if b.valid() {
                    r == Ok::<Bounds, Error>(b)
                } else {
                    r == Err::<Bounds, Error>(Error::InvalidBounds(b))
                }
            }),
    {
        let b = Bounds { x, y };
        if x.0 <= x.1 && y.0 <= y.1 {
            Ok(b)
        } else {
            Err(Error::InvalidBounds(b))
        }
    }

    /// Whether neither axis range is reversed.
    pub fn is_valid(&self) -> (r: bool)
        ensures
            r == self.valid(),
    {
        self.x.0 <= self.x.1 && self.y.0 <= self.y.1
    }

    /// The number of cells along each axis.
    pub fn size(&self) -> (r: (usize, usize))
        requires
            self.valid(),
        ensures
            r.0 == self.size_x(),
            r.1 == self.size_y(),
    {
        let sx = (self.x.1 as i64) - (self.x.0 as i64);
        let sy = (self.y.1 as i64) - (self.y.0 as i64);
        (sx as usize, sy as usize)
    }

    /// Whether the whole-cell coordinate `cell` lies inside the bounds.
    pub fn contains(&self, cell: (i32, i32)) -> (r: bool)
        ensures
            r == self.spec_contains(cell),
    {
        self.x.0 <= cell.0 && cell.0 < self.x.1 && self.y.0 <= cell.1 && cell.1 < self.y.1
    }

    /// The array index of the cell at whole-cell coordinate `cell`, if the
    /// coordinate lies inside the bounds.
    pub fn index_of(&self, cell: (i32, i32)) -> (r: Option<(usize, usize)>)
        ensures
            self.spec_contains(cell) ==> (r matches Some(i) && (i.0 as int, i.1 as int)
                == self.spec_index_of(cell)),
            !self.spec_contains(cell) ==> r is None,
    {
        if self.contains(cell) {
            let ix = (cell.0 as i64) - (self.x.0 as i64);
            let iy = (cell.1 as i64) - (self.y.0 as i64);
            Some((ix as usize, iy as usize))
        } else {
            None
        }
    }

    /// The whole-cell coordinate of the cell at array index `index`, if the
    /// index lies inside the shape of the grid.
    pub fn cell_of(&self, index: (usize, usize)) -> (r: Option<(i32, i32)>)
        requires
            self.valid(),
        ensures
            index.0 < self.size_x() && index.1 < self.size_y() ==> (r matches Some(c) && (
            c.0 as int,
            c.1 as int,
            ) == self.spec_cell_of(index)),
            !(index.0 < self.size_x() && index.1 < self.size_y()) ==> r is None,
    {
        let (sx, sy) = self.size();
        if index.0 < sx && index.1 < sy {
            let cx = (self.x.0 as i64) + (index.0 as i64);
            let cy = (self.y.0 as i64) + (index.1 as i64);
            Some((cx as i32, cy as i32))
        } else {
            None
        }
    }

    /// Round trip of the index maps: the array index of the cell at a valid
    /// array index `index` is `index` again, and the cell coordinate recovered
    /// through the index map lies inside the bounds.
    pub proof fn lemma_index_round_trip(self, index: (usize, usize))
        requires
            self.valid(),
            index.0 < self.size_x(),
            index.1 < self.size_y(),
        ensures
            ({
                let c = self.spec_cell_of(index);
                let cell = (c.0 as i32, c.1 as i32);
                self.spec_contains(cell) && self.spec_index_of(cell) == (
                    index.0 as int,
                    index.1 as int,
                )
            }),
    {
    }
}

} // verus!
