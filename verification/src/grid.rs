//! A dense two-dimensional array, stored row by row in a flat vector.

use vstd::prelude::*;

verus! {

/// Shows that the flat position of a cell lies inside a `nx * ny` grid.
pub(crate) proof fn lemma_flat_index_in_range(x: int, y: int, nx: int, ny: int)
    requires
        0 <= x < nx,
        0 <= y < ny,
    ensures
        0 <= y * nx + x < nx * ny,
{
    assert(0 <= y * nx + x < nx * ny) by (nonlinear_arith)
        requires
            0 <= x < nx,
            0 <= y < ny,
    ;
}

/// Shows that two distinct cells of a `nx`-wide grid have distinct flat
/// positions.
pub(crate) proof fn lemma_flat_index_injective(x1: int, y1: int, x2: int, y2: int, nx: int)
    requires
        0 <= x1 < nx,
        0 <= x2 < nx,
        0 <= y1,
        0 <= y2,
        y1 * nx + x1 == y2 * nx + x2,
    ensures
        x1 == x2 && y1 == y2,
{
    assert(x1 == x2 && y1 == y2) by (nonlinear_arith)
        requires
            0 <= x1 < nx,
            0 <= x2 < nx,
            0 <= y1,
            0 <= y2,
            y1 * nx + x1 == y2 * nx + x2,
    ;
}

/// The element of a flattened `w`-wide grid at column `a`, row `b`.
pub open spec fn flat_at<T>(s: Seq<T>, w: int, a: int, b: int) -> T {
    s[b * w + a]
}

/// A dense rectangular array of cells addressed by `(x, y)` with `x` counting
/// columns and `y` counting rows; rows are stored one after the other in a
/// flat vector.
#[derive(Clone, Debug, PartialEq, Eq)]
pub struct Grid<T> {
    data: Vec<T>,
    size_x: usize,
    size_y: usize,
}

impl<T> Grid<T> {
    /// The flat vector holds exactly one element per cell.
    pub closed spec fn wf(&self) -> bool {
        self.data.len() == (self.size_x as int) * (self.size_y as int)
    }

    /// Number of cells along `x` (columns).
    pub closed spec fn nx(&self) -> int {
        self.size_x as int
    }

    /// Number of cells along `y` (rows).
    pub closed spec fn ny(&self) -> int {
        self.size_y as int
    }

    /// The value stored at column `x`, row `y`.
    pub closed spec fn at(&self, x: int, y: int) -> T {
        self.data[y * self.nx() + x]
    }

    /// The cell count of a well-formed grid fits the machine word, since the
    /// flat vector holds one element per cell.
    pub proof fn lemma_size_fits(&self)
        requires
            self.wf(),
        ensures
            self.nx() * self.ny() <= usize::MAX,
    {
    }

    /// The number of cells along each axis.
    pub fn shape(&self) -> (r: (usize, usize))
        ensures
            r.0 == self.nx(),
            r.1 == self.ny(),
    {
        (self.size_x, self.size_y)
    }

    /// The total number of cells.
    pub fn len(&self) -> (r: usize)
        requires
            self.wf(),
        ensures
            r == self.nx() * self.ny(),
    {
        self.data.len()
    }
}

impl<T> Grid<T> {
    /// Builds a `size_x * size_y` grid over `data`, which holds the cells row
    /// by row (the row of `y == 0` first, `x` varying within a row); rejects
    /// data whose length is not exactly one element per cell.
    pub fn from_flat(size_x: usize, size_y: usize, data: Vec<T>) -> (r: Option<Self>)
        ensures
            data@.len() == (size_x as int) * (size_y as int) ==> (r matches Some(g) && g.wf()
                && g.nx() == size_x && g.ny() == size_y && forall|x: int, y: int|
                0 <= x < size_x && 0 <= y < size_y ==> #[trigger] g.at(x, y) == flat_at(
                    data@,
                    size_x as int,
                    x,
                    y,
                )),
            data@.len() != (size_x as int) * (size_y as int) ==> r is None,
    {
        proof {
            assert((size_x as int) * (size_y as int) <= u128::MAX) by (nonlinear_arith)
                requires
                    0 <= size_x <= u64::MAX,
                    0 <= size_y <= u64::MAX,
            ;
        }
        let n: u128 = (size_x as u128) * (size_y as u128);
        if (data.len() as u128) == n {
            Some(Grid { data, size_x, size_y })
        } else {
            None
        }
    }
}

impl<T: Copy> Grid<T> {
    /// Builds a `size_x * size_y` grid with every cell set to `elem`.
    pub fn from_elem(size_x: usize, size_y: usize, elem: T) -> (r: Self)
        requires
            size_x * size_y <= usize::MAX,
        ensures
            r.wf(),
            r.nx() == size_x,
            r.ny() == size_y,
            forall|x: int, y: int|
                0 <= x < size_x && 0 <= y < size_y ==> #[trigger] r.at(x, y) == elem,
    {
        let n: usize = size_x * size_y;
        let mut data: Vec<T> = Vec::new();
        while data.len() < n
            invariant
                data.len() <= n,
                forall|i: int| 0 <= i < data.len() ==> data[i] == elem,
            decreases n - data.len(),
        {
            data.push(elem);
        }
        let r = Grid { data, size_x, size_y };
        proof {
            assert forall|x: int, y: int|
                0 <= x < size_x && 0 <= y < size_y implies #[trigger] r.at(x, y) == elem by {
                lemma_flat_index_in_range(x, y, size_x as int, size_y as int);
            }
        }
        r
    }

    /// Reads the cell at column `x`, row `y`.
    pub fn get(&self, x: usize, y: usize) -> (r: T)
        requires
            self.wf(),
            x < self.nx(),
            y < self.ny(),
        ensures
            r == self.at(x as int, y as int),
    {
        proof {
            lemma_flat_index_in_range(x as int, y as int, self.nx(), self.ny());
        }
        let k: usize = y * self.size_x + x;
        self.data[k]
    }

    /// Writes `value` to the cell at column `x`, row `y`, leaving every other
    /// cell as it was.
    pub fn set(&mut self, x: usize, y: usize, value: T)
        requires
            old(self).wf(),
            x < old(self).nx(),
            y < old(self).ny(),
        ensures
            final(self).wf(),
            final(self).nx() == old(self).nx(),
            final(self).ny() == old(self).ny(),
            final(self).at(x as int, y as int) == value,
            forall|i: int, j: int|
                0 <= i < final(self).nx() && 0 <= j < final(self).ny() && !(i == x && j == y)
                    ==> #[trigger] final(self).at(i, j) == old(self).at(i, j),
    {
        proof {
            lemma_flat_index_in_range(x as int, y as int, self.nx(), self.ny());
        }
        let k: usize = y * self.size_x + x;
        self.data[k] = value;
        proof {
            assert forall|i: int, j: int|
                0 <= i < self.nx() && 0 <= j < self.ny() && !(i == x && j == y) implies #[trigger] self
                .at(i, j) == old(self).at(i, j) by {
                lemma_flat_index_in_range(i, j, self.nx(), self.ny());
                if j * self.nx() + i == (y as int) * self.nx() + (x as int) {
                    lemma_flat_index_injective(i, j, x as int, y as int, self.nx());
                }
            }
        }
    }

    /// Copies the `w * h` rectangle whose lowest corner is `(x0, y0)` out of
    /// the grid.
    pub fn sub_grid(&self, x0: usize, y0: usize, w: usize, h: usize) -> (r: Self)
        requires
            self.wf(),
            x0 + w <= self.nx(),
            y0 + h <= self.ny(),
        ensures
            r.wf(),
            r.nx() == w,
            r.ny() == h,
            forall|i: int, j: int|
                0 <= i < w && 0 <= j < h ==> #[trigger] r.at(i, j) == self.at(x0 + i, y0 + j),
    {
        let mut data: Vec<T> = Vec::new();
        let mut j: usize = 0;
        while j < h
            invariant
                self.wf(),
                x0 + w <= self.nx(),
                y0 + h <= self.ny(),
                j <= h,
                data.len() == j * w,
                forall|a: int, b: int|
                    0 <= a < w && 0 <= b < j ==> #[trigger] flat_at(data@, w as int, a, b)
                        == self.at(x0 + a, y0 + b),
            decreases h - j,
        {
            let mut i: usize = 0;
            while i < w
                invariant
                    self.wf(),
                    x0 + w <= self.nx(),
                    y0 + h <= self.ny(),
                    j < h,
                    i <= w,
                    data.len() == j * w + i,
                    forall|a: int, b: int|
                        0 <= a < w && 0 <= b < j ==> #[trigger] flat_at(data@, w as int, a, b)
                            == self.at(x0 + a, y0 + b),
                    forall|a: int|
                        0 <= a < i ==> #[trigger] flat_at(data@, w as int, a, j as int) == self.at(
                            x0 + a,
                            y0 + (j as int),
                        ),
                decreases w - i,
            {
                let ghost prev = data@;
                data.push(self.get(x0 + i, y0 + j));
                i = i + 1;
                proof {
                    assert forall|a: int, b: int|
                        0 <= a < w && 0 <= b < j implies #[trigger] flat_at(data@, w as int, a, b)
                        == self.at(x0 + a, y0 + b) by {
                        assert(0 <= b * (w as int) + a < prev.len()) by (nonlinear_arith)
                            requires
                                0 <= a < w,
                                0 <= b < j,
                                prev.len() == (j as int) * (w as int) + (i - 1),
                                1 <= i,
                        ;
                        assert(flat_at(prev, w as int, a, b) == self.at(x0 + a, y0 + b));
                    }
                    assert forall|a: int|
                        0 <= a < i implies #[trigger] flat_at(data@, w as int, a, j as int)
                        == self.at(x0 + a, y0 + (j as int)) by {
                        if a < i - 1 {
                            assert(flat_at(prev, w as int, a, j as int) == self.at(
                                x0 + a,
                                y0 + (j as int),
                            ));
                        } else {
                            assert((j as int) * (w as int) + a == prev.len());
                        }
                    }
                }
            }
            j = j + 1;
            proof {
                assert((j as int) * (w as int) == (j - 1) * (w as int) + (w as int))
                    by (nonlinear_arith);
                assert forall|a: int, b: int|
                    0 <= a < w && 0 <= b < j implies #[trigger] flat_at(data@, w as int, a, b)
                    == self.at(x0 + a, y0 + b) by {
                    if b + 1 < j {
                        assert(flat_at(data@, w as int, a, b) == self.at(x0 + a, y0 + b));
                    } else {
                        assert(flat_at(data@, w as int, a, j - 1) == self.at(x0 + a, y0 + j - 1));
                    }
                }
            }
        }
        proof {
            assert(data@.len() == (w as int) * (h as int)) by (nonlinear_arith)
                requires
                    data@.len() == (h as int) * (w as int),
            ;
        }
        let r = Grid { data, size_x: w, size_y: h };
        proof {
            assert forall|i: int, j2: int|
                0 <= i < w && 0 <= j2 < h implies #[trigger] r.at(i, j2) == self.at(
                x0 + i,
                y0 + j2,
            ) by {
                assert(r.at(i, j2) == flat_at(data@, w as int, i, j2));
            }
        }
        r
    }
}

} // verus!
