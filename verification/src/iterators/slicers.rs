//! Traversal strategies: each slicer walks a fixed tour of array indices
//! within one layer of a map.

use vstd::prelude::*;

verus! {

/// A cursor over a fixed tour of array indices.
///
/// A slicer visits the same tour of `(x, y)` array indices once per selected
/// layer of a map; the iteration pipeline drives it through the tour with
/// [`Slicer::advance`] and rewinds it with [`Slicer::reset`] when it moves to
/// the next layer. Implementors fix the tour at construction; nothing may
/// change it afterwards.
pub trait Slicer: Sized {
    /// The tour of array indices the slicer visits within one layer.
    spec fn tour(&self) -> Seq<(usize, usize)>;

    /// How far along the tour the cursor stands.
    spec fn cursor(&self) -> int;

    /// The slicer's internal consistency; every method keeps it.
    spec fn wf(&self) -> bool;

    /// The index under the cursor, or nothing when the tour is exhausted.
    fn current(&self) -> (r: Option<(usize, usize)>)
        requires
            self.wf(),
        ensures
            r == (if 0 <= self.cursor() < self.tour().len() {
                Some(self.tour()[self.cursor()])
            } else {
                None::<(usize, usize)>
            }),
    ;

    /// Moves the cursor one step along the tour.
    fn advance(&mut self)
        requires
            old(self).wf(),
            0 <= old(self).cursor() < old(self).tour().len(),
        ensures
            final(self).wf(),
            final(self).tour() == old(self).tour(),
            final(self).cursor() == old(self).cursor() + 1,
    ;

    /// Rewinds the cursor to the start of the tour. The pipeline passes the
    /// index of the layer it is moving to, or nothing when the traversal is
    /// over; only decorating slicers record it.
    fn reset(&mut self, layer: Option<usize>)
        requires
            old(self).wf(),
        ensures
            final(self).wf(),
            final(self).tour() == old(self).tour(),
            final(self).cursor() == 0,
    ;
}

/// The tour of a full `nx * ny` grid in row-major order: `x` varies fastest.
pub open spec fn rect_tour(nx: int, ny: int) -> Seq<(usize, usize)> {
    Seq::new((nx * ny) as nat, |k: int| ((k % nx) as usize, (k / nx) as usize))
}

/// Every index of a full-grid tour lies inside the grid.
pub proof fn lemma_rect_tour_in_shape(nx: int, ny: int)
    requires
        0 <= nx <= usize::MAX,
        0 <= ny <= usize::MAX,
    ensures
        forall|k: int|
            0 <= k < rect_tour(nx, ny).len() ==> ((#[trigger] rect_tour(nx, ny)[k]).0 < nx
                && rect_tour(nx, ny)[k].1 < ny),
{
    assert forall|k: int|
        0 <= k < rect_tour(nx, ny).len() implies ((#[trigger] rect_tour(nx, ny)[k]).0 < nx
        && rect_tour(nx, ny)[k].1 < ny) by {
        assert(0 <= k % nx < nx && 0 <= k / nx < ny) by (nonlinear_arith)
            requires
                0 <= k < nx * ny,
                0 <= nx,
                0 <= ny,
        ;
    }
}

/// Every centre of an interior tour keeps the full window inside the grid.
pub proof fn lemma_interior_tour_in_shape(nx: int, ny: int, semi_x: int, semi_y: int)
    requires
        0 <= semi_x,
        0 <= semi_y,
        2 * semi_x + 1 <= nx,
        2 * semi_y + 1 <= ny,
        nx <= usize::MAX,
        ny <= usize::MAX,
    ensures
        forall|k: int|
            0 <= k < interior_tour(nx, ny, semi_x, semi_y).len() ==> {
                let c = #[trigger] interior_tour(nx, ny, semi_x, semi_y)[k];
                semi_x <= c.0 && c.0 + semi_x < nx && semi_y <= c.1 && c.1 + semi_y < ny
            },
{
    let w = nx - 2 * semi_x;
    let h = ny - 2 * semi_y;
    assert forall|k: int| 0 <= k < interior_tour(nx, ny, semi_x, semi_y).len() implies {
        let c = #[trigger] interior_tour(nx, ny, semi_x, semi_y)[k];
        semi_x <= c.0 && c.0 + semi_x < nx && semi_y <= c.1 && c.1 + semi_y < ny
    } by {
        assert(0 <= k % w < w && 0 <= k / w < h) by (nonlinear_arith)
            requires
                0 <= k < w * h,
                0 < w,
                0 < h,
        ;
    }
}

/// Walks every cell of a `size_x * size_y` grid in row-major order.
pub struct Cells {
    size_x: usize,
    size_y: usize,
    k: usize,
}

impl Cells {
    /// Builds the slicer for a grid of the given shape, with the cursor at
    /// the first cell.
    pub fn new(size_x: usize, size_y: usize) -> (r: Self)
        requires
            size_x * size_y <= usize::MAX,
        ensures
            r.wf(),
            r.tour() == rect_tour(size_x as int, size_y as int),
            r.cursor() == 0,
    {
        Cells { size_x, size_y, k: 0 }
    }
}

impl Slicer for Cells {
    closed spec fn tour(&self) -> Seq<(usize, usize)> {
        rect_tour(self.size_x as int, self.size_y as int)
    }

    closed spec fn cursor(&self) -> int {
        self.k as int
    }

    closed spec fn wf(&self) -> bool {
        &&& (self.size_x as int) * (self.size_y as int) <= usize::MAX
        &&& self.k <= (self.size_x as int) * (self.size_y as int)
    }

    fn current(&self) -> (r: Option<(usize, usize)>) {
        let n: usize = self.size_x * self.size_y;
        if self.k < n {
            Some((self.k % self.size_x, self.k / self.size_x))
        } else {
            None
        }
    }

    fn advance(&mut self) {
        self.k = self.k + 1;
    }

    fn reset(&mut self, layer: Option<usize>) {
        self.k = 0;
    }
}

/// The tour of the interior of a grid left by a window of semi-extent
/// `(semi_x, semi_y)`: row-major over the centres the window can take.
pub open spec fn interior_tour(nx: int, ny: int, semi_x: int, semi_y: int) -> Seq<
    (usize, usize),
> {
    let w = nx - 2 * semi_x;
    let h = ny - 2 * semi_y;
    Seq::new((w * h) as nat, |k: int| ((semi_x + k % w) as usize, (semi_y + k / w) as usize))
}

/// Walks the centres of every window of semi-extent `(semi_x, semi_y)` that
/// fits a `size_x * size_y` grid, in row-major order.
pub struct Windows {
    size_x: usize,
    size_y: usize,
    semi_x: usize,
    semi_y: usize,
    k: usize,
}

impl Windows {
    /// The window's semi-extent along each axis.
    pub closed spec fn spec_semi(&self) -> (usize, usize) {
        (self.semi_x, self.semi_y)
    }

    /// Builds the slicer for a grid of the given shape, with the cursor at
    /// the first window centre. The window must fit the grid.
    pub fn new(size_x: usize, size_y: usize, semi_x: usize, semi_y: usize) -> (r: Self)
        requires
            size_x * size_y <= usize::MAX,
            2 * semi_x + 1 <= size_x,
            2 * semi_y + 1 <= size_y,
        ensures
            r.wf(),
            r.tour() == interior_tour(size_x as int, size_y as int, semi_x as int, semi_y as int),
            r.cursor() == 0,
            r.spec_semi() == (semi_x, semi_y),
    {
        proof {
            assert((size_x - 2 * semi_x) * (size_y - 2 * semi_y) <= (size_x as int) * (
            size_y as int)) by (nonlinear_arith)
                requires
                    2 * semi_x + 1 <= size_x,
                    2 * semi_y + 1 <= size_y,
            ;
        }
        Windows { size_x, size_y, semi_x, semi_y, k: 0 }
    }

    /// Returns the semi-extent of the window.
    pub fn semi(&self) -> (r: (usize, usize))
        ensures
            r == self.spec_semi(),
    {
        (self.semi_x, self.semi_y)
    }
}

impl Slicer for Windows {
    closed spec fn tour(&self) -> Seq<(usize, usize)> {
        interior_tour(self.size_x as int, self.size_y as int, self.semi_x as int,
            self.semi_y as int)
    }

    closed spec fn cursor(&self) -> int {
        self.k as int
    }

    closed spec fn wf(&self) -> bool {
        let w = self.size_x - 2 * (self.semi_x as int);
        let h = self.size_y - 2 * (self.semi_y as int);
        &&& 2 * (self.semi_x as int) + 1 <= self.size_x
        &&& 2 * (self.semi_y as int) + 1 <= self.size_y
        &&& w * h <= usize::MAX
        &&& self.k <= w * h
    }

    fn current(&self) -> (r: Option<(usize, usize)>) {
        let w: usize = self.size_x - 2 * self.semi_x;
        let h: usize = self.size_y - 2 * self.semi_y;
        let n: usize = w * h;
        if self.k < n {
            proof {
                assert((self.k as int) / (w as int) < h && self.semi_x + (self.k as int) % (
                w as int) < self.size_x && self.semi_y + (self.k as int) / (w as int)
                    < self.size_y) by (nonlinear_arith)
                    requires
                        0 < w,
                        0 < h,
                        self.k < w * h,
                        w == self.size_x - 2 * (self.semi_x as int),
                        h == self.size_y - 2 * (self.semi_y as int),
                ;
            }
            Some((self.semi_x + self.k % w, self.semi_y + self.k / w))
        } else {
            None
        }
    }

    fn advance(&mut self) {
        self.k = self.k + 1;
    }

    fn reset(&mut self, layer: Option<usize>) {
        self.k = 0;
    }
}

/// Walks a precomputed list of array indices, in the list's order.
pub struct Line {
    path: Vec<(usize, usize)>,
    k: usize,
}

impl Line {
    /// Builds the slicer over `path`, with the cursor at its first entry.
    pub fn new(path: Vec<(usize, usize)>) -> (r: Self)
        ensures
            r.wf(),
            r.tour() == path@,
            r.cursor() == 0,
    {
        Line { path, k: 0 }
    }
}

impl Slicer for Line {
    closed spec fn tour(&self) -> Seq<(usize, usize)> {
        self.path@
    }

    closed spec fn cursor(&self) -> int {
        self.k as int
    }

    closed spec fn wf(&self) -> bool {
        self.k <= self.path@.len()
    }

    fn current(&self) -> (r: Option<(usize, usize)>) {
        if self.k < self.path.len() {
            Some(self.path[self.k])
        } else {
            None
        }
    }

    fn advance(&mut self) {
        let n: usize = self.path.len();
        proof {
            assert(self.k < n);
        }
        self.k = self.k + 1;
    }

    fn reset(&mut self, layer: Option<usize>) {
        self.k = 0;
    }
}

} // verus!
