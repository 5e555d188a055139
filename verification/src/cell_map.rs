//! The many-layer cellular map itself.

use vstd::prelude::*;

use core::marker::PhantomData;

use crate::bounds::Bounds;
use crate::error::Error;
use crate::grid::Grid;
use crate::layer::Layer;

verus! {

/// Everything needed to build a [`CellMap`].
///
/// Only the bounds take part in the grid logic of this crate. The remaining
/// fields carry the continuous geometry of the map — how large a cell is in
/// the parent frame and how the grid is rotated and translated within it — as
/// IEEE-754 bit patterns. The crate stores and reproduces them exactly but
/// never interprets them; the embedding application converts them to and from
/// floating-point values when it maps parent-frame positions to cells.
#[derive(Clone, Copy, Debug, PartialEq, Eq)]
pub struct CellMapParams {
    /// The whole-cell coordinate range of the map.
    pub cell_bounds: Bounds,
    /// Bit patterns of the parent-frame size of one cell along `x` and `y`.
    pub cell_size: (u64, u64),
    /// Bit pattern of the precision used when a position lands exactly on a
    /// cell boundary, relative to the cell size.
    pub cell_boundary_precision: u64,
    /// Bit pattern of the angle rotating the parent frame into the map frame,
    /// in radians.
    pub rotation_in_parent_rad: u64,
    /// Bit patterns of the offset that carries the parent frame onto the map
    /// frame, in parent-frame units.
    pub position_in_parent: (u64, u64),
}

impl Default for CellMapParams {
    /// An empty map at the parent frame's origin: zero-size bounds, and every
    /// geometric bit pattern zero.
    fn default() -> (r: Self)
        ensures
            r.cell_bounds == (Bounds { x: (0, 0), y: (0, 0) }),
            r.cell_size == (0u64, 0u64),
            r.cell_boundary_precision == 0u64,
            r.rotation_in_parent_rad == 0u64,
            r.position_in_parent == (0u64, 0u64),
    {
        CellMapParams {
            cell_bounds: Bounds { x: (0, 0), y: (0, 0) },
            cell_size: (0, 0),
            cell_boundary_precision: 0,
            rotation_in_parent_rad: 0,
            position_in_parent: (0, 0),
        }
    }
}

/// Whether a grid supplied for one layer has exactly the shape the bounds ask
/// for.
pub open spec fn layer_shape_ok<T>(g: Grid<T>, b: Bounds) -> bool {
    g.nx() == b.size_x() && g.ny() == b.size_y()
}

/// A many-layer 2D map of cellular data: one dense [`Grid`] per layer of `L`,
/// all of the shape given by the bounds of its parameters.
#[derive(Debug)]
pub struct CellMap<L, T> {
    data: Vec<Grid<T>>,
    params: CellMapParams,
    layer_type: PhantomData<L>,
}

impl<L: Layer, T> CellMap<L, T> {
    /// The parameters the map was built from.
    pub closed spec fn spec_params(&self) -> CellMapParams {
        self.params
    }

    /// The bounds of the map.
    pub open spec fn spec_bounds(&self) -> Bounds {
        self.spec_params().cell_bounds
    }

    /// Number of cells along `x`.
    pub open spec fn size_x(&self) -> int {
        self.spec_bounds().size_x()
    }

    /// Number of cells along `y`.
    pub open spec fn size_y(&self) -> int {
        self.spec_bounds().size_y()
    }

    /// The map holds one well-formed grid of the right shape per layer.
    pub closed spec fn storage_wf(&self) -> bool {
        &&& L::spec_num_layers() >= 1
        &&& self.data.len() == L::spec_num_layers()
        &&& forall|l: int|
            0 <= l < self.data.len() ==> {
                &&& (#[trigger] self.data[l]).wf()
                &&& self.data[l].nx() == self.size_x()
                &&& self.data[l].ny() == self.size_y()
            }
    }

    /// A well-formed map: valid bounds and matching storage.
    pub open spec fn wf(&self) -> bool {
        self.spec_bounds().valid() && self.storage_wf()
    }

    /// The value stored for layer `l` at array index `(x, y)`.
    pub closed spec fn at(&self, l: int, x: int, y: int) -> T {
        self.data[l].at(x, y)
    }

    /// Whether `(x, y)` is an array index inside the shape of the map.
    pub open spec fn index_in_shape(&self, index: (usize, usize)) -> bool {
        index.0 < self.size_x() && index.1 < self.size_y()
    }

    /// The cell count of a well-formed map fits the machine word, since each
    /// layer's grid holds one element per cell.
    pub proof fn lemma_size_fits(&self)
        requires
            self.wf(),
        ensures
            self.size_x() * self.size_y() <= usize::MAX,
            L::spec_num_layers() >= 1,
    {
        assert(self.data[0].wf());
        self.data[0].lemma_size_fits();
    }

    /// The bit patterns of the parent-frame size of one cell.
    pub fn cell_size(&self) -> (r: (u64, u64))
        ensures
            r == self.spec_params().cell_size,
    {
        self.params.cell_size
    }

    /// The number of cells along each axis of the map.
    pub fn num_cells(&self) -> (r: (usize, usize))
        requires
            self.wf(),
        ensures
            r.0 == self.size_x(),
            r.1 == self.size_y(),
    {
        self.params.cell_bounds.size()
    }

    /// The bounds of the map.
    pub fn bounds(&self) -> (r: Bounds)
        ensures
            r == self.spec_bounds(),
    {
        self.params.cell_bounds
    }

    /// The parameters the map was built from.
    pub fn params(&self) -> (r: CellMapParams)
        ensures
            r == self.spec_params(),
    {
        self.params
    }

    /// The array index of the cell at whole-cell coordinate `cell`, or an
    /// error naming the coordinate when it lies outside the map.
    ///
    /// The embedding application turns a parent-frame position into a
    /// whole-cell coordinate and asks this map whether it holds that cell.
    pub fn index(&self, cell: (i32, i32)) -> (r: Result<(usize, usize), Error>)
        requires
            self.wf(),
        ensures
            self.spec_bounds().spec_contains(cell) ==> (r matches Ok(i)
                && self.index_in_shape(i) && (i.0 as int, i.1 as int)
                == self.spec_bounds().spec_index_of(cell)),
            !self.spec_bounds().spec_contains(cell) ==> r == Err::<(usize, usize), Error>(
                Error::PositionOutsideMap(cell),
            ),
    {
        match self.params.cell_bounds.index_of(cell) {
            Some(i) => Ok(i),
            None => Err(Error::PositionOutsideMap(cell)),
        }
    }

    /// The whole-cell coordinate of the cell at array index `index`, or an
    /// error naming the index when it lies outside the shape of the map.
    pub fn position(&self, index: (usize, usize)) -> (r: Result<(i32, i32), Error>)
        requires
            self.wf(),
        ensures
            self.index_in_shape(index) ==> (r matches Ok(c) && (c.0 as int, c.1 as int)
                == self.spec_bounds().spec_cell_of(index)),
            !self.index_in_shape(index) ==> r == Err::<(i32, i32), Error>(
                Error::IndexOutsideMap(index),
            ),
    {
        match self.params.cell_bounds.cell_of(index) {
            Some(c) => Ok(c),
            None => Err(Error::IndexOutsideMap(index)),
        }
    }
}

impl<L: Layer, T: Copy> CellMap<L, T> {
    /// Builds a map from `params`, filling every cell of every layer with
    /// `elem`; rejects invalid bounds.
    pub fn new_from_elem(params: CellMapParams, elem: T) -> (r: Result<Self, Error>)
        requires
            params.cell_bounds.size_x() * params.cell_bounds.size_y() <= usize::MAX,
        ensures
            !params.cell_bounds.valid() ==> r == Err::<Self, Error>(
                Error::InvalidBounds(params.cell_bounds),
            ),
            params.cell_bounds.valid() ==> (r matches Ok(m) && m.wf() && m.spec_params() == params
                && forall|l: int, x: int, y: int|
                0 <= l < L::spec_num_layers() && 0 <= x < m.size_x() && 0 <= y < m.size_y()
                    ==> #[trigger] m.at(l, x, y) == elem),
    {
        if !params.cell_bounds.is_valid() {
            return Err(Error::InvalidBounds(params.cell_bounds));
        }
        let (sx, sy) = params.cell_bounds.size();
        let n = L::num_layers();
        let mut data: Vec<Grid<T>> = Vec::new();
        while data.len() < n
            invariant
                sx == params.cell_bounds.size_x(),
                sy == params.cell_bounds.size_y(),
                sx * sy <= usize::MAX,
                data.len() <= n,
                forall|l: int|
                    0 <= l < data.len() ==> {
                        &&& (#[trigger] data[l]).wf()
                        &&& data[l].nx() == sx
                        &&& data[l].ny() == sy
                        &&& forall|x: int, y: int|
                            0 <= x < sx && 0 <= y < sy ==> #[trigger] data[l].at(x, y) == elem
                    },
            decreases n - data.len(),
        {
            data.push(Grid::from_elem(sx, sy, elem));
        }
        let m = CellMap { data, params, layer_type: PhantomData };
        Ok(m)
    }

    /// Builds a map from `params`, filling every cell of every layer with the
    /// value type's default; rejects invalid bounds.
    pub fn new(params: CellMapParams) -> (r: Result<Self, Error>) where T: Default
        requires
            params.cell_bounds.size_x() * params.cell_bounds.size_y() <= usize::MAX,
        ensures
            !params.cell_bounds.valid() ==> r == Err::<Self, Error>(
                Error::InvalidBounds(params.cell_bounds),
            ),
            params.cell_bounds.valid() ==> (r matches Ok(m) && m.wf() && m.spec_params() == params
                && exists|d: T|
                #[trigger] call_ensures(T::default, (), d) && forall|l: int, x: int, y: int|
                    0 <= l < L::spec_num_layers() && 0 <= x < m.size_x() && 0 <= y < m.size_y()
                        ==> #[trigger] m.at(l, x, y) == d),
    {
        let d = T::default();
        Self::new_from_elem(params, d)
    }

    /// Rebuilds a map from `params` and one grid per layer, in layer order;
    /// rejects invalid bounds, a wrong number of grids, and any grid whose
    /// shape differs from the one the bounds ask for. The layer errors name
    /// what was expected first and what was found second.
    pub fn new_from_data(params: CellMapParams, data: Vec<Grid<T>>) -> (r: Result<Self, Error>)
        requires
            forall|l: int| 0 <= l < data@.len() ==> (#[trigger] data@[l]).wf(),
        ensures
            !params.cell_bounds.valid() ==> r == Err::<Self, Error>(
                Error::InvalidBounds(params.cell_bounds),
            ),
            params.cell_bounds.valid() && data@.len() != L::spec_num_layers() ==> r == Err::<
                Self,
                Error,
            >(
                Error::WrongNumberOfLayers(
                    L::spec_num_layers() as usize,
                    data@.len() as usize,
                ),
            ),
            params.cell_bounds.valid() && data@.len() == L::spec_num_layers() && (forall|l: int|
                0 <= l < data@.len() ==> #[trigger] layer_shape_ok(data@[l], params.cell_bounds))
                ==> (r matches Ok(m) && m.wf() && m.spec_params() == params && forall|
                l: int,
                x: int,
                y: int,
            |
                0 <= l < L::spec_num_layers() && 0 <= x < m.size_x() && 0 <= y < m.size_y()
                    ==> #[trigger] m.at(l, x, y) == data@[l].at(x, y)),
            params.cell_bounds.valid() && data@.len() == L::spec_num_layers() && !(forall|l: int|
                0 <= l < data@.len() ==> #[trigger] layer_shape_ok(data@[l], params.cell_bounds))
                ==> (r matches Err(e) && e matches Error::LayerWrongShape(exp, got) && exp.0
                == params.cell_bounds.size_x() && exp.1 == params.cell_bounds.size_y() && exists|
                l: int,
            |
                0 <= l < data@.len() && !(#[trigger] layer_shape_ok(data@[l], params.cell_bounds))
                    && got.0 == data@[l].nx() && got.1 == data@[l].ny()),
    {
        if !params.cell_bounds.is_valid() {
            return Err(Error::InvalidBounds(params.cell_bounds));
        }
        let n = L::num_layers();
        if data.len() != n {
            return Err(Error::WrongNumberOfLayers(n, data.len()));
        }
        let (sx, sy) = params.cell_bounds.size();
        let mut l: usize = 0;
        while l < n
            invariant
                n == data@.len(),
                n == L::spec_num_layers(),
                params.cell_bounds.valid(),
                l <= n,
                sx == params.cell_bounds.size_x(),
                sy == params.cell_bounds.size_y(),
                forall|k: int|
                    0 <= k < l ==> #[trigger] layer_shape_ok(data@[k], params.cell_bounds),
            decreases n - l,
        {
            let shape = data[l].shape();
            if shape.0 != sx || shape.1 != sy {
                proof {
                    assert(!layer_shape_ok(data@[l as int], params.cell_bounds));
                }
                return Err(Error::LayerWrongShape((sx, sy), shape));
            }
            proof {
                assert(layer_shape_ok(data@[l as int], params.cell_bounds));
            }
            l = l + 1;
        }
        let ghost d0 = data@;
        let m = CellMap { data, params, layer_type: PhantomData };
        proof {
            assert forall|l: int| 0 <= l < m.data@.len() implies {
                &&& (#[trigger] m.data@[l]).wf()
                &&& m.data@[l].nx() == m.size_x()
                &&& m.data@[l].ny() == m.size_y()
            } by {
                assert(m.data@[l] == d0[l]);
                assert(d0[l].wf());
                assert(layer_shape_ok(d0[l], params.cell_bounds));
            }
        }
        Ok(m)
    }

    /// Reads the value for `layer` at array index `(x, y)`.
    pub fn get(&self, layer: L, index: (usize, usize)) -> (r: T)
        requires
            self.wf(),
            self.index_in_shape(index),
        ensures
            r == self.at(layer.spec_to_index(), index.0 as int, index.1 as int),
    {
        let li = layer.to_index();
        self.data[li].get(index.0, index.1)
    }

    /// Writes `value` for `layer` at array index `(x, y)`, leaving every other
    /// cell of every layer as it was.
    pub fn set(&mut self, layer: L, index: (usize, usize), value: T)
        requires
            old(self).wf(),
            old(self).index_in_shape(index),
        ensures
            final(self).wf(),
            final(self).spec_params() == old(self).spec_params(),
            final(self).at(layer.spec_to_index(), index.0 as int, index.1 as int) == value,
            forall|l: int, x: int, y: int|
                0 <= l < L::spec_num_layers() && 0 <= x < final(self).size_x() && 0 <= y
                    < final(self).size_y() && !(l == layer.spec_to_index() && x == index.0 && y
                    == index.1) ==> #[trigger] final(self).at(l, x, y) == old(self).at(l, x, y),
    {
        let li = layer.to_index();
        self.data[li].set(index.0, index.1, value);
    }

    /// Reads the value for the layer at position `layer_index` of the layer
    /// order, at array index `(x, y)`.
    pub fn get_at(&self, layer_index: usize, index: (usize, usize)) -> (r: T)
        requires
            self.wf(),
            layer_index < L::spec_num_layers(),
            self.index_in_shape(index),
        ensures
            r == self.at(layer_index as int, index.0 as int, index.1 as int),
    {
        self.data[layer_index].get(index.0, index.1)
    }

    /// Writes `value` for the layer at position `layer_index` of the layer
    /// order, at array index `(x, y)`, leaving every other cell as it was.
    pub fn set_at(&mut self, layer_index: usize, index: (usize, usize), value: T)
        requires
            old(self).wf(),
            layer_index < L::spec_num_layers(),
            old(self).index_in_shape(index),
        ensures
            final(self).wf(),
            final(self).spec_params() == old(self).spec_params(),
            final(self).at(layer_index as int, index.0 as int, index.1 as int) == value,
            forall|l: int, x: int, y: int|
                0 <= l < L::spec_num_layers() && 0 <= x < final(self).size_x() && 0 <= y
                    < final(self).size_y() && !(l == layer_index && x == index.0 && y == index.1)
                    ==> #[trigger] final(self).at(l, x, y) == old(self).at(l, x, y),
    {
        self.data[layer_index].set(index.0, index.1, value);
    }

    /// Copies the window of semi-extent `semi` centred on the cell at array
    /// index `centre` out of the layer at position `layer_index`.
    pub fn window_at(&self, layer_index: usize, centre: (usize, usize), semi: (usize, usize))
        -> (r: Grid<T>)
        requires
            self.wf(),
            layer_index < L::spec_num_layers(),
            semi.0 <= centre.0 && centre.0 + semi.0 < self.size_x(),
            semi.1 <= centre.1 && centre.1 + semi.1 < self.size_y(),
        ensures
            r.wf(),
            r.nx() == 2 * semi.0 + 1,
            r.ny() == 2 * semi.1 + 1,
            forall|i: int, j: int|
                0 <= i < r.nx() && 0 <= j < r.ny() ==> #[trigger] r.at(i, j) == self.at(
                    layer_index as int,
                    centre.0 - semi.0 + i,
                    centre.1 - semi.1 + j,
                ),
    {
        proof {
            self.lemma_size_fits();
        }
        self.data[layer_index].sub_grid(
            centre.0 - semi.0,
            centre.1 - semi.1,
            2 * semi.0 + 1,
            2 * semi.1 + 1,
        )
    }
}

} // verus!
