//! The iteration pipeline: slicers walk one layer's grid, the layered cursor
//! repeats a slicer's tour once per selected layer, and the map-level
//! iterators turn the visited positions into values.

pub mod indexed;
pub mod slicers;

use vstd::arithmetic::div_mod::lemma_fundamental_div_mod_converse_div;
use vstd::arithmetic::div_mod::lemma_fundamental_div_mod_converse_mod;
use vstd::prelude::*;

use core::marker::PhantomData;

use crate::cell_map::CellMap;
use crate::error::Error;
use crate::grid::Grid;
use crate::iterators::indexed::Indexed;
use crate::iterators::slicers::interior_tour;
use crate::iterators::slicers::lemma_interior_tour_in_shape;
use crate::iterators::slicers::lemma_rect_tour_in_shape;
use crate::iterators::slicers::rect_tour;
use crate::iterators::slicers::Cells;
use crate::iterators::slicers::Line;
use crate::iterators::slicers::Slicer;
use crate::iterators::slicers::Windows;
use crate::layer::Layer;
use crate::line::lemma_line_seq_props;
use crate::line::line_path;
use crate::line::line_seq;
use crate::line::path_matches;

verus! {

/// Whether a window of semi-extent `semi` fits a `nx * ny` grid: its full
/// extent `2 * semi + 1` may not exceed the grid on either axis.
pub open spec fn spec_window_fits(nx: int, ny: int, semi: (usize, usize)) -> bool {
    2 * semi.0 + 1 <= nx && 2 * semi.1 + 1 <= ny
}

/// Whether `(x, y)` is a cell a window of semi-extent `semi` can be centred
/// on without leaving a `nx * ny` grid.
pub open spec fn in_window_interior(nx: int, ny: int, semi: (usize, usize), x: int, y: int) -> bool {
    semi.0 <= x && x + semi.0 < nx && semi.1 <= y && y + semi.1 < ny
}

/// The position of the window centre `(x, y)` in the row-major tour of a
/// `nx * ny` grid's interior.
spec fn centre_pos(semi: (usize, usize), w: int, x: int, y: int) -> int {
    (y - semi.1) * w + (x - semi.0)
}

/// The shared traversal engine: drives one slicer across an ordered list of
/// layer indices, finishing the whole tour on one layer before moving to the
/// next.
pub struct LayeredCursor<S> {
    pub(crate) slicer: S,
    pub(crate) layers: Vec<usize>,
    pub(crate) layer_pos: usize,
}

impl<S: Slicer> LayeredCursor<S> {
    /// The selected layer indices, in visiting order.
    pub closed spec fn spec_layers(&self) -> Seq<usize> {
        self.layers@
    }

    /// The tour of array indices visited within each selected layer.
    pub closed spec fn tour(&self) -> Seq<(usize, usize)> {
        self.slicer.tour()
    }

    /// The full sequence of `(layer, index)` pairs the cursor yields: the
    /// tour repeated once per selected layer, layer-major.
    pub open spec fn items(&self) -> Seq<(usize, (usize, usize))> {
        Seq::new(
            self.spec_layers().len() * self.tour().len(),
            |k: int|
                (
                    self.spec_layers()[k / (self.tour().len() as int)],
                    self.tour()[k % (self.tour().len() as int)],
                ),
        )
    }

    /// How many items the cursor has already yielded.
    pub closed spec fn at_pos(&self) -> int {
        self.layer_pos * self.tour().len() + self.slicer.cursor()
    }

    /// The cursor's internal consistency; every method keeps it.
    pub closed spec fn wf(&self) -> bool {
        &&& self.slicer.wf()
        &&& self.layer_pos <= self.layers@.len()
        &&& if self.tour().len() == 0 {
            self.layer_pos == self.layers@.len() && self.slicer.cursor() == 0
        } else if self.layer_pos < self.layers@.len() {
            0 <= self.slicer.cursor() < self.tour().len()
        } else {
            self.slicer.cursor() == 0
        }
        &&& 0 <= self.at_pos() <= self.items().len()
    }

    /// The item at a valid position `k` pairs one selected layer with one
    /// tour index.
    pub proof fn lemma_item(&self, k: int)
        requires
            0 <= k < self.items().len(),
        ensures
            ({
                let tl = self.tour().len() as int;
                &&& 0 < tl
                &&& 0 <= k / tl < self.spec_layers().len()
                &&& 0 <= k % tl < tl
                &&& self.items()[k] == (self.spec_layers()[k / tl], self.tour()[k % tl])
            }),
    {
        let ll = self.spec_layers().len() as int;
        let tl = self.tour().len() as int;
        assert(0 < tl && 0 <= k / tl < ll && 0 <= k % tl < tl) by (nonlinear_arith)
            requires
                0 <= k < ll * tl,
                0 <= ll,
                0 <= tl,
        ;
    }

    /// Builds the cursor over `layers`, rewound to the start.
    pub fn new(slicer: S, layers: Vec<usize>) -> (r: Self)
        requires
            slicer.wf(),
        ensures
            r.wf(),
            r.tour() == slicer.tour(),
            r.spec_layers() == layers@,
            r.at_pos() == 0,
    {
        let mut slicer = slicer;
        if layers.len() > 0 {
            let l0 = layers[0];
            slicer.reset(Some(l0));
        } else {
            slicer.reset(None);
        }
        let mut r = LayeredCursor { slicer, layers, layer_pos: 0 };
        if r.slicer.current().is_none() {
            r.layer_pos = r.layers.len();
        }
        proof {
            let ll = r.spec_layers().len() as int;
            let tl = r.tour().len() as int;
            assert(r.at_pos() == 0 && r.at_pos() <= r.items().len()) by (nonlinear_arith)
                requires
                    0 <= ll,
                    0 <= tl,
                    r.at_pos() == (r.layer_pos as int) * tl + 0,
                    r.items().len() == ll * tl,
                    tl == 0 ==> r.layer_pos == ll,
                    tl > 0 ==> r.layer_pos == 0,
                    r.slicer.cursor() == 0,
            ;
        }
        r
    }

    /// Yields the layer and array index under the cursor and moves past
    /// them, or yields nothing once every selected layer's tour is done.
    pub fn next_index(&mut self) -> (r: Option<(usize, (usize, usize))>)
        requires
            old(self).wf(),
        ensures
            final(self).wf(),
            final(self).tour() == old(self).tour(),
            final(self).spec_layers() == old(self).spec_layers(),
            final(self).items() == old(self).items(),
            old(self).at_pos() < old(self).items().len() ==> ({
                &&& r == Some(old(self).items()[old(self).at_pos()])
                &&& final(self).at_pos() == old(self).at_pos() + 1
            }),
            old(self).at_pos() >= old(self).items().len() ==> r
                == None::<(usize, (usize, usize))> && final(self).at_pos() == old(self).at_pos(),
    {
        let ghost pre = *self;
        if self.layer_pos >= self.layers.len() {
            proof {
                let ll = pre.spec_layers().len() as int;
                let tl = pre.tour().len() as int;
                assert(pre.at_pos() == ll * tl) by (nonlinear_arith)
                    requires
                        pre.at_pos() == ll * tl + pre.slicer.cursor(),
                        pre.slicer.cursor() == 0,
                ;
            }
            return None;
        }
        let layer = self.layers[self.layer_pos];
        let idx = match self.slicer.current() {
            Some(i) => i,
            None => unreached(),
        };
        self.slicer.advance();
        let rolled = self.slicer.current().is_none();
        if rolled {
            self.layer_pos = self.layer_pos + 1;
            if self.layer_pos < self.layers.len() {
                let nl = self.layers[self.layer_pos];
                self.slicer.reset(Some(nl));
            } else {
                self.slicer.reset(None);
            }
        }
        proof {
            let ll = pre.spec_layers().len() as int;
            let tl = pre.tour().len() as int;
            let lp = pre.layer_pos as int;
            let c = pre.slicer.cursor();
            let k0 = pre.at_pos();
            assert(0 < tl && 0 <= c < tl);
            lemma_fundamental_div_mod_converse_div(k0, tl, lp, c);
            lemma_fundamental_div_mod_converse_mod(k0, tl, lp, c);
            assert(k0 < ll * tl) by (nonlinear_arith)
                requires
                    k0 == lp * tl + c,
                    lp + 1 <= ll,
                    0 <= c < tl,
                    0 <= lp,
            ;
            assert(pre.items()[k0] == (layer, idx));
            if rolled {
                assert((lp + 1) * tl == lp * tl + tl) by (nonlinear_arith);
                assert(self.at_pos() == k0 + 1);
            }
            assert(self.items() =~= pre.items());
            assert(self.at_pos() <= self.items().len());
        }
        Some((layer, idx))
    }

    /// Counts the items the cursor has still to yield, consuming it.
    pub fn count(self) -> (r: usize)
        requires
            self.wf(),
            self.items().len() - self.at_pos() <= usize::MAX,
        ensures
            r == self.items().len() - self.at_pos(),
    {
        let ghost orig = self;
        let mut it = self;
        let mut c: usize = 0;
        loop
            invariant
                it.wf(),
                it.items() == orig.items(),
                orig.at_pos() <= it.at_pos() <= it.items().len(),
                c == it.at_pos() - orig.at_pos(),
                orig.items().len() - orig.at_pos() <= usize::MAX,
            ensures
                c == orig.items().len() - orig.at_pos(),
            decreases it.items().len() - it.at_pos(),
        {
            match it.next_index() {
                Some(_) => {
                    c = c + 1;
                },
                None => {
                    break ;
                },
            }
        }
        c
    }
}

/// The indices of every layer of the set, in order.
fn all_layers<L: Layer>() -> (r: Vec<usize>)
    ensures
        r@.len() == L::spec_num_layers(),
        forall|i: int| 0 <= i < r@.len() ==> #[trigger] r@[i] == i,
{
    let n = L::num_layers();
    let mut v: Vec<usize> = Vec::new();
    let mut i: usize = 0;
    while i < n
        invariant
            i <= n,
            v@.len() == i,
            forall|j: int| 0 <= j < i ==> #[trigger] v@[j] == j,
        decreases n - i,
    {
        v.push(i);
        i = i + 1;
    }
    v
}

/// A read-only iterator over the cells of a map, driven by the slicer `S`
/// across the selected layers in layer-major order.
pub struct CellMapIter<'a, L: Layer, T, S> {
    pub(crate) map: &'a CellMap<L, T>,
    pub(crate) core: LayeredCursor<S>,
}

impl<'a, L: Layer, T, S: Slicer> CellMapIter<'a, L, T, S> {
    /// The map being iterated.
    pub closed spec fn spec_map(&self) -> CellMap<L, T> {
        *self.map
    }

    /// The tour of array indices visited within each selected layer.
    pub closed spec fn tour(&self) -> Seq<(usize, usize)> {
        self.core.tour()
    }

    /// The selected layer indices, in visiting order.
    pub closed spec fn spec_layers(&self) -> Seq<usize> {
        self.core.spec_layers()
    }

    /// The full sequence of `(layer, index)` pairs the iterator visits.
    pub closed spec fn items(&self) -> Seq<(usize, (usize, usize))> {
        self.core.items()
    }

    /// How many items the iterator has already yielded.
    pub closed spec fn at_pos(&self) -> int {
        self.core.at_pos()
    }

    /// The iterator's internal consistency: the cursor is sound, every
    /// selected layer exists, and every tour index lies inside the map.
    pub closed spec fn wf(&self) -> bool {
        &&& self.core.wf()
        &&& self.spec_map().wf()
        &&& forall|i: int|
            0 <= i < self.core.spec_layers().len() ==> (#[trigger] self.core.spec_layers()[i])
                < L::spec_num_layers()
        &&& forall|k: int|
            0 <= k < self.core.tour().len() ==> ((#[trigger] self.core.tour()[k]).0
                < self.spec_map().size_x() && self.core.tour()[k].1 < self.spec_map().size_y())
    }

    /// The iterator visits one item per selected layer and tour index.
    pub proof fn lemma_items_len(&self)
        ensures
            self.items().len() == self.spec_layers().len() * self.tour().len(),
    {
    }

    /// The item at a valid position `k` pairs one selected layer with one
    /// tour index: position `k` visits layer `k / tour().len()` of the
    /// selection at tour index `k % tour().len()`.
    pub proof fn lemma_item(&self, k: int)
        requires
            0 <= k < self.items().len(),
        ensures
            ({
                let tl = self.tour().len() as int;
                &&& 0 < tl
                &&& 0 <= k / tl < self.spec_layers().len()
                &&& 0 <= k % tl < tl
                &&& self.items()[k] == (self.spec_layers()[k / tl], self.tour()[k % tl])
            }),
    {
        self.core.lemma_item(k);
    }

    /// Each item pairs a valid layer with an array index inside the map.
    pub proof fn lemma_item_bounds(&self, k: int)
        requires
            self.wf(),
            0 <= k < self.items().len(),
        ensures
            ({
                let it = self.items()[k];
                &&& it.0 < L::spec_num_layers()
                &&& it.1.0 < self.spec_map().size_x()
                &&& it.1.1 < self.spec_map().size_y()
            }),
    {
        self.core.lemma_item(k);
    }

    /// Yields the layer index and array index under the cursor and moves
    /// past them, or yields nothing once the traversal is over.
    pub fn next_index(&mut self) -> (r: Option<(usize, (usize, usize))>)
        requires
            old(self).wf(),
        ensures
            final(self).wf(),
            final(self).spec_map() == old(self).spec_map(),
            final(self).tour() == old(self).tour(),
            final(self).spec_layers() == old(self).spec_layers(),
            final(self).items() == old(self).items(),
            old(self).at_pos() < old(self).items().len() ==> ({
                &&& r == Some(old(self).items()[old(self).at_pos()])
                &&& final(self).at_pos() == old(self).at_pos() + 1
            }),
            old(self).at_pos() >= old(self).items().len() ==> r == None::<(usize, (usize, usize))>
                && final(self).at_pos() == old(self).at_pos(),
    {
        self.core.next_index()
    }

    /// Counts the items the iterator has still to yield, consuming it.
    pub fn count(self) -> (r: usize)
        requires
            self.wf(),
            self.items().len() - self.at_pos() <= usize::MAX,
        ensures
            r == self.items().len() - self.at_pos(),
    {
        self.core.count()
    }

    /// Restricts the iteration to the single layer `layer` and rewinds it.
    pub fn layer(self, layer: L) -> (r: Self)
        requires
            self.wf(),
        ensures
            r.wf(),
            r.spec_map() == self.spec_map(),
            r.tour() == self.tour(),
            r.spec_layers().len() == 1,
            r.spec_layers()[0] == layer.spec_to_index(),
            r.items().len() == r.tour().len(),
            r.at_pos() == 0,
    {
        let li = layer.to_index();
        let mut ls: Vec<usize> = Vec::new();
        ls.push(li);
        let CellMapIter { map, core } = self;
        let LayeredCursor { slicer, layers: _, layer_pos: _ } = core;
        let r = CellMapIter { map, core: LayeredCursor::new(slicer, ls) };
        proof {
            assert(r.items().len() == r.tour().len()) by (nonlinear_arith)
                requires
                    r.items().len() == r.spec_layers().len() * r.tour().len(),
                    r.spec_layers().len() == 1,
            ;
        }
        r
    }

    /// Restricts the iteration to the given layers, in their order, and
    /// rewinds it.
    pub fn layers(self, layers: &[L]) -> (r: Self)
        requires
            self.wf(),
        ensures
            r.wf(),
            r.spec_map() == self.spec_map(),
            r.tour() == self.tour(),
            r.spec_layers().len() == layers@.len(),
            forall|i: int|
                0 <= i < layers@.len() ==> #[trigger] r.spec_layers()[i]
                    == layers@[i].spec_to_index(),
            r.items().len() == layers@.len() * r.tour().len(),
            r.at_pos() == 0,
    {
        let mut ls: Vec<usize> = Vec::new();
        let mut i: usize = 0;
        while i < layers.len()
            invariant
                i <= layers@.len(),
                ls@.len() == i,
                forall|j: int|
                    0 <= j < i ==> #[trigger] ls@[j] == layers@[j].spec_to_index() && ls@[j]
                        < L::spec_num_layers(),
            decreases layers@.len() - i,
        {
            let li = layers[i].to_index();
            ls.push(li);
            i = i + 1;
        }
        let CellMapIter { map, core } = self;
        let LayeredCursor { slicer, layers: _, layer_pos: _ } = core;
        CellMapIter { map, core: LayeredCursor::new(slicer, ls) }
    }

    /// Decorates the iteration so that every yielded item carries its layer
    /// and array index, without changing the traversal.
    pub fn indexed(self) -> (r: CellMapIter<'a, L, T, Indexed<S>>)
        requires
            self.wf(),
        ensures
            r.wf(),
            r.spec_map() == self.spec_map(),
            r.tour() == self.tour(),
            r.spec_layers() == self.spec_layers(),
            r.items() == self.items(),
            r.at_pos() == self.at_pos(),
    {
        let ghost pre = self;
        let CellMapIter { map, core } = self;
        let LayeredCursor { slicer, layers, layer_pos } = core;
        let cur: usize = if layer_pos < layers.len() {
            layers[layer_pos]
        } else {
            0
        };
        let ind = Indexed::new(slicer, cur);
        let r = CellMapIter { map, core: LayeredCursor { slicer: ind, layers, layer_pos } };
        proof {
            assert(r.items() =~= pre.items());
        }
        r
    }
}

impl<'a, L: Layer, T: Copy> CellMapIter<'a, L, T, Cells> {
    /// Yields the value of the cell under the cursor and moves past it.
    pub fn next(&mut self) -> (r: Option<T>)
        requires
            old(self).wf(),
        ensures
            final(self).wf(),
            final(self).spec_map() == old(self).spec_map(),
            final(self).tour() == old(self).tour(),
            final(self).spec_layers() == old(self).spec_layers(),
            final(self).items() == old(self).items(),
            old(self).at_pos() < old(self).items().len() ==> ({
                let it = old(self).items()[old(self).at_pos()];
                &&& r == Some(
                    old(self).spec_map().at(it.0 as int, it.1.0 as int, it.1.1 as int),
                )
                &&& final(self).at_pos() == old(self).at_pos() + 1
            }),
            old(self).at_pos() >= old(self).items().len() ==> r == None::<T> && final(self).at_pos() == old(self).at_pos(),
    {
        let ghost pre = *self;
        match self.next_index() {
            Some((l, idx)) => {
                proof {
                    pre.lemma_item_bounds(pre.at_pos());
                }
                Some(self.map.get_at(l, idx))
            },
            None => None,
        }
    }
}

impl<'a, L: Layer, T: Copy> CellMapIter<'a, L, T, crate::iterators::slicers::Line> {
    /// Yields the value of the cell under the cursor and moves past it.
    pub fn next(&mut self) -> (r: Option<T>)
        requires
            old(self).wf(),
        ensures
            final(self).wf(),
            final(self).spec_map() == old(self).spec_map(),
            final(self).tour() == old(self).tour(),
            final(self).spec_layers() == old(self).spec_layers(),
            final(self).items() == old(self).items(),
            old(self).at_pos() < old(self).items().len() ==> ({
                let it = old(self).items()[old(self).at_pos()];
                &&& r == Some(
                    old(self).spec_map().at(it.0 as int, it.1.0 as int, it.1.1 as int),
                )
                &&& final(self).at_pos() == old(self).at_pos() + 1
            }),
            old(self).at_pos() >= old(self).items().len() ==> r == None::<T> && final(self).at_pos() == old(self).at_pos(),
    {
        let ghost pre = *self;
        match self.next_index() {
            Some((l, idx)) => {
                proof {
                    pre.lemma_item_bounds(pre.at_pos());
                }
                Some(self.map.get_at(l, idx))
            },
            None => None,
        }
    }
}

impl<'a, L: Layer, T: Copy, S: Slicer> CellMapIter<'a, L, T, Indexed<S>> {
    /// Yields the layer, array index and value of the cell under the cursor
    /// and moves past them.
    pub fn next_indexed(&mut self) -> (r: Option<((L, (usize, usize)), T)>)
        requires
            old(self).wf(),
        ensures
            final(self).wf(),
            final(self).spec_map() == old(self).spec_map(),
            final(self).tour() == old(self).tour(),
            final(self).spec_layers() == old(self).spec_layers(),
            final(self).items() == old(self).items(),
            old(self).at_pos() < old(self).items().len() ==> ({
                let it = old(self).items()[old(self).at_pos()];
                &&& r matches Some(((lv, idx), v)) && lv.spec_to_index() == it.0 && idx == it.1
                    && v == old(self).spec_map().at(it.0 as int, it.1.0 as int, it.1.1 as int)
                &&& final(self).at_pos() == old(self).at_pos() + 1
            }),
            old(self).at_pos() >= old(self).items().len() ==> r == None::<
                ((L, (usize, usize)), T),
            > && final(self).at_pos() == old(self).at_pos(),
    {
        let ghost pre = *self;
        match self.next_index() {
            Some((l, idx)) => {
                proof {
                    pre.lemma_item_bounds(pre.at_pos());
                }
                let lv = L::from_index(l);
                let v = self.map.get_at(l, idx);
                Some(((lv, idx), v))
            },
            None => None,
        }
    }
}

/// A read-only iterator over the windows of a map: the slicer walks the
/// window centres, and each yielded item is a copy of the window around one
/// centre.
pub struct WindowIter<'a, L: Layer, T, S> {
    pub(crate) inner: CellMapIter<'a, L, T, S>,
    pub(crate) semi: (usize, usize),
}

impl<'a, L: Layer, T, S: Slicer> WindowIter<'a, L, T, S> {
    /// The window's semi-extent along each axis.
    pub closed spec fn spec_semi(&self) -> (usize, usize) {
        self.semi
    }

    /// The map being iterated.
    pub closed spec fn spec_map(&self) -> CellMap<L, T> {
        self.inner.spec_map()
    }

    /// The tour of window centres visited within each selected layer.
    pub closed spec fn tour(&self) -> Seq<(usize, usize)> {
        self.inner.tour()
    }

    /// The selected layer indices, in visiting order.
    pub closed spec fn spec_layers(&self) -> Seq<usize> {
        self.inner.spec_layers()
    }

    /// The full sequence of `(layer, centre)` pairs the iterator visits.
    pub closed spec fn items(&self) -> Seq<(usize, (usize, usize))> {
        self.inner.items()
    }

    /// How many items the iterator has already yielded.
    pub closed spec fn at_pos(&self) -> int {
        self.inner.at_pos()
    }

    /// The iterator's internal consistency: the window fits the map and the
    /// tour walks exactly the interior the window leaves.
    pub closed spec fn wf(&self) -> bool {
        &&& self.inner.wf()
        &&& spec_window_fits(self.spec_map().size_x(), self.spec_map().size_y(), self.semi)
        &&& self.tour() == interior_tour(
            self.spec_map().size_x(),
            self.spec_map().size_y(),
            self.semi.0 as int,
            self.semi.1 as int,
        )
    }

    /// The window's semi-extent along each axis.
    pub fn semi(&self) -> (r: (usize, usize))
        ensures
            r == self.spec_semi(),
    {
        self.semi
    }

    /// The iterator visits one item per selected layer and tour index.
    pub proof fn lemma_items_len(&self)
        ensures
            self.items().len() == self.spec_layers().len() * self.tour().len(),
    {
    }

    /// The item at a valid position `k` pairs one selected layer with one
    /// tour index: position `k` visits layer `k / tour().len()` of the
    /// selection at centre `k % tour().len()` of the tour.
    pub proof fn lemma_item(&self, k: int)
        requires
            0 <= k < self.items().len(),
        ensures
            ({
                let tl = self.tour().len() as int;
                &&& 0 < tl
                &&& 0 <= k / tl < self.spec_layers().len()
                &&& 0 <= k % tl < tl
                &&& self.items()[k] == (self.spec_layers()[k / tl], self.tour()[k % tl])
            }),
    {
        self.inner.core.lemma_item(k);
    }

    /// Each item pairs a valid layer with a centre on which the full window
    /// stays inside the map.
    pub proof fn lemma_item_bounds(&self, k: int)
        requires
            self.wf(),
            0 <= k < self.items().len(),
        ensures
            ({
                let it = self.items()[k];
                let semi = self.spec_semi();
                &&& it.0 < L::spec_num_layers()
                &&& semi.0 <= it.1.0 && it.1.0 + semi.0 < self.spec_map().size_x()
                &&& semi.1 <= it.1.1 && it.1.1 + semi.1 < self.spec_map().size_y()
            }),
    {
        self.inner.core.lemma_item(k);
        lemma_interior_tour_in_shape(
            self.spec_map().size_x(),
            self.spec_map().size_y(),
            self.semi.0 as int,
            self.semi.1 as int,
        );
    }

    /// Yields the layer index and centre under the cursor and moves past
    /// them, or yields nothing once the traversal is over.
    pub fn next_index(&mut self) -> (r: Option<(usize, (usize, usize))>)
        requires
            old(self).wf(),
        ensures
            final(self).wf(),
            final(self).spec_map() == old(self).spec_map(),
            final(self).spec_semi() == old(self).spec_semi(),
            final(self).tour() == old(self).tour(),
            final(self).spec_layers() == old(self).spec_layers(),
            final(self).items() == old(self).items(),
            old(self).at_pos() < old(self).items().len() ==> ({
                &&& r == Some(old(self).items()[old(self).at_pos()])
                &&& final(self).at_pos() == old(self).at_pos() + 1
            }),
            old(self).at_pos() >= old(self).items().len() ==> r == None::<(usize, (usize, usize))>
                && final(self).at_pos() == old(self).at_pos(),
    {
        self.inner.next_index()
    }

    /// Counts the items the iterator has still to yield, consuming it.
    pub fn count(self) -> (r: usize)
        requires
            self.wf(),
            self.items().len() - self.at_pos() <= usize::MAX,
        ensures
            r == self.items().len() - self.at_pos(),
    {
        self.inner.count()
    }

    /// Restricts the iteration to the single layer `layer` and rewinds it.
    pub fn layer(self, layer: L) -> (r: Self)
        requires
            self.wf(),
        ensures
            r.wf(),
            r.spec_map() == self.spec_map(),
            r.spec_semi() == self.spec_semi(),
            r.tour() == self.tour(),
            r.spec_layers().len() == 1,
            r.spec_layers()[0] == layer.spec_to_index(),
            r.items().len() == r.tour().len(),
            r.at_pos() == 0,
    {
        WindowIter { inner: self.inner.layer(layer), semi: self.semi }
    }

    /// Restricts the iteration to the given layers, in their order, and
    /// rewinds it.
    pub fn layers(self, layers: &[L]) -> (r: Self)
        requires
            self.wf(),
        ensures
            r.wf(),
            r.spec_map() == self.spec_map(),
            r.spec_semi() == self.spec_semi(),
            r.tour() == self.tour(),
            r.spec_layers().len() == layers@.len(),
            forall|i: int|
                0 <= i < layers@.len() ==> #[trigger] r.spec_layers()[i]
                    == layers@[i].spec_to_index(),
            r.items().len() == layers@.len() * r.tour().len(),
            r.at_pos() == 0,
    {
        WindowIter { inner: self.inner.layers(layers), semi: self.semi }
    }

    /// Decorates the iteration so that every yielded window carries its layer
    /// and centre, without changing the traversal.
    pub fn indexed(self) -> (r: WindowIter<'a, L, T, Indexed<S>>)
        requires
            self.wf(),
        ensures
            r.wf(),
            r.spec_map() == self.spec_map(),
            r.spec_semi() == self.spec_semi(),
            r.tour() == self.tour(),
            r.spec_layers() == self.spec_layers(),
            r.items() == self.items(),
            r.at_pos() == self.at_pos(),
    {
        WindowIter { inner: self.inner.indexed(), semi: self.semi }
    }
}

impl<'a, L: Layer, T: Copy> WindowIter<'a, L, T, Windows> {
    /// Yields a copy of the window around the centre under the cursor and
    /// moves past it.
    pub fn next(&mut self) -> (r: Option<Grid<T>>)
        requires
            old(self).wf(),
        ensures
            final(self).wf(),
            final(self).spec_map() == old(self).spec_map(),
            final(self).spec_semi() == old(self).spec_semi(),
            final(self).tour() == old(self).tour(),
            final(self).spec_layers() == old(self).spec_layers(),
            final(self).items() == old(self).items(),
            old(self).at_pos() < old(self).items().len() ==> ({
                let it = old(self).items()[old(self).at_pos()];
                let semi = old(self).spec_semi();
                &&& final(self).at_pos() == old(self).at_pos() + 1
                &&& r matches Some(g) && g.wf() && g.nx() == 2 * semi.0 + 1 && g.ny() == 2 * semi.1
                    + 1 && forall|i: int, j: int|
                    0 <= i < g.nx() && 0 <= j < g.ny() ==> #[trigger] g.at(i, j) == old(self).spec_map().at(it.0 as int, it.1.0 - semi.0 + i, it.1.1 - semi.1 + j)
            }),
            old(self).at_pos() >= old(self).items().len() ==> r == None::<Grid<T>> && final(self).at_pos() == old(self).at_pos(),
    {
        let ghost pre = *self;
        match self.inner.next_index() {
            Some((l, centre)) => {
                proof {
                    pre.inner.core.lemma_item(pre.at_pos());
                    pre.inner.lemma_item_bounds(pre.at_pos());
                    lemma_interior_tour_in_shape(
                        pre.spec_map().size_x(),
                        pre.spec_map().size_y(),
                        pre.semi.0 as int,
                        pre.semi.1 as int,
                    );
                }
                Some(self.inner.map.window_at(l, centre, self.semi))
            },
            None => None,
        }
    }
}

impl<'a, L: Layer, T: Copy> WindowIter<'a, L, T, Indexed<Windows>> {
    /// Yields the layer, centre and a copy of the window around the centre
    /// under the cursor, and moves past them.
    pub fn next_indexed(&mut self) -> (r: Option<((L, (usize, usize)), Grid<T>)>)
        requires
            old(self).wf(),
        ensures
            final(self).wf(),
            final(self).spec_map() == old(self).spec_map(),
            final(self).spec_semi() == old(self).spec_semi(),
            final(self).tour() == old(self).tour(),
            final(self).spec_layers() == old(self).spec_layers(),
            final(self).items() == old(self).items(),
            old(self).at_pos() < old(self).items().len() ==> ({
                let it = old(self).items()[old(self).at_pos()];
                let semi = old(self).spec_semi();
                &&& final(self).at_pos() == old(self).at_pos() + 1
                &&& r matches Some(((lv, centre), g)) && lv.spec_to_index() == it.0 && centre
                    == it.1 && g.wf() && g.nx() == 2 * semi.0 + 1 && g.ny() == 2 * semi.1 + 1
                    && forall|i: int, j: int|
                    0 <= i < g.nx() && 0 <= j < g.ny() ==> #[trigger] g.at(i, j) == old(self).spec_map().at(it.0 as int, it.1.0 - semi.0 + i, it.1.1 - semi.1 + j)
            }),
            old(self).at_pos() >= old(self).items().len() ==> r == None::<
                ((L, (usize, usize)), Grid<T>),
            > && final(self).at_pos() == old(self).at_pos(),
    {
        let ghost pre = *self;
        match self.inner.next_index() {
            Some((l, centre)) => {
                proof {
                    pre.inner.core.lemma_item(pre.at_pos());
                    pre.inner.lemma_item_bounds(pre.at_pos());
                    lemma_interior_tour_in_shape(
                        pre.spec_map().size_x(),
                        pre.spec_map().size_y(),
                        pre.semi.0 as int,
                        pre.semi.1 as int,
                    );
                }
                let lv = L::from_index(l);
                let g = self.inner.map.window_at(l, centre, self.semi);
                Some(((lv, centre), g))
            },
            None => None,
        }
    }
}

/// The cursor of a mutable iteration over the cells of a map. It yields the
/// positions to write through [`CellMap::set_at`]; taking the map by `&mut`
/// when it is built keeps the borrow discipline of the read-only variant.
pub struct CellMapIterMut<L: Layer, S> {
    pub(crate) core: LayeredCursor<S>,
    pub(crate) size_x: usize,
    pub(crate) size_y: usize,
    pub(crate) layer_type: PhantomData<L>,
}

impl<L: Layer, S: Slicer> CellMapIterMut<L, S> {
    /// The shape of the map being iterated.
    pub closed spec fn spec_size(&self) -> (usize, usize) {
        (self.size_x, self.size_y)
    }

    /// The tour of array indices visited within each selected layer.
    pub closed spec fn tour(&self) -> Seq<(usize, usize)> {
        self.core.tour()
    }

    /// The selected layer indices, in visiting order.
    pub closed spec fn spec_layers(&self) -> Seq<usize> {
        self.core.spec_layers()
    }

    /// The full sequence of `(layer, index)` pairs the iterator visits.
    pub closed spec fn items(&self) -> Seq<(usize, (usize, usize))> {
        self.core.items()
    }

    /// How many items the iterator has already yielded.
    pub closed spec fn at_pos(&self) -> int {
        self.core.at_pos()
    }

    /// The iterator's internal consistency.
    pub closed spec fn wf(&self) -> bool {
        &&& self.core.wf()
        &&& forall|i: int|
            0 <= i < self.core.spec_layers().len() ==> (#[trigger] self.core.spec_layers()[i])
                < L::spec_num_layers()
        &&& forall|k: int|
            0 <= k < self.core.tour().len() ==> ((#[trigger] self.core.tour()[k]).0 < self.size_x
                && self.core.tour()[k].1 < self.size_y)
    }

    /// The iterator visits one item per selected layer and tour index.
    pub proof fn lemma_items_len(&self)
        ensures
            self.items().len() == self.spec_layers().len() * self.tour().len(),
    {
    }

    /// The item at a valid position `k` pairs one selected layer with one
    /// tour index: position `k` visits layer `k / tour().len()` of the
    /// selection at tour index `k % tour().len()`.
    pub proof fn lemma_item(&self, k: int)
        requires
            0 <= k < self.items().len(),
        ensures
            ({
                let tl = self.tour().len() as int;
                &&& 0 < tl
                &&& 0 <= k / tl < self.spec_layers().len()
                &&& 0 <= k % tl < tl
                &&& self.items()[k] == (self.spec_layers()[k / tl], self.tour()[k % tl])
            }),
    {
        self.core.lemma_item(k);
    }

    /// Each item pairs a valid layer with an array index inside the map.
    pub proof fn lemma_item_bounds(&self, k: int)
        requires
            self.wf(),
            0 <= k < self.items().len(),
        ensures
            ({
                let it = self.items()[k];
                &&& it.0 < L::spec_num_layers()
                &&& it.1.0 < self.spec_size().0
                &&& it.1.1 < self.spec_size().1
            }),
    {
        self.core.lemma_item(k);
    }

    /// Yields the layer index and array index under the cursor and moves
    /// past them, or yields nothing once the traversal is over.
    pub fn next_index(&mut self) -> (r: Option<(usize, (usize, usize))>)
        requires
            old(self).wf(),
        ensures
            final(self).wf(),
            final(self).spec_size() == old(self).spec_size(),
            final(self).tour() == old(self).tour(),
            final(self).spec_layers() == old(self).spec_layers(),
            final(self).items() == old(self).items(),
            old(self).at_pos() < old(self).items().len() ==> ({
                &&& r == Some(old(self).items()[old(self).at_pos()])
                &&& final(self).at_pos() == old(self).at_pos() + 1
            }),
            old(self).at_pos() >= old(self).items().len() ==> r == None::<(usize, (usize, usize))>
                && final(self).at_pos() == old(self).at_pos(),
    {
        self.core.next_index()
    }

    /// Counts the items the iterator has still to yield, consuming it.
    pub fn count(self) -> (r: usize)
        requires
            self.wf(),
            self.items().len() - self.at_pos() <= usize::MAX,
        ensures
            r == self.items().len() - self.at_pos(),
    {
        self.core.count()
    }

    /// Restricts the iteration to the single layer `layer` and rewinds it.
    pub fn layer(self, layer: L) -> (r: Self)
        requires
            self.wf(),
        ensures
            r.wf(),
            r.spec_size() == self.spec_size(),
            r.tour() == self.tour(),
            r.spec_layers().len() == 1,
            r.spec_layers()[0] == layer.spec_to_index(),
            r.items().len() == r.tour().len(),
            r.at_pos() == 0,
    {
        let li = layer.to_index();
        let mut ls: Vec<usize> = Vec::new();
        ls.push(li);
        let CellMapIterMut { core, size_x, size_y, layer_type } = self;
        let LayeredCursor { slicer, layers: _, layer_pos: _ } = core;
        let r = CellMapIterMut { core: LayeredCursor::new(slicer, ls), size_x, size_y, layer_type };
        proof {
            assert(r.items().len() == r.tour().len()) by (nonlinear_arith)
                requires
                    r.items().len() == r.spec_layers().len() * r.tour().len(),
                    r.spec_layers().len() == 1,
            ;
        }
        r
    }

    /// Restricts the iteration to the given layers, in their order, and
    /// rewinds it.
    pub fn layers(self, layers: &[L]) -> (r: Self)
        requires
            self.wf(),
        ensures
            r.wf(),
            r.spec_size() == self.spec_size(),
            r.tour() == self.tour(),
            r.spec_layers().len() == layers@.len(),
            forall|i: int|
                0 <= i < layers@.len() ==> #[trigger] r.spec_layers()[i]
                    == layers@[i].spec_to_index(),
            r.items().len() == layers@.len() * r.tour().len(),
            r.at_pos() == 0,
    {
        let mut ls: Vec<usize> = Vec::new();
        let mut i: usize = 0;
        while i < layers.len()
            invariant
                i <= layers@.len(),
                ls@.len() == i,
                forall|j: int|
                    0 <= j < i ==> #[trigger] ls@[j] == layers@[j].spec_to_index() && ls@[j]
                        < L::spec_num_layers(),
            decreases layers@.len() - i,
        {
            let li = layers[i].to_index();
            ls.push(li);
            i = i + 1;
        }
        let CellMapIterMut { core, size_x, size_y, layer_type } = self;
        let LayeredCursor { slicer, layers: _, layer_pos: _ } = core;
        CellMapIterMut { core: LayeredCursor::new(slicer, ls), size_x, size_y, layer_type }
    }
}

/// The cursor of a mutable iteration over the windows of a map: it yields
/// the window centres to write through [`CellMap::set_at`].
pub struct WindowIterMut<L: Layer, S> {
    pub(crate) inner: CellMapIterMut<L, S>,
    pub(crate) semi: (usize, usize),
}

impl<L: Layer, S: Slicer> WindowIterMut<L, S> {
    /// The window's semi-extent along each axis.
    pub closed spec fn spec_semi(&self) -> (usize, usize) {
        self.semi
    }

    /// The shape of the map being iterated.
    pub closed spec fn spec_size(&self) -> (usize, usize) {
        self.inner.spec_size()
    }

    /// The tour of window centres visited within each selected layer.
    pub closed spec fn tour(&self) -> Seq<(usize, usize)> {
        self.inner.tour()
    }

    /// The selected layer indices, in visiting order.
    pub closed spec fn spec_layers(&self) -> Seq<usize> {
        self.inner.spec_layers()
    }

    /// The full sequence of `(layer, centre)` pairs the iterator visits.
    pub closed spec fn items(&self) -> Seq<(usize, (usize, usize))> {
        self.inner.items()
    }

    /// How many items the iterator has already yielded.
    pub closed spec fn at_pos(&self) -> int {
        self.inner.at_pos()
    }

    /// The iterator's internal consistency: the window fits the map and the
    /// tour walks exactly the interior the window leaves.
    pub closed spec fn wf(&self) -> bool {
        &&& self.inner.wf()
        &&& spec_window_fits(self.spec_size().0 as int, self.spec_size().1 as int, self.semi)
        &&& self.tour() == interior_tour(
            self.spec_size().0 as int,
            self.spec_size().1 as int,
            self.semi.0 as int,
            self.semi.1 as int,
        )
    }

    /// The window's semi-extent along each axis.
    pub fn semi(&self) -> (r: (usize, usize))
        ensures
            r == self.spec_semi(),
    {
        self.semi
    }

    /// The iterator visits one item per selected layer and tour index.
    pub proof fn lemma_items_len(&self)
        ensures
            self.items().len() == self.spec_layers().len() * self.tour().len(),
    {
    }

    /// The item at a valid position `k` pairs one selected layer with one
    /// tour index: position `k` visits layer `k / tour().len()` of the
    /// selection at centre `k % tour().len()` of the tour.
    pub proof fn lemma_item(&self, k: int)
        requires
            0 <= k < self.items().len(),
        ensures
            ({
                let tl = self.tour().len() as int;
                &&& 0 < tl
                &&& 0 <= k / tl < self.spec_layers().len()
                &&& 0 <= k % tl < tl
                &&& self.items()[k] == (self.spec_layers()[k / tl], self.tour()[k % tl])
            }),
    {
        self.inner.core.lemma_item(k);
    }

    /// Each item pairs a valid layer with a centre on which the full window
    /// stays inside the map, so a caller may write to it through
    /// [`CellMap::set_at`].
    pub proof fn lemma_item_bounds(&self, k: int)
        requires
            self.wf(),
            0 <= k < self.items().len(),
        ensures
            ({
                let it = self.items()[k];
                let semi = self.spec_semi();
                &&& it.0 < L::spec_num_layers()
                &&& semi.0 <= it.1.0 && it.1.0 + semi.0 < self.spec_size().0
                &&& semi.1 <= it.1.1 && it.1.1 + semi.1 < self.spec_size().1
            }),
    {
        self.inner.core.lemma_item(k);
        lemma_interior_tour_in_shape(
            self.spec_size().0 as int,
            self.spec_size().1 as int,
            self.semi.0 as int,
            self.semi.1 as int,
        );
    }

    /// Yields the layer index and centre under the cursor and moves past
    /// them, or yields nothing once the traversal is over.
    pub fn next_index(&mut self) -> (r: Option<(usize, (usize, usize))>)
        requires
            old(self).wf(),
        ensures
            final(self).wf(),
            final(self).spec_size() == old(self).spec_size(),
            final(self).spec_semi() == old(self).spec_semi(),
            final(self).tour() == old(self).tour(),
            final(self).spec_layers() == old(self).spec_layers(),
            final(self).items() == old(self).items(),
            old(self).at_pos() < old(self).items().len() ==> ({
                &&& r == Some(old(self).items()[old(self).at_pos()])
                &&& final(self).at_pos() == old(self).at_pos() + 1
            }),
            old(self).at_pos() >= old(self).items().len() ==> r == None::<(usize, (usize, usize))>
                && final(self).at_pos() == old(self).at_pos(),
    {
        self.inner.next_index()
    }

    /// Counts the items the iterator has still to yield, consuming it.
    pub fn count(self) -> (r: usize)
        requires
            self.wf(),
            self.items().len() - self.at_pos() <= usize::MAX,
        ensures
            r == self.items().len() - self.at_pos(),
    {
        self.inner.count()
    }

    /// Restricts the iteration to the single layer `layer` and rewinds it.
    pub fn layer(self, layer: L) -> (r: Self)
        requires
            self.wf(),
        ensures
            r.wf(),
            r.spec_size() == self.spec_size(),
            r.spec_semi() == self.spec_semi(),
            r.tour() == self.tour(),
            r.spec_layers().len() == 1,
            r.spec_layers()[0] == layer.spec_to_index(),
            r.items().len() == r.tour().len(),
            r.at_pos() == 0,
    {
        WindowIterMut { inner: self.inner.layer(layer), semi: self.semi }
    }

    /// Restricts the iteration to the given layers, in their order, and
    /// rewinds it.
    pub fn layers(self, layers: &[L]) -> (r: Self)
        requires
            self.wf(),
        ensures
            r.wf(),
            r.spec_size() == self.spec_size(),
            r.spec_semi() == self.spec_semi(),
            r.tour() == self.tour(),
            r.spec_layers().len() == layers@.len(),
            forall|i: int|
                0 <= i < layers@.len() ==> #[trigger] r.spec_layers()[i]
                    == layers@[i].spec_to_index(),
            r.items().len() == layers@.len() * r.tour().len(),
            r.at_pos() == 0,
    {
        WindowIterMut { inner: self.inner.layers(layers), semi: self.semi }
    }
}

impl<L: Layer, T> CellMap<L, T> {
    /// Returns an iterator over every cell of every layer of the map, in
    /// layer-major, then row-major order.
    pub fn iter<'a>(&'a self) -> (r: CellMapIter<'a, L, T, Cells>)
        requires
            self.wf(),
        ensures
            r.wf(),
            r.spec_map() == *self,
            r.at_pos() == 0,
            r.tour() == rect_tour(self.size_x(), self.size_y()),
            r.spec_layers().len() == L::spec_num_layers(),
            forall|i: int| 0 <= i < r.spec_layers().len() ==> #[trigger] r.spec_layers()[i] == i,
            r.items().len() == L::spec_num_layers() * (self.size_x() * self.size_y()),
    {
        proof {
            self.lemma_size_fits();
            lemma_rect_tour_in_shape(self.size_x(), self.size_y());
        }
        let (sx, sy) = self.num_cells();
        let slicer = Cells::new(sx, sy);
        let ls = all_layers::<L>();
        CellMapIter { map: self, core: LayeredCursor::new(slicer, ls) }
    }

    /// Returns the cursor of a mutable iteration over every cell of every
    /// layer of the map; writes go through [`CellMap::set_at`] at the yielded
    /// positions. The map itself is left as it was.
    pub fn iter_mut(&mut self) -> (r: CellMapIterMut<L, Cells>)
        requires
            old(self).wf(),
        ensures
            *final(self) == *old(self),
            r.wf(),
            r.spec_size().0 == final(self).size_x(),
            r.spec_size().1 == final(self).size_y(),
            r.at_pos() == 0,
            r.tour() == rect_tour(final(self).size_x(), final(self).size_y()),
            r.spec_layers().len() == L::spec_num_layers(),
            forall|i: int| 0 <= i < r.spec_layers().len() ==> #[trigger] r.spec_layers()[i] == i,
            r.items().len() == L::spec_num_layers() * (final(self).size_x() * final(self).size_y()),
    {
        proof {
            self.lemma_size_fits();
            lemma_rect_tour_in_shape(self.size_x(), self.size_y());
        }
        let (sx, sy) = self.num_cells();
        let slicer = Cells::new(sx, sy);
        let ls = all_layers::<L>();
        CellMapIterMut {
            core: LayeredCursor::new(slicer, ls),
            size_x: sx,
            size_y: sy,
            layer_type: PhantomData,
        }
    }

    /// Returns an iterator over the windows of semi-extent `semi_window_size`
    /// around every interior cell of every layer, or an error when such a
    /// window cannot fit the map.
    ///
    /// The semi-extent is half the window, the centre cell left out: a window
    /// of semi-extent `(2, 2)` is 5 cells wide and 5 tall.
    pub fn window_iter<'a>(&'a self, semi_window_size: (usize, usize)) -> (r: Result<
        WindowIter<'a, L, T, Windows>,
        Error,
    >)
        requires
            self.wf(),
        ensures
            !spec_window_fits(self.size_x(), self.size_y(), semi_window_size) ==> r == Err::<
                WindowIter<'a, L, T, Windows>,
                Error,
            >(
                Error::WindowLargerThanMap(
                    semi_window_size,
                    (self.size_x() as usize, self.size_y() as usize),
                ),
            ),
            spec_window_fits(self.size_x(), self.size_y(), semi_window_size) ==> (r matches Ok(it)
                && it.wf() && it.spec_map() == *self && it.spec_semi() == semi_window_size
                && it.tour() == interior_tour(
                self.size_x(),
                self.size_y(),
                semi_window_size.0 as int,
                semi_window_size.1 as int,
            ) && it.at_pos() == 0 && it.spec_layers().len() == L::spec_num_layers() && (forall|
                i: int,
            |
                0 <= i < it.spec_layers().len() ==> #[trigger] it.spec_layers()[i] == i)
                && it.items().len() == L::spec_num_layers() * ((self.size_x() - 2
                * semi_window_size.0) * (self.size_y() - 2 * semi_window_size.1))),
    {
        let (sx, sy) = self.num_cells();
        let s = semi_window_size;
        let fits_x = sx > 0 && s.0 <= (sx - 1) / 2;
        let fits_y = sy > 0 && s.1 <= (sy - 1) / 2;
        proof {
            assert(fits_x == (2 * s.0 + 1 <= sx) && fits_y == (2 * s.1 + 1 <= sy));
        }
        if !(fits_x && fits_y) {
            return Err(Error::WindowLargerThanMap(s, (sx, sy)));
        }
        proof {
            self.lemma_size_fits();
            lemma_interior_tour_in_shape(sx as int, sy as int, s.0 as int, s.1 as int);
        }
        let slicer = Windows::new(sx, sy, s.0, s.1);
        let ls = all_layers::<L>();
        let inner = CellMapIter { map: self, core: LayeredCursor::new(slicer, ls) };
        Ok(WindowIter { inner, semi: s })
    }

    /// Returns the cursor of a mutable iteration over the window centres of
    /// the map, or an error when such a window cannot fit the map; writes go
    /// through [`CellMap::set_at`] at the yielded centres. The map itself is
    /// left as it was.
    pub fn window_iter_mut(&mut self, semi_window_size: (usize, usize)) -> (r: Result<
        WindowIterMut<L, Windows>,
        Error,
    >)
        requires
            old(self).wf(),
        ensures
            *final(self) == *old(self),
            !spec_window_fits(final(self).size_x(), final(self).size_y(), semi_window_size) ==> r
                == Err::<WindowIterMut<L, Windows>, Error>(
                Error::WindowLargerThanMap(
                    semi_window_size,
                    (final(self).size_x() as usize, final(self).size_y() as usize),
                ),
            ),
            spec_window_fits(final(self).size_x(), final(self).size_y(), semi_window_size) ==> (
            r matches Ok(it) && it.wf() && it.spec_size().0 == final(self).size_x()
                && it.spec_size().1 == final(self).size_y()
                && it.spec_semi() == semi_window_size && it.tour() == interior_tour(
                final(self).size_x(),
                final(self).size_y(),
                semi_window_size.0 as int,
                semi_window_size.1 as int,
            ) && it.at_pos() == 0 && it.spec_layers().len()
                == L::spec_num_layers() && (forall|i: int|
                0 <= i < it.spec_layers().len() ==> #[trigger] it.spec_layers()[i] == i)
                && it.items().len() == L::spec_num_layers() * ((final(self).size_x() - 2
                * semi_window_size.0) * (final(self).size_y() - 2 * semi_window_size.1))),
    {
        let (sx, sy) = self.num_cells();
        let s = semi_window_size;
        let fits_x = sx > 0 && s.0 <= (sx - 1) / 2;
        let fits_y = sy > 0 && s.1 <= (sy - 1) / 2;
        proof {
            assert(fits_x == (2 * s.0 + 1 <= sx) && fits_y == (2 * s.1 + 1 <= sy));
        }
        if !(fits_x && fits_y) {
            return Err(Error::WindowLargerThanMap(s, (sx, sy)));
        }
        proof {
            self.lemma_size_fits();
            lemma_interior_tour_in_shape(sx as int, sy as int, s.0 as int, s.1 as int);
        }
        let slicer = Windows::new(sx, sy, s.0, s.1);
        let ls = all_layers::<L>();
        let inner = CellMapIterMut {
            core: LayeredCursor::new(slicer, ls),
            size_x: sx,
            size_y: sy,
            layer_type: PhantomData,
        };
        Ok(WindowIterMut { inner, semi: s })
    }

    /// Returns an iterator over the cells of the digital line between the
    /// array indices `start` and `end`, both included, walked once per layer;
    /// rejects an endpoint outside the shape of the map.
    pub fn line_iter<'a>(&'a self, start: (usize, usize), end: (usize, usize)) -> (r: Result<
        CellMapIter<'a, L, T, Line>,
        Error,
    >)
        requires
            self.wf(),
        ensures
            !self.index_in_shape(start) ==> r == Err::<CellMapIter<'a, L, T, Line>, Error>(
                Error::IndexOutsideMap(start),
            ),
            self.index_in_shape(start) && !self.index_in_shape(end) ==> r == Err::<
                CellMapIter<'a, L, T, Line>,
                Error,
            >(Error::IndexOutsideMap(end)),
            self.index_in_shape(start) && self.index_in_shape(end) ==> (r matches Ok(it)
                && it.wf() && it.spec_map() == *self && it.at_pos() == 0 && path_matches(
                it.tour(),
                line_seq(start, end),
            ) && it.spec_layers().len() == L::spec_num_layers() && (forall|i: int|
                0 <= i < it.spec_layers().len() ==> #[trigger] it.spec_layers()[i] == i)
                && it.items().len() == L::spec_num_layers() * line_seq(start, end).len()),
    {
        let (sx, sy) = self.num_cells();
        if !(start.0 < sx && start.1 < sy) {
            return Err(Error::IndexOutsideMap(start));
        }
        if !(end.0 < sx && end.1 < sy) {
            return Err(Error::IndexOutsideMap(end));
        }
        let path = line_path(start, end);
        proof {
            lemma_line_seq_props(start, end);
            assert forall|k: int|
                0 <= k < path@.len() implies ((#[trigger] path@[k]).0 < sx && path@[k].1 < sy) by {
                assert((path@[k].0 as int, path@[k].1 as int) == line_seq(start, end)[k]);
            }
        }
        let slicer = Line::new(path);
        let ls = all_layers::<L>();
        Ok(CellMapIter { map: self, core: LayeredCursor::new(slicer, ls) })
    }
}

impl<L: Layer, T: Copy> CellMap<L, T> {
    /// Runs one mutable window iteration over every layer, writing `value`
    /// to the centre of every window, or reports that such a window cannot
    /// fit the map.
    ///
    /// Each window is consumed before the cursor moves on, so no two writes
    /// alias: afterwards exactly the interior cells hold `value` and the
    /// border ring of every layer is untouched.
    pub fn set_window_centres(&mut self, semi_window_size: (usize, usize), value: T) -> (r: Result<
        (),
        Error,
    >)
        requires
            old(self).wf(),
        ensures
            !spec_window_fits(old(self).size_x(), old(self).size_y(), semi_window_size) ==> (r
                == Err::<(), Error>(
                Error::WindowLargerThanMap(
                    semi_window_size,
                    (old(self).size_x() as usize, old(self).size_y() as usize),
                ),
            ) && *final(self) == *old(self)),
            spec_window_fits(old(self).size_x(), old(self).size_y(), semi_window_size) ==> (r
                == Ok::<(), Error>(()) && final(self).wf() && final(self).spec_params() == old(
                self,
            ).spec_params() && forall|l: int, x: int, y: int|
                0 <= l < L::spec_num_layers() && 0 <= x < old(self).size_x() && 0 <= y < old(
                    self,
                ).size_y() ==> #[trigger] final(self).at(l, x, y) == (if in_window_interior(
                    old(self).size_x(),
                    old(self).size_y(),
                    semi_window_size,
                    x,
                    y,
                ) {
                    value
                } else {
                    old(self).at(l, x, y)
                })),
    {
        let s = semi_window_size;
        let mut it = match self.window_iter_mut(s) {
            Ok(i) => i,
            Err(e) => {
                return Err(e);
            },
        };
        let ghost m0 = *self;
        loop
            invariant
                it.wf(),
                self.wf(),
                self.spec_params() == m0.spec_params(),
                m0.wf(),
                spec_window_fits(m0.size_x(), m0.size_y(), s),
                it.spec_size().0 == m0.size_x(),
                it.spec_size().1 == m0.size_y(),
                it.spec_semi() == s,
                it.tour() == interior_tour(m0.size_x(), m0.size_y(), s.0 as int, s.1 as int),
                it.spec_layers().len() == L::spec_num_layers(),
                forall|i: int|
                    0 <= i < it.spec_layers().len() ==> #[trigger] it.spec_layers()[i] == i,
                0 <= it.at_pos() <= it.items().len(),
                forall|l: int, x: int, y: int|
                    0 <= l < L::spec_num_layers() && 0 <= x < m0.size_x() && 0 <= y < m0.size_y()
                        ==> #[trigger] self.at(l, x, y) == (if in_window_interior(
                        m0.size_x(),
                        m0.size_y(),
                        s,
                        x,
                        y,
                    ) && l * it.tour().len() + centre_pos(
                        s,
                        m0.size_x() - 2 * s.0,
                        x,
                        y,
                    ) < it.at_pos() {
                        value
                    } else {
                        m0.at(l, x, y)
                    }),
            ensures
                self.wf(),
                self.spec_params() == m0.spec_params(),
                forall|l: int, x: int, y: int|
                    0 <= l < L::spec_num_layers() && 0 <= x < m0.size_x() && 0 <= y < m0.size_y()
                        ==> #[trigger] self.at(l, x, y) == (if in_window_interior(
                        m0.size_x(),
                        m0.size_y(),
                        s,
                        x,
                        y,
                    ) {
                        value
                    } else {
                        m0.at(l, x, y)
                    }),
            decreases it.items().len() - it.at_pos(),
        {
            let ghost it_pre = it;
            let ghost self_pre = *self;
            match it.next_index() {
                Some((l0, c0)) => {
                    proof {
                        it_pre.inner.core.lemma_item(it_pre.at_pos());
                        it_pre.inner.lemma_item_bounds(it_pre.at_pos());
                    }
                    self.set_at(l0, c0, value);
                    proof {
                        let sx = m0.size_x();
                        let sy = m0.size_y();
                        let w = sx - 2 * s.0;
                        let h = sy - 2 * s.1;
                        let tl = it_pre.tour().len() as int;
                        let k = it_pre.at_pos();
                        let j = k % tl;
                        vstd::arithmetic::div_mod::lemma_fundamental_div_mod(k, tl);
                        vstd::arithmetic::div_mod::lemma_fundamental_div_mod(j, w);
                        assert(0 <= j % w < w && 0 <= j / w < h) by (nonlinear_arith)
                            requires
                                0 <= j < w * h,
                                0 < w,
                                0 < h,
                        ;
                        assert(c0.0 == s.0 + j % w && c0.1 == s.1 + j / w);
                        assert(in_window_interior(sx, sy, s, c0.0 as int, c0.1 as int));
                        assert(w * (j / w) == (j / w) * w) by (nonlinear_arith);
                        assert(centre_pos(s, w, c0.0 as int, c0.1 as int) == j);
                        assert(tl * (k / tl) == (k / tl) * tl) by (nonlinear_arith);
                        assert((l0 as int) * tl + j == k);
                        assert forall|l: int, x: int, y: int|
                            0 <= l < L::spec_num_layers() && 0 <= x < sx && 0 <= y
                                < sy implies #[trigger] self.at(l, x, y) == (
                        if in_window_interior(sx, sy, s, x, y) && l * tl + centre_pos(
                            s,
                            w,
                            x,
                            y,
                        ) < k + 1 {
                            value
                        } else {
                            m0.at(l, x, y)
                        }) by {
                            if l == l0 && x == c0.0 && y == c0.1 {
                            } else {
                                assert(self.at(l, x, y) == self_pre.at(l, x, y));
                                if in_window_interior(sx, sy, s, x, y) && l * tl + centre_pos(
                                    s,
                                    w,
                                    x,
                                    y,
                                ) == k {
                                    crate::grid::lemma_flat_index_in_range(
                                        x - s.0,
                                        y - s.1,
                                        w,
                                        h,
                                    );
                                    crate::grid::lemma_flat_index_injective(
                                        centre_pos(s, w, x, y),
                                        l,
                                        j,
                                        l0 as int,
                                        tl,
                                    );
                                    crate::grid::lemma_flat_index_injective(
                                        x - s.0,
                                        y - s.1,
                                        j % w,
                                        j / w,
                                        w,
                                    );
                                    assert(false);
                                }
                            }
                        }
                    }
                },
                None => {
                    proof {
                        let sx = m0.size_x();
                        let sy = m0.size_y();
                        let w = sx - 2 * s.0;
                        let h = sy - 2 * s.1;
                        let tl = it.tour().len() as int;
                        assert forall|l: int, x: int, y: int|
                            #![trigger self.at(l, x, y)]
                            0 <= l < L::spec_num_layers() && 0 <= x < sx && 0 <= y < sy
                                && in_window_interior(sx, sy, s, x, y) implies l * tl + centre_pos(
                            s,
                            w,
                            x,
                            y,
                        ) < it.at_pos() by {
                            crate::grid::lemma_flat_index_in_range(x - s.0, y - s.1, w, h);
                            assert(l * tl + centre_pos(s, w, x, y) < it.spec_layers().len() * tl)
                                by (nonlinear_arith)
                                requires
                                    0 <= centre_pos(s, w, x, y) < tl,
                                    0 <= l,
                                    l + 1 <= it.spec_layers().len(),
                            ;
                        }
                    }
                    break ;
                },
            }
        }
        Ok(())
    }
}

} // verus!
