//! The [`Indexed`] wrapper, which decorates a [`Slicer`] so that iteration
//! can yield each item's layer and array index beside the item.

use vstd::prelude::*;

use crate::iterators::slicers::Slicer;

verus! {

/// A [`Slicer`] which wraps another slicer, leaving its tour and cursor
/// untouched but recording the layer the pipeline is visiting, so that each
/// yielded item can carry its layer and array index.
pub struct Indexed<S> {
    slicer: S,
    layer: usize,
}

impl<S: Slicer> Indexed<S> {
    /// The layer index recorded at the last reset.
    pub closed spec fn spec_layer(&self) -> usize {
        self.layer
    }

    /// Wraps `slicer`, recording `layer` as the layer being visited.
    pub fn new(slicer: S, layer: usize) -> (r: Self)
        ensures
            r.tour() == slicer.tour(),
            r.cursor() == slicer.cursor(),
            r.wf() == slicer.wf(),
            r.spec_layer() == layer,
    {
        Indexed { slicer, layer }
    }

    /// The layer index recorded at the last reset.
    pub fn layer_index(&self) -> (r: usize)
        ensures
            r == self.spec_layer(),
    {
        self.layer
    }

    /// The recorded layer and the array index under the cursor, or nothing
    /// when the tour is exhausted.
    pub fn current_indexed(&self) -> (r: Option<(usize, (usize, usize))>)
        requires
            self.wf(),
        ensures
            r == (if 0 <= self.cursor() < self.tour().len() {
                Some((self.spec_layer(), self.tour()[self.cursor()]))
            } else {
                None::<(usize, (usize, usize))>
            }),
    {
        match self.slicer.current() {
            Some(idx) => Some((self.layer, idx)),
            None => None,
        }
    }
}

impl<S: Slicer> Slicer for Indexed<S> {
    closed spec fn tour(&self) -> Seq<(usize, usize)> {
        self.slicer.tour()
    }

    closed spec fn cursor(&self) -> int {
        self.slicer.cursor()
    }

    closed spec fn wf(&self) -> bool {
        self.slicer.wf()
    }

    fn current(&self) -> (r: Option<(usize, usize)>) {
        self.slicer.current()
    }

    fn advance(&mut self)
        ensures
            final(self).spec_layer() == old(self).spec_layer(),
    {
        self.slicer.advance()
    }

    fn reset(&mut self, layer: Option<usize>)
        ensures
            final(self).spec_layer() == (match layer {
                Some(l) => l,
                None => old(self).spec_layer(),
            }),
    {
        if let Some(l) = layer {
            self.layer = l;
        }
        self.slicer.reset(layer)
    }
}

} // verus!
