//! The capability that names the layers of a cell map.

use vstd::prelude::*;

verus! {

/// A closed, ordered set of layer names.
///
/// Implementors are small enumerations whose variants stand for the layers of
/// a map, numbered `0 .. num_layers()` in a fixed order. The map stores one
/// grid per layer and trusts this numbering to be stable: the same value must
/// always map to the same index, and every index below the count must name
/// exactly one value.
pub trait Layer: Sized + Clone {
    /// How many layers the set has.
    ///
    /// The body below is a placeholder for implementations that live outside
    /// verified code and never override it; an implementation within verified
    /// code overrides it with its real count, since the contract of
    /// [`Layer::num_layers`] cannot be met over the placeholder.
    open spec fn spec_num_layers() -> int {
        0
    }

    /// The stable position of this layer value in the set's order.
    ///
    /// As with [`Layer::spec_num_layers`], the body below is a placeholder
    /// for implementations outside verified code.
    open spec fn spec_to_index(&self) -> int {
        0
    }

    /// The number of layers in the set; every map of this layer set holds
    /// exactly this many grids.
    fn num_layers() -> (r: usize)
        ensures
            r == Self::spec_num_layers(),
            r >= 1,
    ;

    /// The position of this layer in the set's order.
    fn to_index(&self) -> (r: usize)
        ensures
            r == self.spec_to_index(),
            r < Self::spec_num_layers(),
    ;

    /// The layer at position `index` of the set's order. Callers must keep
    /// `index` below the count; there is no layer to return otherwise.
    fn from_index(index: usize) -> (r: Self)
        requires
            index < Self::spec_num_layers(),
        ensures
            r.spec_to_index() == index,
    ;

    /// Every layer of the set, in order.
    fn all() -> (r: Vec<Self>)
        ensures
            r@.len() == Self::spec_num_layers(),
            forall|i: int| 0 <= i < r@.len() ==> (#[trigger] r@[i]).spec_to_index() == i,
    ;
}

} // verus!
