use vstd::prelude::*;

verus! {

/// A set of named bits kept in one machine integer.
pub trait BitSet {
    type Repr;

    /// The raw integer that holds the bits.
    fn as_inner(&self) -> &Self::Repr;

    /// The raw integer that holds the bits, for changing it in place.
    fn as_inner_mut(&mut self) -> &mut Self::Repr;
}

} // verus!
