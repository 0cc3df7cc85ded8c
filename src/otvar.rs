//! The variation structures of OpenType: tuple variation stores with their
//! packed points, packed deltas and headers, and item variation stores.
use crate::error::Error;
use vstd::prelude::*;

pub mod itemvariationstore;
pub mod packeddeltas;
pub mod packedpoints;
pub mod tuplevariationheader;
pub mod tuplevariationstore;

verus! {

/// A displacement of one glyph point (two axes) or one CVT value (one axis).
#[derive(Debug, Clone, Copy, PartialEq, Eq)]
pub enum Delta {
    /// A one-dimensional delta, as in the `cvt` variations.
    Delta1D(i16),
    /// A two-dimensional delta, as in the glyph variations.
    Delta2D((i16, i16)),
}

impl DeepView for Delta {
    type V = Delta;

    open spec fn deep_view(&self) -> Delta {
        *self
    }
}

impl Delta {
    /// The X,Y pair of a two-dimensional delta; a one-dimensional one gives
    /// `NotTwoAxis`.
    pub fn get_2d(&self) -> (r: Result<(i16, i16), Error>)
        ensures
            match *self {
                Delta::Delta2D(p) => r == Ok::<(i16, i16), Error>(p),
                Delta::Delta1D(_) => r == Err::<(i16, i16), Error>(Error::NotTwoAxis),
            },
    {
        match self {
            Delta::Delta2D(p) => Ok(*p),
            Delta::Delta1D(_) => Err(Error::NotTwoAxis),
        }
    }
}

} // verus!
