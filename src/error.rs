use vstd::prelude::*;

verus! {

/// The ways in which decoding can fail.
#[derive(Debug, Clone, Copy, PartialEq, Eq)]
pub enum Error {
    /// Fewer bytes remain than the value being read needs.
    Eof,
    /// A primitive that this binary format never uses (floating point, text).
    UnsupportedPrimitive,
    /// A count read from the stream disagrees with the data that follows it.
    CountMismatch,
    /// A shape of data that the engine cannot interpret.
    InvalidTag,
    /// A point index that is out of order or beyond the number of points.
    InvalidPoint,
    /// A one-axis delta was asked for its two-axis form.
    NotTwoAxis,
    /// Bytes remain after a decode that was asked to use up its input.
    TrailingBytes,
}

} // verus!
