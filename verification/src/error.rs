//! The errors of this library.

use vstd::prelude::*;

verus! {

/// What can go wrong in an operation of this library. Each error ends the
/// operation that raised it.
#[derive(Clone, Debug, PartialEq, Eq)]
pub enum AccelError {
    /// A raster with no rows or no columns was given.
    EmptyArray,
    /// Fewer than two edges were left of a path after equal neighbours had
    /// been merged.
    InsufficientNumberOfEdges,
    /// The edges of a path do not follow one another.
    SegmentedPath,
    /// The spatial index could not be built; the message says why.
    SpatialIndex(String),
    /// The origin or the destination of an edge could not be decoded.
    EdgeEndpointInvalid,
    /// A resolution beyond the finest one was given.
    InvalidResolution,
    /// An identifier in a column of cells is not that of a cell.
    CellInvalid,
}

} // verus!
