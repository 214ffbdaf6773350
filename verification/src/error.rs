//! The ways in which a job, or one part of it, can fail.

use vstd::prelude::*;

verus! {

/// The errors of the pipeline. The first five end the job and are handed to
/// the caller. The last three concern one endpoint or one tile: they are
/// reported for the record while the job goes on.
#[derive(Debug, Clone, Copy, PartialEq, Eq, Structural)]
pub enum JobError {
    /// The requested side is smaller than the matrix that is to be padded.
    DimensionTooSmall,
    /// The two matrices handed to the tiler are not square with one common side.
    NonSquareOrMismatched,
    /// The number of tiles is odd.
    OddTileCount,
    /// Half the number of tiles does not divide the side of the matrices.
    IndivisibleDimension,
    /// No session to any node could be opened.
    NoNodesAvailable,
    /// The candidate endpoint with this position in the list refused the session.
    NodeConnectFailed(usize),
    /// No result for the tile with this index arrived in time.
    TileTimeout(usize),
    /// The fetch for the tile with this index was answered with an error.
    TileResponseError(usize),
}

} // verus!
