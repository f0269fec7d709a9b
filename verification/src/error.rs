//! The failures of the engine.

use vstd::prelude::*;

verus! {

/// The ways in which an operation of the engine can fail.
#[derive(Clone, Copy, Debug, PartialEq, Eq, Structural)]
pub enum EngineError {
    /// An index was to be built from no vectors at all.
    EmptyInput,
    /// A vector does not have the dimension of the index it meets.
    DimensionMismatch,
    /// Storage could not be read or written. The library does no reading and
    /// writing itself: this is for the code around it that stores blobs.
    IoError,
    /// A persisted blob is not the encoding of any index.
    CorruptData,
    /// A search returned a row for which the identifier mapping has no entry.
    UnknownRow { row: usize },
}

} // verus!
