use vstd::prelude::*;

verus! {

/// A software version: major, minor and patch numbers.
#[derive(Debug, Clone, Copy, PartialEq, Eq, Structural)]
pub struct Version {
    pub major: u64,
    pub minor: u64,
    pub patch: u64,
}

/// Why a handle lost its authority to write.
#[derive(Debug, Clone, Copy, PartialEq, Eq, Structural)]
pub enum FenceError {
    /// A strictly larger epoch was observed in the log.
    Epoch { current_epoch: u64, fence_epoch: u64 },
    /// Another writer advanced the log's upper first.
    Upper { expected: u64, current: u64 },
}

/// An invariant of the log that was found broken: a defect or a torn log.
///
/// These are never to be masked: a caller that receives one must stop.
#[derive(Debug, Clone, Copy, PartialEq, Eq, Structural)]
pub enum Violation {
    /// A value was inserted for a key that already holds a live value.
    DuplicateInsert,
    /// A retraction did not match the live value of its key.
    MismatchedRetraction,
    /// A consolidated diff was neither +1 nor -1.
    InvalidDiff,
    /// The observed epoch went backwards.
    EpochRegressed { current_epoch: u64, observed_epoch: u64 },
    /// A key held more than one live value.
    MultipleValues,
    /// The epoch cannot be incremented any further.
    EpochExhausted,
}

/// Errors of the durable catalog.
#[derive(Debug, Clone, Copy, PartialEq, Eq, Structural)]
pub enum DurableCatalogError {
    /// This handle has been superseded and must be abandoned.
    Fence(FenceError),
    /// A mutation was attempted where none is allowed.
    NotWritable,
    /// A query was made before the catalog was initialized.
    Uninitialized,
    /// The version recorded in the upgrade shard cannot be read by this code.
    IncompatiblePersistVersion { found_version: Version, catalog_version: Version },
    /// A log invariant is broken (fatal).
    Corrupt(Violation),
}

} // verus!
