use vstd::prelude::*;

verus! {

/// Failure of the underlying ordered key-value store, or a stored entry
/// that this subsystem cannot interpret.
#[derive(Debug, Clone, PartialEq, Eq)]
pub enum StoreError {
    /// The storage backend reported a failure (disk full, permission
    /// denied, corruption inside the engine). Carries the backend's
    /// description of what went wrong.
    Io(String),
    /// A stored entry owned by this subsystem does not have the shape
    /// this subsystem writes.
    Corrupt,
}

/// Failure of the compression codec while encoding or decoding a stream.
#[derive(Debug, Clone, PartialEq, Eq)]
pub enum CodecError {
    /// The stream could not be encoded or decoded; carries the codec's
    /// description of the failure.
    Stream(String),
}

/// Why an upload was refused.
#[derive(Debug, Clone, PartialEq, Eq)]
pub enum UploadError {
    /// Admitting the payload would exceed the token's rolling-window
    /// byte quota. A normal outcome, not a fault.
    RateLimitExceeded,
    /// The metadata store or ledger failed.
    Storage(StoreError),
    /// The payload could not be compressed.
    Compression(CodecError),
}

/// Why a deletion was refused. `NotFound` is kept distinct from
/// `KeyMismatch` so callers can answer differently.
#[derive(Debug, Clone, PartialEq, Eq)]
pub enum DeleteError {
    /// No record under the identifier (or its stored bytes do not decode).
    NotFound,
    /// The candidate secret does not hash to the stored deletion key.
    KeyMismatch,
    /// The metadata store failed.
    Storage(StoreError),
}

} // verus!
