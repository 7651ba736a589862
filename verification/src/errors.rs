//! Typed errors reported by the storage engine.
//!
//! Every fallible operation of this crate reports one of the kinds below;
//! nothing is retried or recovered internally.
use vstd::prelude::*;

verus! {

/// The kind of failure a storage operation reports.
#[derive(Clone, Copy, Debug, PartialEq, Eq, Structural)]
pub enum ErrorKind {
    /// Stored bytes do not parse into the expected shape.
    Decode,
    /// No index exists for the queried entity.
    NotFound,
}

/// An error reported by the storage engine: a failure kind together with a
/// short description.
#[derive(Clone, Copy, Debug)]
pub struct StorageError {
    /// Which kind of failure happened.
    pub kind: ErrorKind,
    /// A short human-readable description of the failure.
    pub message: &'static str,
}

impl StorageError {
    /// The error reported when stored bytes do not parse.
    pub fn decode_error() -> (r: StorageError)
        ensures
            r.kind == ErrorKind::Decode,
    {
        StorageError { kind: ErrorKind::Decode, message: "stored bytes do not decode" }
    }

    /// The error reported when no index exists for the queried entity.
    pub fn not_found() -> (r: StorageError)
        ensures
            r.kind == ErrorKind::NotFound,
    {
        StorageError { kind: ErrorKind::NotFound, message: "failed to find index data" }
    }
}

/// The result type used by every fallible storage operation.
pub type StorageResult<T> = Result<T, StorageError>;

} // verus!
