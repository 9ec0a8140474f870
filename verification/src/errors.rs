//! Error taxonomy of the store and of the record codec.

use vstd::prelude::*;

verus! {

/// Errors a store operation can report.
///
/// The in-memory store itself only ever produces `DuplicateKey`; the other
/// variants exist so that a backend adapter can surface pool exhaustion,
/// schema failures and transactional faults through the same type.
#[derive(Debug, PartialEq, Eq)]
pub enum StoreError {
    /// An insert carried a `msg_id` already present in the target table.
    DuplicateKey,
    /// The connection pool was exhausted or the backend is unreachable.
    Connection,
    /// Creating a table failed at startup.
    Schema,
    /// Any other transactional failure, surfaced to the caller.
    Backend,
}

/// Errors the record codec can report.
#[derive(Debug, PartialEq, Eq)]
pub enum CodecError {
    /// A row column was absent or of the wrong shape.
    MalformedRow,
}

impl StoreError {
    /// A short human-readable description of the error.
    pub fn message(&self) -> (r: &'static str)
        ensures
            self is DuplicateKey ==> r@ == "duplicate msg_id"@,
            self is Connection ==> r@ == "connection failure"@,
            self is Schema ==> r@ == "schema initialization failure"@,
            self is Backend ==> r@ == "backend failure"@,
    {
        match self {
            StoreError::DuplicateKey => "duplicate msg_id",
            StoreError::Connection => "connection failure",
            StoreError::Schema => "schema initialization failure",
            StoreError::Backend => "backend failure",
        }
    }
}

impl CodecError {
    /// A short human-readable description of the error.
    pub fn message(&self) -> (r: &'static str)
        ensures
            r@ == "malformed row"@,
    {
        match self {
            CodecError::MalformedRow => "malformed row",
        }
    }
}

} // verus!
