//! The errors that the term store reports to its callers.

use vstd::prelude::*;

verus! {

#[derive(Debug, Clone, PartialEq, Eq, Structural)]
pub enum StoreError {
    /// An operation that requires an existing term, version or review named an unknown one.
    NotFound,
    /// The term is held by an unexpired lock of another collaborator.
    AlreadyLocked,
    /// A release was attempted by a collaborator that does not hold the lock.
    LockNotOwned,
    /// A version with this identifier already exists.
    DuplicateVersion,
    /// Writing the store's snapshot failed; the in-memory state is kept.
    PersistenceFailure,
    /// A required field is missing (an empty Hebrew or Russian text).
    ValidationFailure,
}

impl StoreError {
    /// A short English description of the error.
    pub fn message(&self) -> (r: &'static str) {
        match self {
            StoreError::NotFound => "not found",
            StoreError::AlreadyLocked => "already locked",
            StoreError::LockNotOwned => "lock not owned",
            StoreError::DuplicateVersion => "duplicate version",
            StoreError::PersistenceFailure => "persistence failure",
            StoreError::ValidationFailure => "validation failure",
        }
    }
}

} // verus!
