// A store of named text documents: seeded once from a directory of files,
// then listed, read and updated by identifier through one owning handle.
// Identifiers are handed out in increasing order and never reused. Replacing
// a document's text overwrites it in place: the version stays as seeded and
// no history is kept. Callers that share the store serialize access to it
// behind one lock.
use vstd::prelude::*;

pub mod document;
pub mod feedback;
pub mod laws;
pub mod order;
pub mod store;

verus! {

/// Why a store operation did not complete.
#[derive(PartialEq, Eq, Structural, Clone, Copy, Debug)]
pub enum StoreError {
    /// No document carries the requested identifier.
    NotFound,
    /// The backing storage could not complete the operation.
    StorageError,
}

} // verus!
