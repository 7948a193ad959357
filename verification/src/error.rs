//! Errors of the core library.
use vstd::prelude::*;

verus! {

/// An error of a ReasonDB operation.
#[derive(Debug, Clone, PartialEq, Eq)]
pub enum ReasonError {
    /// Authentication failed (malformed or unknown API key).
    Auth(String),
    /// No node has the given ID.
    NodeNotFound(String),
    /// No document has the given ID.
    DocumentNotFound(String),
    /// A value could not be encoded or decoded.
    Serialization(String),
    /// The storage engine failed.
    Storage(String),
}

/// The error type of authentication operations.
pub type ReasonDBError = ReasonError;

} // verus!

verus! {

/// `e` is `NodeNotFound` naming `id`.
pub open spec fn is_node_not_found(e: ReasonError, id: Seq<char>) -> bool {
    match e {
        ReasonError::NodeNotFound(m) => m@ == id,
        _ => false,
    }
}

/// `e` is `DocumentNotFound` naming `id`.
pub open spec fn is_document_not_found(e: ReasonError, id: Seq<char>) -> bool {
    match e {
        ReasonError::DocumentNotFound(m) => m@ == id,
        _ => false,
    }
}

} // verus!
