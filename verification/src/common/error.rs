use vstd::prelude::*;

verus! {

/// Errors reported by the storage and filesystem layers.
///
/// `Io` carries the text of the operating-system error that caused it.
#[derive(Debug, Clone, PartialEq, Eq)]
pub enum FfsError {
    Io(String),
    Corruption(String),
    NotFound(u64),
    AlreadyExists(String),
    ConsensusError(String),
    StorageError(String),
}

} // verus!
