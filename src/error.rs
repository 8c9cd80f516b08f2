use vstd::prelude::*;

verus! {

/// Errors reported by the storage backend.
#[derive(Debug, Clone, PartialEq)]
pub enum StorageError {
    /// A backend-reported failure with a human-readable message.
    StorageMsg(String),
    /// The addressed table or row does not exist.
    NotFound,
    /// A table of that name already exists.
    AlreadyExists,
}

/// Message returned by every index operation of this backend.
pub open spec fn index_unsupported_msg() -> Seq<char> {
    "[PhextStorage] index is not supported"@
}

/// Message returned when an explicit transaction is requested.
pub open spec fn transaction_unsupported_msg() -> Seq<char> {
    "[PhextStorage] transaction is not supported"@
}

/// Message returned when a table has no keys left to allocate.
pub open spec fn keys_exhausted_msg() -> Seq<char> {
    "[PhextStorage] row keys exhausted"@
}

/// `r` is a failure carrying exactly the backend message `msg`.
pub open spec fn fails_with_msg<T>(r: Result<T, StorageError>, msg: Seq<char>) -> bool {
    match r {
        Err(StorageError::StorageMsg(m)) => m@ == msg,
        _ => false,
    }
}

pub fn index_unsupported() -> (e: StorageError)
    ensures
        fails_with_msg(Err::<(), StorageError>(e), index_unsupported_msg()),
{
    StorageError::StorageMsg("[PhextStorage] index is not supported".to_owned())
}

pub fn transaction_unsupported() -> (e: StorageError)
    ensures
        fails_with_msg(Err::<(), StorageError>(e), transaction_unsupported_msg()),
{
    StorageError::StorageMsg("[PhextStorage] transaction is not supported".to_owned())
}

pub fn keys_exhausted() -> (e: StorageError)
    ensures
        fails_with_msg(Err::<(), StorageError>(e), keys_exhausted_msg()),
{
    StorageError::StorageMsg("[PhextStorage] row keys exhausted".to_owned())
}

} // verus!
