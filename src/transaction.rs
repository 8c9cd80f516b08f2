use vstd::prelude::*;

use crate::error::{StorageError, fails_with_msg, transaction_unsupported, transaction_unsupported_msg};
use crate::storage::PhextStorage;

verus! {

impl PhextStorage {
    /// Autocommit is accepted and reports that no explicit transaction was started;
    /// an explicit transaction is declined. The backend is left as it was.
    pub fn begin(&mut self, autocommit: bool) -> (r: Result<bool, StorageError>)
        ensures
            *final(self) == *old(self),
            autocommit ==> r == Ok::<bool, StorageError>(false),
            !autocommit ==> fails_with_msg(r, transaction_unsupported_msg()),
    {
        if autocommit {
            return Ok(false);
        }
        Err(transaction_unsupported())
    }

    /// Always succeeds, with or without a preceding `begin`.
    pub fn rollback(&mut self) -> (r: Result<(), StorageError>)
        ensures
            *final(self) == *old(self),
            r == Ok::<(), StorageError>(()),
    {
        Ok(())
    }

    /// Always succeeds, with or without a preceding `begin`.
    pub fn commit(&mut self) -> (r: Result<(), StorageError>)
        ensures
            *final(self) == *old(self),
            r == Ok::<(), StorageError>(()),
    {
        Ok(())
    }
}

} // verus!
