use vstd::prelude::*;

use crate::error::{StorageError, fails_with_msg, index_unsupported, index_unsupported_msg};
use crate::storage::PhextStorage;
use crate::value::{Value, RowKey};

verus! {

/// A comparison that an indexed scan prunes by.
#[derive(Debug, Clone, Copy, PartialEq, Eq)]
pub enum IndexOperator {
    Gt,
    Lt,
    GtEq,
    LtEq,
    Eq,
}

/// The column expression an index is built over, with its order.
#[derive(Debug, Clone, PartialEq)]
pub struct OrderByExpr {
    pub column: String,
    pub asc: Option<bool>,
}

impl PhextStorage {
    /// Indexed scans are declined, whatever the arguments.
    pub fn scan_indexed_data(
        &self,
        _table_name: &str,
        _index_name: &str,
        _asc: Option<bool>,
        _cmp_value: Option<(IndexOperator, Value)>,
    ) -> (r: Result<Vec<(RowKey, Vec<Value>)>, StorageError>)
        ensures
            fails_with_msg(r, index_unsupported_msg()),
    {
        Err(index_unsupported())
    }

    /// Index creation is declined, whatever the arguments; the backend is left as it was.
    pub fn create_index(&mut self, _table_name: &str, _index_name: &str, _column: &OrderByExpr) -> (r: Result<(), StorageError>)
        ensures
            fails_with_msg(r, index_unsupported_msg()),
            *final(self) == *old(self),
    {
        Err(index_unsupported())
    }

    /// Index removal is declined, whatever the arguments; the backend is left as it was.
    pub fn drop_index(&mut self, _table_name: &str, _index_name: &str) -> (r: Result<(), StorageError>)
        ensures
            fails_with_msg(r, index_unsupported_msg()),
            *final(self) == *old(self),
    {
        Err(index_unsupported())
    }
}

} // verus!
