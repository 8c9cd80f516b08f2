use phext_storage::error::StorageError;
use phext_storage::index::{IndexOperator, OrderByExpr};
use phext_storage::storage::PhextStorage;
use phext_storage::value::Value;

fn index_declined() -> StorageError {
    StorageError::StorageMsg("[PhextStorage] index is not supported".to_owned())
}

fn transaction_declined() -> StorageError {
    StorageError::StorageMsg("[PhextStorage] transaction is not supported".to_owned())
}

fn id_column() -> OrderByExpr {
    OrderByExpr { column: "id".to_owned(), asc: None }
}

#[test]
fn phext_storage_index() {
    let mut storage = PhextStorage::default();

    assert_eq!(storage.scan_data("Idx").len(), 0);
    assert_eq!(
        storage.scan_indexed_data("Idx", "hello", None, None).map(|_| ()),
        Err(index_declined())
    );

    assert_eq!(storage.create_table("Idx", vec![]), Ok(()));
    assert_eq!(storage.create_index("Idx", "idx_id", &id_column()), Err(index_declined()));
    assert_eq!(storage.drop_index("Idx", "idx_id"), Err(index_declined()));
}

#[test]
fn phext_storage_transaction() {
    let mut storage = PhextStorage::default();

    assert_eq!(storage.create_table("TxTest", vec![]), Ok(()));
    assert_eq!(storage.begin(false), Err(transaction_declined()));
    assert_eq!(storage.commit(), Ok(()));
    assert_eq!(storage.rollback(), Ok(()));
}

#[test]
fn missing_table_scans_empty_and_is_unlisted() {
    let mut storage = PhextStorage::new();
    storage.create_table("Other", vec![]).unwrap();
    assert!(storage.scan_data("Missing").is_empty());
    let listing = storage.scan_table_meta();
    assert_eq!(listing.len(), 1);
    assert_eq!(listing[0].0, "Other");
    assert!(listing.iter().all(|(name, _)| name != "Missing"));
}

#[test]
fn dropped_table_is_unlisted_and_scans_empty() {
    let mut storage = PhextStorage::new();
    storage.create_table("Gone", vec![]).unwrap();
    storage.insert_data("Gone", vec![vec![Value::I64(1)]]).unwrap();
    storage.drop_table("Gone");
    assert!(storage.scan_table_meta().is_empty());
    assert!(storage.scan_data("Gone").is_empty());
    storage.drop_table("Gone");
    assert!(storage.scan_table_meta().is_empty());
}

#[test]
fn metadata_listing_carries_each_tables_record() {
    let mut storage = PhextStorage::new();
    storage
        .create_table("A", vec![("owner".to_owned(), Value::Str("ann".to_owned()))])
        .unwrap();
    storage.create_table("B", vec![]).unwrap();
    let mut listing = storage.scan_table_meta();
    listing.sort_by(|a, b| a.0.cmp(&b.0));
    assert_eq!(
        listing,
        vec![
            ("A".to_owned(), vec![("owner".to_owned(), Value::Str("ann".to_owned()))]),
            ("B".to_owned(), vec![]),
        ]
    );
}

#[test]
fn insert_then_scan_round_trips_with_null() {
    let mut storage = PhextStorage::new();
    storage.create_table("api_test", vec![]).unwrap();
    let rows = vec![
        vec![
            Value::I64(1),
            Value::Str("test1".to_owned()),
            Value::Str("not null".to_owned()),
            Value::Bool(true),
        ],
        vec![Value::I64(2), Value::Str("test2".to_owned()), Value::Null, Value::Bool(false)],
    ];
    assert_eq!(storage.insert_data("api_test", rows.clone()), Ok(()));
    let scanned = storage.scan_data("api_test");
    assert_eq!(scanned, vec![(0, rows[0].clone()), (1, rows[1].clone())]);
    assert_eq!(scanned[1].1[2], Value::Null);
    assert_eq!(scanned[0].1[2], Value::Str("not null".to_owned()));
}

#[test]
fn insert_assigns_fresh_increasing_keys() {
    let mut storage = PhextStorage::new();
    storage.create_table("T", vec![]).unwrap();
    storage.insert_data("T", vec![vec![Value::I64(10)], vec![Value::I64(11)]]).unwrap();
    storage.delete_data("T", vec![1]).unwrap();
    storage.insert_data("T", vec![vec![Value::I64(12)]]).unwrap();
    let keys: Vec<u64> = storage.scan_data("T").iter().map(|(k, _)| *k).collect();
    assert_eq!(keys, vec![0, 2]);
}

#[test]
fn insert_into_missing_table_is_not_found() {
    let mut storage = PhextStorage::new();
    assert_eq!(storage.insert_data("Nope", vec![vec![Value::Null]]), Err(StorageError::NotFound));
    assert!(storage.scan_table_meta().is_empty());
}

#[test]
fn insert_of_no_rows_changes_nothing() {
    let mut storage = PhextStorage::new();
    storage.create_table("T", vec![]).unwrap();
    assert_eq!(storage.insert_data("T", vec![]), Ok(()));
    assert!(storage.scan_data("T").is_empty());
}

#[test]
fn delete_twice_is_not_an_error() {
    let mut storage = PhextStorage::new();
    storage.create_table("T", vec![]).unwrap();
    storage
        .insert_data("T", vec![vec![Value::I64(1)], vec![Value::I64(2)], vec![Value::I64(3)]])
        .unwrap();
    assert_eq!(storage.delete_data("T", vec![1]), Ok(()));
    let once = storage.scan_data("T");
    assert_eq!(storage.delete_data("T", vec![1]), Ok(()));
    assert_eq!(storage.scan_data("T"), once);
    assert_eq!(once, vec![(0, vec![Value::I64(1)]), (2, vec![Value::I64(3)])]);
}

#[test]
fn delete_on_missing_table_is_a_no_op() {
    let mut storage = PhextStorage::new();
    assert_eq!(storage.delete_data("Nope", vec![0, 7]), Ok(()));
    assert!(storage.scan_data("Nope").is_empty());
}

#[test]
fn update_replaces_rows_at_existing_keys() {
    let mut storage = PhextStorage::new();
    storage.create_table("T", vec![]).unwrap();
    storage.insert_data("T", vec![vec![Value::I64(1)], vec![Value::I64(2)]]).unwrap();
    assert_eq!(
        storage.update_data("T", vec![(1, vec![Value::Str("two".to_owned())])]),
        Ok(())
    );
    assert_eq!(
        storage.scan_data("T"),
        vec![(0, vec![Value::I64(1)]), (1, vec![Value::Str("two".to_owned())])]
    );
    assert_eq!(storage.fetch_data("T", 1), Some(vec![Value::Str("two".to_owned())]));
}

#[test]
fn update_of_missing_key_fails_and_changes_nothing() {
    let mut storage = PhextStorage::new();
    storage.create_table("T", vec![]).unwrap();
    storage.insert_data("T", vec![vec![Value::I64(1)]]).unwrap();
    assert_eq!(
        storage.update_data("T", vec![(0, vec![Value::I64(9)]), (5, vec![Value::I64(9)])]),
        Err(StorageError::NotFound)
    );
    assert_eq!(storage.scan_data("T"), vec![(0, vec![Value::I64(1)])]);
    assert_eq!(
        storage.update_data("Nope", vec![(0, vec![Value::Null])]),
        Err(StorageError::NotFound)
    );
}

#[test]
fn fetch_of_missing_key_is_none() {
    let mut storage = PhextStorage::new();
    storage.create_table("T", vec![]).unwrap();
    storage.insert_data("T", vec![vec![Value::Bool(true)]]).unwrap();
    assert_eq!(storage.fetch_data("T", 0), Some(vec![Value::Bool(true)]));
    assert_eq!(storage.fetch_data("T", 1), None);
    assert_eq!(storage.fetch_data("Nope", 0), None);
}

#[test]
fn creating_a_table_twice_fails() {
    let mut storage = PhextStorage::new();
    assert_eq!(storage.create_table("T", vec![]), Ok(()));
    storage.insert_data("T", vec![vec![Value::I64(4)]]).unwrap();
    assert_eq!(storage.create_table("T", vec![]), Err(StorageError::AlreadyExists));
    assert_eq!(storage.scan_data("T"), vec![(0, vec![Value::I64(4)])]);
}

#[test]
fn begin_with_autocommit_reports_no_transaction() {
    let mut storage = PhextStorage::new();
    assert_eq!(storage.begin(true), Ok(false));
    storage.create_table("T", vec![]).unwrap();
    assert_eq!(storage.begin(true), Ok(false));
}

#[test]
fn commit_and_rollback_succeed_after_declined_begin() {
    let mut storage = PhextStorage::new();
    assert_eq!(storage.begin(false), Err(transaction_declined()));
    assert_eq!(storage.rollback(), Ok(()));
    assert_eq!(storage.begin(false), Err(transaction_declined()));
    assert_eq!(storage.commit(), Ok(()));
    assert_eq!(storage.commit(), Ok(()));
}

#[test]
fn index_calls_are_declined_on_any_arguments() {
    let mut storage = PhextStorage::new();
    storage.create_table("T", vec![]).unwrap();
    storage.insert_data("T", vec![vec![Value::I64(1)]]).unwrap();
    let cmp = Some((IndexOperator::GtEq, Value::I64(0)));
    assert_eq!(storage.scan_indexed_data("T", "i", Some(true), cmp).map(|_| ()), Err(index_declined()));
    assert_eq!(
        storage.scan_indexed_data("Nope", "", Some(false), Some((IndexOperator::Eq, Value::Null))).map(|_| ()),
        Err(index_declined())
    );
    let odd = OrderByExpr { column: "".to_owned(), asc: Some(false) };
    assert_eq!(storage.create_index("Nope", "", &odd), Err(index_declined()));
    assert_eq!(storage.drop_index("T", "never"), Err(index_declined()));
    assert_eq!(storage.scan_data("T"), vec![(0, vec![Value::I64(1)])]);
}
