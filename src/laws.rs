use vstd::prelude::*;

use crate::storage::{
    PhextStorage, RowModel, TableView, deleted, inserted, keep_rows, keyed_rows, can_insert, scan_of,
};
use crate::value::{Value, RowKey};

verus! {

/// A table that the backend does not hold scans as empty and is absent from every
/// metadata listing.
pub proof fn absent_table_is_empty_and_unlisted(
    s: PhextStorage,
    name: Seq<char>,
    listing: Seq<(String, Vec<(String, Value)>)>,
)
    requires
        s.wf(),
        !s@.contains_key(name),
        s.is_meta_listing(listing),
    ensures
        s.rows_of(name) == Seq::<RowModel>::empty(),
        forall|i: int| 0 <= i < listing.len() ==> (#[trigger] listing[i]).0@ != name,
{
    assert forall|i: int| 0 <= i < listing.len() implies (#[trigger] listing[i]).0@ != name by {
        assert(s@.contains_key(listing[i].0@));
    }
}

/// Right after a successful insert, a scan yields the earlier rows followed by the
/// inserted ones, with fresh keys; into an empty table, exactly the inserted rows.
pub proof fn insert_then_scan(m: Map<Seq<char>, TableView>, name: Seq<char>, cells: Seq<Seq<Value>>)
    requires
        can_insert(m, name, cells.len()),
    ensures
        scan_of(inserted(m, name, cells), name) == scan_of(m, name) + keyed_rows(m[name].next_key, cells),
        m[name].rows.len() == 0 ==> scan_of(inserted(m, name, cells), name).map_values(
            |p: RowModel| p.1,
        ) == cells,
        forall|i: int| 0 <= i < cells.len() ==> (#[trigger] keyed_rows(m[name].next_key, cells)[i]).0 >= m[name].next_key,
{
    let added = keyed_rows(m[name].next_key, cells);
    if m[name].rows.len() == 0 {
        assert(m[name].rows + added =~= added);
        assert(added.map_values(|p: RowModel| p.1) =~= cells);
    }
}

proof fn lemma_keep_rows_idempotent(rows: Seq<RowModel>, keys: Seq<RowKey>)
    ensures
        keep_rows(keep_rows(rows, keys), keys) == keep_rows(rows, keys),
    decreases rows.len(),
{
    if rows.len() > 0 {
        let prev = keep_rows(rows.drop_last(), keys);
        lemma_keep_rows_idempotent(rows.drop_last(), keys);
        if !keys.contains(rows.last().0) {
            let once = prev.push(rows.last());
            assert(once.drop_last() =~= prev);
        }
    }
}

/// Deleting the same keys a second time changes nothing more.
pub proof fn delete_twice_is_idempotent(m: Map<Seq<char>, TableView>, name: Seq<char>, keys: Seq<RowKey>)
    ensures
        deleted(deleted(m, name, keys), name, keys) == deleted(m, name, keys),
{
    if m.contains_key(name) {
        lemma_keep_rows_idempotent(m[name].rows, keys);
        assert(deleted(deleted(m, name, keys), name, keys) =~= deleted(m, name, keys));
    }
}

} // verus!
