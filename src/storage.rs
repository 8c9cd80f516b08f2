use vstd::prelude::*;

use crate::error::{StorageError, fails_with_msg, keys_exhausted, keys_exhausted_msg};
use crate::value::{Value, RowKey, copy_row};

verus! {

/// The model of a stored row: its key and its cells.
pub type RowModel = (RowKey, Seq<Value>);

/// The model of one table.
pub struct TableView {
    /// Stored rows in scan order.
    pub rows: Seq<RowModel>,
    /// The key that the next inserted row receives.
    pub next_key: nat,
    /// Descriptive metadata of the table.
    pub meta: Seq<(Seq<char>, Value)>,
}

pub open spec fn row_model(p: (RowKey, Vec<Value>)) -> RowModel {
    (p.0, p.1@)
}

pub open spec fn meta_model(p: (String, Value)) -> (Seq<char>, Value) {
    (p.0@, p.1)
}

/// Every row key is below `bound`.
pub open spec fn keys_below(rows: Seq<RowModel>, bound: nat) -> bool {
    forall|a: int| 0 <= a < rows.len() ==> (#[trigger] rows[a]).0 < bound
}

/// What a scan of `name` yields in the state `m`: its rows, or nothing where no such table exists.
pub open spec fn scan_of(m: Map<Seq<char>, TableView>, name: Seq<char>) -> Seq<RowModel> {
    if m.contains_key(name) {
        m[name].rows
    } else {
        Seq::empty()
    }
}

pub open spec fn cells_model(rows: Seq<Vec<Value>>) -> Seq<Seq<Value>> {
    rows.map_values(|r: Vec<Value>| r@)
}

/// The rows an insert appends: the i-th one receives key `first + i`.
pub open spec fn keyed_rows(first: nat, cells: Seq<Seq<Value>>) -> Seq<RowModel> {
    Seq::new(cells.len(), |i: int| ((first + i) as RowKey, cells[i]))
}

/// `name` exists in `m` and has keys left for `n` more rows.
pub open spec fn can_insert(m: Map<Seq<char>, TableView>, name: Seq<char>, n: nat) -> bool {
    m.contains_key(name) && m[name].next_key + n <= u64::MAX
}

/// The state after `cells` were inserted into `name`.
pub open spec fn inserted(
    m: Map<Seq<char>, TableView>,
    name: Seq<char>,
    cells: Seq<Seq<Value>>,
) -> Map<Seq<char>, TableView> {
    m.insert(
        name,
        TableView {
            rows: m[name].rows + keyed_rows(m[name].next_key, cells),
            next_key: m[name].next_key + cells.len(),
            meta: m[name].meta,
        },
    )
}

/// Some row of `rows` has key `key`.
pub open spec fn has_key(rows: Seq<RowModel>, key: RowKey) -> bool {
    exists|a: int| 0 <= a < rows.len() && (#[trigger] rows[a]).0 == key
}

/// Every update addresses a key present in `rows`.
pub open spec fn all_keys_present(rows: Seq<RowModel>, ups: Seq<RowModel>) -> bool {
    forall|u: int| 0 <= u < ups.len() ==> has_key(rows, (#[trigger] ups[u]).0)
}

/// `rows` with the cells of every row keyed `key` replaced by `cells`.
pub open spec fn replace_row(rows: Seq<RowModel>, key: RowKey, cells: Seq<Value>) -> Seq<RowModel> {
    Seq::new(rows.len(), |a: int| if rows[a].0 == key { (key, cells) } else { rows[a] })
}

/// `rows` with the updates applied in order.
pub open spec fn apply_updates(rows: Seq<RowModel>, ups: Seq<RowModel>) -> Seq<RowModel>
    decreases ups.len(),
{
    if ups.len() == 0 {
        rows
    } else {
        replace_row(apply_updates(rows, ups.drop_last()), ups.last().0, ups.last().1)
    }
}

/// The state after the updates `ups` were applied to `name`.
pub open spec fn updated(
    m: Map<Seq<char>, TableView>,
    name: Seq<char>,
    ups: Seq<RowModel>,
) -> Map<Seq<char>, TableView> {
    m.insert(
        name,
        TableView {
            rows: apply_updates(m[name].rows, ups),
            next_key: m[name].next_key,
            meta: m[name].meta,
        },
    )
}

/// The rows of `rows` whose key is not among `keys`, in their order.
pub open spec fn keep_rows(rows: Seq<RowModel>, keys: Seq<RowKey>) -> Seq<RowModel>
    decreases rows.len(),
{
    if rows.len() == 0 {
        Seq::empty()
    } else {
        let prev = keep_rows(rows.drop_last(), keys);
        if keys.contains(rows.last().0) {
            prev
        } else {
            prev.push(rows.last())
        }
    }
}

/// The state after the rows keyed by `keys` were deleted from `name`; unchanged where no such table exists.
pub open spec fn deleted(
    m: Map<Seq<char>, TableView>,
    name: Seq<char>,
    keys: Seq<RowKey>,
) -> Map<Seq<char>, TableView> {
    if m.contains_key(name) {
        m.insert(
            name,
            TableView { rows: keep_rows(m[name].rows, keys), next_key: m[name].next_key, meta: m[name].meta },
        )
    } else {
        m
    }
}

proof fn lemma_keep_rows_bound(rows: Seq<RowModel>, keys: Seq<RowKey>, bound: nat)
    requires
        keys_below(rows, bound),
    ensures
        keys_below(keep_rows(rows, keys), bound),
    decreases rows.len(),
{
    if rows.len() > 0 {
        lemma_keep_rows_bound(rows.drop_last(), keys, bound);
    }
}

/// One named table: its rows in insertion order, the next free key, and its metadata.
pub struct Table {
    pub(crate) name: String,
    pub(crate) rows: Vec<(RowKey, Vec<Value>)>,
    pub(crate) next_key: RowKey,
    pub(crate) meta: Vec<(String, Value)>,
}

impl Table {
    pub closed spec fn view(&self) -> TableView {
        TableView {
            rows: self.rows@.map_values(|p: (RowKey, Vec<Value>)| row_model(p)),
            next_key: self.next_key as nat,
            meta: self.meta@.map_values(|p: (String, Value)| meta_model(p)),
        }
    }

    pub closed spec fn wf(&self) -> bool {
        keys_below(self.view().rows, self.next_key as nat)
    }
}

/// An in-memory storage backend: a set of named tables of keyed rows.
pub struct PhextStorage {
    pub(crate) tables: Vec<Table>,
}

impl PhextStorage {
    /// Table names are unique and every table is well formed.
    pub closed spec fn wf(&self) -> bool {
        &&& forall|i: int, j: int|
            0 <= i < self.tables@.len() && 0 <= j < self.tables@.len() && i != j
                ==> #[trigger] self.tables@[i].name@ != #[trigger] self.tables@[j].name@
        &&& forall|i: int| 0 <= i < self.tables@.len() ==> (#[trigger] self.tables@[i]).wf()
    }

    pub closed spec fn names(&self) -> Seq<Seq<char>> {
        self.tables@.map_values(|t: Table| t.name@)
    }

    pub closed spec fn index_of(&self, name: Seq<char>) -> int {
        choose|i: int| 0 <= i < self.tables@.len() && self.tables@[i].name@ == name
    }

    /// Each table, by name.
    pub closed spec fn view(&self) -> Map<Seq<char>, TableView> {
        Map::new(
            |n: Seq<char>| self.names().contains(n),
            |n: Seq<char>| self.tables@[self.index_of(n)].view(),
        )
    }

    /// `r` lists every table once, by name, with its metadata.
    pub open spec fn is_meta_listing(&self, r: Seq<(String, Vec<(String, Value)>)>) -> bool {
        &&& r.len() == self@.len()
        &&& forall|i: int| 0 <= i < r.len() ==> self@.contains_key((#[trigger] r[i]).0@)
            && self@[r[i].0@].meta == r[i].1@.map_values(|p: (String, Value)| meta_model(p))
        &&& forall|n: Seq<char>| #[trigger] self@.contains_key(n) ==> exists|i: int| 0 <= i < r.len() && (#[trigger] r[i]).0@ == n
        &&& forall|i: int, j: int| 0 <= i < r.len() && 0 <= j < r.len() && i != j ==> (#[trigger] r[i]).0@ != (#[trigger] r[j]).0@
    }

    /// What a scan of `name` yields: its rows, or nothing where no such table exists.
    pub open spec fn rows_of(&self, name: Seq<char>) -> Seq<RowModel> {
        scan_of(self@, name)
    }

    proof fn lemma_index(&self, i: int)
        requires
            self.wf(),
            0 <= i < self.tables@.len(),
        ensures
            self@.contains_key(self.tables@[i].name@),
            self.index_of(self.tables@[i].name@) == i,
            self@[self.tables@[i].name@] == self.tables@[i].view(),
    {
        let n = self.tables@[i].name@;
        assert(self.names()[i] == n);
        let j = self.index_of(n);
        assert(0 <= j < self.tables@.len() && self.tables@[j].name@ == n);
    }

    proof fn lemma_absent(&self, name: Seq<char>)
        requires
            forall|j: int| 0 <= j < self.tables@.len() ==> self.tables@[j].name@ != name,
        ensures
            !self@.contains_key(name),
    {
        if self.names().contains(name) {
            let k = choose|k: int| 0 <= k < self.names().len() && self.names()[k] == name;
            assert(self.tables@[k].name@ == name);
        }
    }

    /// Replacing the table at `i` by one of the same name changes that entry alone.
    proof fn lemma_replace(old: PhextStorage, new: PhextStorage, i: int, t: Table)
        requires
            old.wf(),
            0 <= i < old.tables@.len(),
            t.name@ == old.tables@[i].name@,
            t.wf(),
            new.tables@ == old.tables@.update(i, t),
        ensures
            new.wf(),
            new@ == old@.insert(t.name@, t.view()),
    {
        assert(new.wf());
        let m = old@.insert(t.name@, t.view());
        assert forall|n: Seq<char>| new@.contains_key(n) <==> m.contains_key(n) by {
            if new@.contains_key(n) {
                let k = choose|k: int| 0 <= k < new.names().len() && new.names()[k] == n;
                assert(new.tables@[k].name@ == n);
                old.lemma_index(k);
            }
            if old@.contains_key(n) {
                let k = choose|k: int| 0 <= k < old.names().len() && old.names()[k] == n;
                assert(old.tables@[k].name@ == n);
                new.lemma_index(k);
            }
            if n == t.name@ {
                new.lemma_index(i);
            }
        }
        assert forall|n: Seq<char>| new@.contains_key(n) implies new@[n] == m[n] by {
            let k = choose|k: int| 0 <= k < new.names().len() && new.names()[k] == n;
            assert(new.tables@[k].name@ == n);
            new.lemma_index(k);
            old.lemma_index(k);
        }
        assert(new@ =~= m);
    }

    /// Adding a table of a fresh name adds that entry alone.
    proof fn lemma_push(old: PhextStorage, new: PhextStorage, t: Table)
        requires
            old.wf(),
            !old@.contains_key(t.name@),
            t.wf(),
            new.tables@ == old.tables@.push(t),
        ensures
            new.wf(),
            new@ == old@.insert(t.name@, t.view()),
    {
        let len = old.tables@.len() as int;
        assert forall|i: int| 0 <= i < len implies old.tables@[i].name@ != t.name@ by {
            old.lemma_index(i);
        }
        assert forall|i: int, j: int|
            0 <= i < new.tables@.len() && 0 <= j < new.tables@.len() && i != j
                implies #[trigger] new.tables@[i].name@ != #[trigger] new.tables@[j].name@ by {
            if i < len && j < len {
                assert(old.tables@[i].name@ != old.tables@[j].name@);
            }
        }
        assert(new.wf());
        let m = old@.insert(t.name@, t.view());
        assert forall|n: Seq<char>| new@.contains_key(n) <==> m.contains_key(n) by {
            if new@.contains_key(n) {
                let k = choose|k: int| 0 <= k < new.names().len() && new.names()[k] == n;
                assert(new.tables@[k].name@ == n);
                if k < len {
                    old.lemma_index(k);
                }
            }
            if old@.contains_key(n) {
                let k = choose|k: int| 0 <= k < old.names().len() && old.names()[k] == n;
                assert(old.tables@[k].name@ == n);
                new.lemma_index(k);
            }
            if n == t.name@ {
                new.lemma_index(len);
            }
        }
        assert forall|n: Seq<char>| new@.contains_key(n) implies new@[n] == m[n] by {
            let k = choose|k: int| 0 <= k < new.names().len() && new.names()[k] == n;
            assert(new.tables@[k].name@ == n);
            new.lemma_index(k);
            if k < len {
                old.lemma_index(k);
            }
        }
        assert(new@ =~= m);
    }

    /// Removing the table at `i` removes that entry alone.
    proof fn lemma_remove(old: PhextStorage, new: PhextStorage, i: int)
        requires
            old.wf(),
            0 <= i < old.tables@.len(),
            new.tables@ == old.tables@.remove(i),
        ensures
            new.wf(),
            new@ == old@.remove(old.tables@[i].name@),
    {
        let name = old.tables@[i].name@;
        let len = new.tables@.len() as int;
        assert forall|a: int, b: int|
            0 <= a < len && 0 <= b < len && a != b
                implies #[trigger] new.tables@[a].name@ != #[trigger] new.tables@[b].name@ by {
            let oa = if a < i { a } else { a + 1 };
            let ob = if b < i { b } else { b + 1 };
            assert(new.tables@[a] == old.tables@[oa]);
            assert(new.tables@[b] == old.tables@[ob]);
            assert(old.tables@[oa].name@ != old.tables@[ob].name@);
        }
        assert forall|a: int| 0 <= a < len implies (#[trigger] new.tables@[a]).wf() by {
            let oa = if a < i { a } else { a + 1 };
            assert(new.tables@[a] == old.tables@[oa]);
        }
        assert(new.wf());
        let m = old@.remove(name);
        assert forall|n: Seq<char>| new@.contains_key(n) <==> m.contains_key(n) by {
            if new@.contains_key(n) {
                let k = choose|k: int| 0 <= k < new.names().len() && new.names()[k] == n;
                assert(new.tables@[k].name@ == n);
                let ok = if k < i { k } else { k + 1 };
                assert(new.tables@[k] == old.tables@[ok]);
                old.lemma_index(ok);
            }
            if m.contains_key(n) {
                let k = choose|k: int| 0 <= k < old.names().len() && old.names()[k] == n;
                assert(old.tables@[k].name@ == n);
                assert(k != i);
                let nk = if k < i { k } else { k - 1 };
                assert(new.tables@[nk] == old.tables@[k]);
                new.lemma_index(nk);
            }
        }
        assert forall|n: Seq<char>| new@.contains_key(n) implies new@[n] == m[n] by {
            let k = choose|k: int| 0 <= k < new.names().len() && new.names()[k] == n;
            assert(new.tables@[k].name@ == n);
            let ok = if k < i { k } else { k + 1 };
            assert(new.tables@[k] == old.tables@[ok]);
            new.lemma_index(k);
            old.lemma_index(ok);
        }
        assert(new@ =~= m);
    }
}


fn copy_meta(meta: &Vec<(String, Value)>) -> (r: Vec<(String, Value)>)
    ensures
        r@ == meta@,
{
    let mut out: Vec<(String, Value)> = Vec::new();
    let mut i: usize = 0;
    while i < meta.len()
        invariant
            i <= meta@.len(),
            out@ == meta@.take(i as int),
        decreases meta@.len() - i,
    {
        out.push((meta[i].0.clone(), meta[i].1.duplicate()));
        proof {
            assert(meta@.take(i + 1) == meta@.take(i as int).push(meta@[i as int]));
        }
        i += 1;
    }
    proof {
        assert(meta@.take(meta@.len() as int) == meta@);
    }
    out
}

fn copy_rows(rows: &Vec<(RowKey, Vec<Value>)>) -> (r: Vec<(RowKey, Vec<Value>)>)
    ensures
        r@.map_values(|p: (RowKey, Vec<Value>)| row_model(p)) == rows@.map_values(
            |p: (RowKey, Vec<Value>)| row_model(p),
        ),
{
    let mut out: Vec<(RowKey, Vec<Value>)> = Vec::new();
    let mut i: usize = 0;
    while i < rows.len()
        invariant
            i <= rows@.len(),
            out@.len() == i,
            forall|a: int| 0 <= a < i ==> row_model(#[trigger] out@[a]) == row_model(rows@[a]),
        decreases rows@.len() - i,
    {
        out.push((rows[i].0, copy_row(&rows[i].1)));
        i += 1;
    }
    assert(out@.map_values(|p: (RowKey, Vec<Value>)| row_model(p)) =~= rows@.map_values(
        |p: (RowKey, Vec<Value>)| row_model(p),
    ));
    out
}

fn contains_key(keys: &Vec<RowKey>, key: RowKey) -> (r: bool)
    ensures
        r == keys@.contains(key),
{
    let mut i: usize = 0;
    while i < keys.len()
        invariant
            i <= keys@.len(),
            forall|j: int| 0 <= j < i ==> keys@[j] != key,
        decreases keys@.len() - i,
    {
        if keys[i] == key {
            assert(keys@[i as int] == key);
            return true;
        }
        i += 1;
    }
    false
}

fn row_key_present(rows: &Vec<(RowKey, Vec<Value>)>, key: RowKey) -> (r: bool)
    ensures
        r == has_key(rows@.map_values(|p: (RowKey, Vec<Value>)| row_model(p)), key),
{
    let ghost model = rows@.map_values(|p: (RowKey, Vec<Value>)| row_model(p));
    let mut a: usize = 0;
    while a < rows.len()
        invariant
            a <= rows@.len(),
            model == rows@.map_values(|p: (RowKey, Vec<Value>)| row_model(p)),
            forall|b: int| 0 <= b < a ==> model[b].0 != key,
        decreases rows@.len() - a,
    {
        if rows[a].0 == key {
            assert(model[a as int].0 == key);
            return true;
        }
        a += 1;
    }
    false
}

fn replace_in(rows: &Vec<(RowKey, Vec<Value>)>, key: RowKey, cells: &Vec<Value>) -> (r: Vec<(RowKey, Vec<Value>)>)
    ensures
        r@.map_values(|p: (RowKey, Vec<Value>)| row_model(p)) == replace_row(
            rows@.map_values(|p: (RowKey, Vec<Value>)| row_model(p)),
            key,
            cells@,
        ),
{
    let ghost model = rows@.map_values(|p: (RowKey, Vec<Value>)| row_model(p));
    let mut out: Vec<(RowKey, Vec<Value>)> = Vec::new();
    let mut a: usize = 0;
    while a < rows.len()
        invariant
            a <= rows@.len(),
            model == rows@.map_values(|p: (RowKey, Vec<Value>)| row_model(p)),
            out@.len() == a,
            forall|b: int| 0 <= b < a ==> row_model(#[trigger] out@[b]) == replace_row(model, key, cells@)[b],
        decreases rows@.len() - a,
    {
        if rows[a].0 == key {
            out.push((key, copy_row(cells)));
        } else {
            out.push((rows[a].0, copy_row(&rows[a].1)));
        }
        a += 1;
    }
    assert(out@.map_values(|p: (RowKey, Vec<Value>)| row_model(p)) =~= replace_row(model, key, cells@));
    out
}

impl PhextStorage {
    /// An empty backend.
    pub fn new() -> (r: PhextStorage)
        ensures
            r.wf(),
            r@ == Map::<Seq<char>, TableView>::empty(),
    {
        let r = PhextStorage { tables: Vec::new() };
        proof {
            r.lemma_absent_eq_empty();
        }
        r
    }

    proof fn lemma_absent_eq_empty(&self)
        requires
            self.tables@.len() == 0,
        ensures
            self.wf(),
            self@ == Map::<Seq<char>, TableView>::empty(),
    {
        assert forall|n: Seq<char>| !self@.contains_key(n) by {
            self.lemma_absent(n);
        }
        assert(self@ =~= Map::<Seq<char>, TableView>::empty());
    }

    fn find(&self, name: &String) -> (r: Option<usize>)
        requires
            self.wf(),
        ensures
            match r {
                Some(i) => i < self.tables@.len() && self.tables@[i as int].name@ == name@
                    && self@.contains_key(name@) && self@[name@] == self.tables@[i as int].view(),
                None => !self@.contains_key(name@),
            },
    {
        let mut i: usize = 0;
        while i < self.tables.len()
            invariant
                self.wf(),
                i <= self.tables@.len(),
                forall|j: int| 0 <= j < i ==> self.tables@[j].name@ != name@,
            decreases self.tables@.len() - i,
        {
            if self.tables[i].name == *name {
                proof {
                    self.lemma_index(i as int);
                }
                return Some(i);
            }
            i += 1;
        }
        proof {
            self.lemma_absent(name@);
        }
        None
    }

    /// Creates an empty table `table_name` with the metadata `meta`; fails where the name is taken.
    pub fn create_table(&mut self, table_name: &str, meta: Vec<(String, Value)>) -> (r: Result<(), StorageError>)
        requires
            old(self).wf(),
        ensures
            final(self).wf(),
            old(self)@.contains_key(table_name@) ==> r == Err::<(), StorageError>(StorageError::AlreadyExists)
                && final(self)@ == old(self)@,
            !old(self)@.contains_key(table_name@) ==> r == Ok::<(), StorageError>(()) && final(self)@
                == old(self)@.insert(
                table_name@,
                TableView {
                    rows: Seq::empty(),
                    next_key: 0,
                    meta: meta@.map_values(|p: (String, Value)| meta_model(p)),
                },
            ),
    {
        let name = table_name.to_owned();
        match self.find(&name) {
            Some(_) => Err(StorageError::AlreadyExists),
            None => {
                let t = Table { name, rows: Vec::new(), next_key: 0, meta };
                let ghost pre = *self;
                self.tables.push(t);
                proof {
                    assert(t.view().rows =~= Seq::<RowModel>::empty());
                    PhextStorage::lemma_push(pre, *self, t);
                }
                Ok(())
            },
        }
    }

    /// Removes the table `table_name` with its rows; does nothing where there is none.
    pub fn drop_table(&mut self, table_name: &str)
        requires
            old(self).wf(),
        ensures
            final(self).wf(),
            final(self)@ == old(self)@.remove(table_name@),
    {
        let name = table_name.to_owned();
        match self.find(&name) {
            Some(i) => {
                let ghost pre = *self;
                let _ = self.tables.remove(i);
                proof {
                    PhextStorage::lemma_remove(pre, *self, i as int);
                }
            },
            None => {
                assert(self@.remove(table_name@) =~= self@);
            },
        }
    }

    /// The rows of `table_name` with their keys; empty where there is no such table.
    pub fn scan_data(&self, table_name: &str) -> (r: Vec<(RowKey, Vec<Value>)>)
        requires
            self.wf(),
        ensures
            r@.map_values(|p: (RowKey, Vec<Value>)| row_model(p)) == self.rows_of(table_name@),
            r@.len() == self.rows_of(table_name@).len(),
            forall|i: int| 0 <= i < r@.len() ==> row_model(#[trigger] r@[i]) == self.rows_of(table_name@)[i],
    {
        let name = table_name.to_owned();
        match self.find(&name) {
            Some(i) => {
                let r = copy_rows(&self.tables[i].rows);
                assert(r@.len() == r@.map_values(|p: (RowKey, Vec<Value>)| row_model(p)).len());
                assert forall|i: int| 0 <= i < r@.len() implies row_model(#[trigger] r@[i])
                    == self.rows_of(table_name@)[i] by {
                    assert(r@.map_values(|p: (RowKey, Vec<Value>)| row_model(p))[i] == row_model(r@[i]));
                }
                r
            },
            None => {
                let r: Vec<(RowKey, Vec<Value>)> = Vec::new();
                assert(r@.map_values(|p: (RowKey, Vec<Value>)| row_model(p)) =~= Seq::<RowModel>::empty());
                r
            },
        }
    }

    /// The cells of the first row keyed `key` in `table_name`, if any.
    pub fn fetch_data(&self, table_name: &str, key: RowKey) -> (r: Option<Vec<Value>>)
        requires
            self.wf(),
        ensures
            r is None <==> !has_key(self.rows_of(table_name@), key),
            r matches Some(v) ==> self.rows_of(table_name@).contains((key, v@)),
    {
        let name = table_name.to_owned();
        match self.find(&name) {
            Some(i) => {
                let rows = &self.tables[i].rows;
                let ghost model = self.rows_of(table_name@);
                assert(model == rows@.map_values(|p: (RowKey, Vec<Value>)| row_model(p)));
                let mut a: usize = 0;
                while a < rows.len()
                    invariant
                        a <= rows@.len(),
                        model == self.rows_of(table_name@),
                        model == rows@.map_values(|p: (RowKey, Vec<Value>)| row_model(p)),
                        forall|b: int| 0 <= b < a ==> model[b].0 != key,
                    decreases rows@.len() - a,
                {
                    if rows[a].0 == key {
                        let v = copy_row(&rows[a].1);
                        assert(model[a as int] == row_model(rows@[a as int]));
                        assert(model[a as int] == (key, v@));
                        assert(has_key(model, key));
                        assert(model.contains((key, v@)));
                        return Some(v);
                    }
                    a += 1;
                }
                assert(!has_key(model, key));
                None
            },
            None => None,
        }
    }

    /// One entry per table: its name and its metadata.
    pub fn scan_table_meta(&self) -> (r: Vec<(String, Vec<(String, Value)>)>)
        requires
            self.wf(),
        ensures
            self.is_meta_listing(r@),
    {
        let mut out: Vec<(String, Vec<(String, Value)>)> = Vec::new();
        let mut i: usize = 0;
        while i < self.tables.len()
            invariant
                self.wf(),
                i <= self.tables@.len(),
                out@.len() == i,
                forall|a: int| 0 <= a < i ==> (#[trigger] out@[a]).0@ == self.tables@[a].name@
                    && out@[a].1@ == self.tables@[a].meta@,
            decreases self.tables@.len() - i,
        {
            out.push((self.tables[i].name.clone(), copy_meta(&self.tables[i].meta)));
            i += 1;
        }
        proof {
            assert forall|a: int| 0 <= a < out@.len() implies self@.contains_key((#[trigger] out@[a]).0@)
                && self@[out@[a].0@].meta == out@[a].1@.map_values(|p: (String, Value)| meta_model(p)) by {
                self.lemma_index(a);
            }
            assert forall|n: Seq<char>| #[trigger] self@.contains_key(n) implies exists|a: int| 0 <= a < out@.len() && (#[trigger] out@[a]).0@ == n by {
                let k = choose|k: int| 0 <= k < self.names().len() && self.names()[k] == n;
                assert(out@[k].0@ == n);
            }
            assert(self@.dom() =~= self.names().to_set());
            self.names().unique_seq_to_set();
            assert(self.names().no_duplicates());
        }
        assert(self@.len() == out@.len()) by {
            self.names().unique_seq_to_set();
        }
        out
    }

    /// Appends `rows`, keying them from the table's next key on.
    pub fn insert_data(&mut self, table_name: &str, rows: Vec<Vec<Value>>) -> (r: Result<(), StorageError>)
        requires
            old(self).wf(),
        ensures
            final(self).wf(),
            !old(self)@.contains_key(table_name@) ==> r == Err::<(), StorageError>(StorageError::NotFound)
                && final(self)@ == old(self)@,
            old(self)@.contains_key(table_name@) && !can_insert(old(self)@, table_name@, rows@.len())
                ==> fails_with_msg(r, keys_exhausted_msg()) && final(self)@ == old(self)@,
            can_insert(old(self)@, table_name@, rows@.len()) ==> r == Ok::<(), StorageError>(())
                && final(self)@ == inserted(old(self)@, table_name@, cells_model(rows@)),
    {
        let name = table_name.to_owned();
        match self.find(&name) {
            None => Err(StorageError::NotFound),
            Some(i) => {
                let nk = self.tables[i].next_key;
                if rows.len() as u64 > u64::MAX - nk {
                    return Err(keys_exhausted());
                }
                let ghost pre = *self;
                let ghost old_rows = self.tables@[i as int].view().rows;
                let ghost cells = cells_model(rows@);
                let mut t = self.tables.remove(i);
                let mut j: usize = 0;
                while j < rows.len()
                    invariant
                        j <= rows@.len(),
                        nk + rows@.len() <= u64::MAX,
                        t.next_key == nk,
                        t.name@ == pre.tables@[i as int].name@,
                        t.meta@ == pre.tables@[i as int].meta@,
                        cells == cells_model(rows@),
                        t.view().rows == old_rows + keyed_rows(nk as nat, cells).take(j as int),
                        keys_below(t.view().rows, (nk + j) as nat),
                    decreases rows@.len() - j,
                {
                    let ghost prev = t.view().rows;
                    let row = copy_row(&rows[j]);
                    t.rows.push((nk + j as u64, row));
                    proof {
                        assert(cells[j as int] == rows@[j as int]@);
                        assert(t.view().rows =~= prev.push(((nk + j) as RowKey, rows@[j as int]@)));
                        assert(keyed_rows(nk as nat, cells).take(j + 1) =~= keyed_rows(nk as nat, cells).take(
                            j as int,
                        ).push(((nk + j) as RowKey, rows@[j as int]@)));
                        assert(t.view().rows =~= old_rows + keyed_rows(nk as nat, cells).take(j + 1));
                        assert forall|a: int| 0 <= a < t.view().rows.len() implies (#[trigger] t.view().rows[a]).0 < (nk + j + 1) as nat by {
                            if a < prev.len() {
                                assert(t.view().rows[a] == prev[a]);
                            }
                        }
                    }
                    j += 1;
                }
                t.next_key = nk + rows.len() as u64;
                proof {
                    assert(keyed_rows(nk as nat, cells).take(rows@.len() as int) =~= keyed_rows(nk as nat, cells));
                }
                self.tables.insert(i, t);
                proof {
                    assert(self.tables@ =~= pre.tables@.update(i as int, t));
                    PhextStorage::lemma_replace(pre, *self, i as int, t);
                    assert(t.view() == TableView {
                        rows: pre@[table_name@].rows + keyed_rows(pre@[table_name@].next_key, cells),
                        next_key: pre@[table_name@].next_key + cells.len(),
                        meta: pre@[table_name@].meta,
                    });
                }
                Ok(())
            },
        }
    }
    /// Replaces the cells of the rows at the given keys, all or nothing: fails with `NotFound`
    /// where the table or one of the keys is missing.
    pub fn update_data(&mut self, table_name: &str, rows: Vec<(RowKey, Vec<Value>)>) -> (r: Result<(), StorageError>)
        requires
            old(self).wf(),
        ensures
            final(self).wf(),
            !old(self)@.contains_key(table_name@) ==> r == Err::<(), StorageError>(StorageError::NotFound)
                && final(self)@ == old(self)@,
            old(self)@.contains_key(table_name@) && !all_keys_present(
                old(self)@[table_name@].rows,
                rows@.map_values(|p: (RowKey, Vec<Value>)| row_model(p)),
            ) ==> r == Err::<(), StorageError>(StorageError::NotFound) && final(self)@ == old(self)@,
            old(self)@.contains_key(table_name@) && all_keys_present(
                old(self)@[table_name@].rows,
                rows@.map_values(|p: (RowKey, Vec<Value>)| row_model(p)),
            ) ==> r == Ok::<(), StorageError>(()) && final(self)@ == updated(
                old(self)@,
                table_name@,
                rows@.map_values(|p: (RowKey, Vec<Value>)| row_model(p)),
            ),
    {
        let name = table_name.to_owned();
        let i = match self.find(&name) {
            None => {
                return Err(StorageError::NotFound);
            },
            Some(i) => i,
        };
        let ghost ups = rows@.map_values(|p: (RowKey, Vec<Value>)| row_model(p));
        let ghost old_rows = self.tables@[i as int].view().rows;
        let mut u: usize = 0;
        while u < rows.len()
            invariant
                self.wf(),
                i < self.tables@.len(),
                old_rows == self.tables@[i as int].view().rows,
                self@.contains_key(table_name@),
                self@[table_name@] == self.tables@[i as int].view(),
                ups == rows@.map_values(|p: (RowKey, Vec<Value>)| row_model(p)),
                u <= rows@.len(),
                forall|v: int| 0 <= v < u ==> has_key(old_rows, (#[trigger] ups[v]).0),
            decreases rows@.len() - u,
        {
            if !row_key_present(&self.tables[i].rows, rows[u].0) {
                assert(!has_key(old_rows, ups[u as int].0));
                assert(!all_keys_present(old_rows, ups));
                return Err(StorageError::NotFound);
            }
            u += 1;
        }
        let ghost pre = *self;
        let mut t = self.tables.remove(i);
        let mut u: usize = 0;
        while u < rows.len()
            invariant
                ups == rows@.map_values(|p: (RowKey, Vec<Value>)| row_model(p)),
                u <= rows@.len(),
                t.name@ == pre.tables@[i as int].name@,
                t.next_key == pre.tables@[i as int].next_key,
                t.meta@ == pre.tables@[i as int].meta@,
                t.view().rows == apply_updates(old_rows, ups.take(u as int)),
                t.wf(),
            decreases rows@.len() - u,
        {
            let ghost prev = t.view().rows;
            let new_rows = replace_in(&t.rows, rows[u].0, &rows[u].1);
            t.rows = new_rows;
            proof {
                assert(ups.take(u + 1).drop_last() =~= ups.take(u as int));
                assert(ups[u as int] == row_model(rows@[u as int]));
                assert forall|a: int| 0 <= a < t.view().rows.len() implies (#[trigger] t.view().rows[a]).0
                    < t.next_key as nat by {
                    assert(prev[a].0 < t.next_key as nat);
                }
            }
            u += 1;
        }
        proof {
            assert(ups.take(rows@.len() as int) =~= ups);
        }
        self.tables.insert(i, t);
        proof {
            assert(self.tables@ =~= pre.tables@.update(i as int, t));
            PhextStorage::lemma_replace(pre, *self, i as int, t);
        }
        Ok(())
    }

    /// Removes the rows at the given keys; keys without a row, and a missing table, are ignored.
    pub fn delete_data(&mut self, table_name: &str, keys: Vec<RowKey>) -> (r: Result<(), StorageError>)
        requires
            old(self).wf(),
        ensures
            final(self).wf(),
            r == Ok::<(), StorageError>(()),
            final(self)@ == deleted(old(self)@, table_name@, keys@),
    {
        let name = table_name.to_owned();
        let i = match self.find(&name) {
            None => {
                return Ok(());
            },
            Some(i) => i,
        };
        let ghost pre = *self;
        let mut t = self.tables.remove(i);
        let ghost old_rows = t.view().rows;
        let mut kept: Vec<(RowKey, Vec<Value>)> = Vec::new();
        let mut a: usize = 0;
        while a < t.rows.len()
            invariant
                a <= t.rows@.len(),
                old_rows == t.view().rows,
                kept@.map_values(|p: (RowKey, Vec<Value>)| row_model(p)) == keep_rows(
                    old_rows.take(a as int),
                    keys@,
                ),
            decreases t.rows@.len() - a,
        {
            let ghost prev = kept@.map_values(|p: (RowKey, Vec<Value>)| row_model(p));
            proof {
                assert(old_rows.take(a + 1).drop_last() =~= old_rows.take(a as int));
                assert(old_rows[a as int] == row_model(t.rows@[a as int]));
            }
            if !contains_key(&keys, t.rows[a].0) {
                kept.push((t.rows[a].0, copy_row(&t.rows[a].1)));
                assert(kept@.map_values(|p: (RowKey, Vec<Value>)| row_model(p)) =~= prev.push(old_rows[a as int]));
            }
            a += 1;
        }
        proof {
            assert(old_rows.take(old_rows.len() as int) =~= old_rows);
            lemma_keep_rows_bound(old_rows, keys@, t.next_key as nat);
        }
        t.rows = kept;
        self.tables.insert(i, t);
        proof {
            assert(self.tables@ =~= pre.tables@.update(i as int, t));
            PhextStorage::lemma_replace(pre, *self, i as int, t);
        }
        Ok(())
    }
}

impl Default for PhextStorage {
    fn default() -> (r: PhextStorage)
        ensures
            r.wf(),
            r@ == Map::<Seq<char>, TableView>::empty(),
    {
        PhextStorage::new()
    }
}

} // verus!
