//! The versioned, transactional field store that keeps a wallet between
//! sessions.
//!
//! A [`Database`] is the state that the host keeps for one named database:
//! its schema version, its object stores and their rows. An
//! [`IndexedDbStorage`] names one object store of a database at one schema
//! version; it holds no connection and opens the database anew for every
//! operation.

use vstd::prelude::*;
use vstd::slice::slice_to_vec;
use vstd::string::StringExecFns;
use crate::fields::{batch_view, bytes_view, stored_under, write_all, FieldWrite};

verus! {

/// Why an operation on the store failed.
#[derive(Clone, Copy, Debug, PartialEq, Eq, Structural)]
pub enum StorageError {
    /// The host offers no persistent storage.
    StoreUnavailable,
    /// The database is already at a later schema version.
    VersionConflict,
    /// The transaction could not run: the object store does not exist.
    TransactionFailed,
}

/// One stored value: the object store it is in, its key and its bytes.
#[derive(Debug, PartialEq, Eq)]
struct Row {
    store: String,
    key: String,
    value: Vec<u8>,
}

/// Whether `rows` has a row under `key` in `store`.
spec fn has_row(rows: Seq<Row>, store: Seq<char>, key: Seq<char>) -> bool {
    exists|i: int| 0 <= i < rows.len() && (#[trigger] rows[i]).store@ == store && rows[i].key@ == key
}

/// The position of the row under `key` in `store`.
spec fn row_at(rows: Seq<Row>, store: Seq<char>, key: Seq<char>) -> int {
    choose|i: int| 0 <= i < rows.len() && (#[trigger] rows[i]).store@ == store && rows[i].key@ == key
}

/// Whether no two rows share both store and key.
spec fn unique_rows(rows: Seq<Row>) -> bool {
    forall|i: int, j: int|
        0 <= i < j < rows.len() ==> !((#[trigger] rows[i]).store@ == (#[trigger] rows[j]).store@
            && rows[i].key@ == rows[j].key@)
}

/// The stored values by store and key.
spec fn rows_map(rows: Seq<Row>) -> Map<(Seq<char>, Seq<char>), Seq<u8>> {
    Map::new(
        |at: (Seq<char>, Seq<char>)| has_row(rows, at.0, at.1),
        |at: (Seq<char>, Seq<char>)| rows[row_at(rows, at.0, at.1)].value@,
    )
}

/// Whether `names` holds `name`.
spec fn has_name(names: Seq<String>, name: Seq<char>) -> bool {
    exists|i: int| 0 <= i < names.len() && (#[trigger] names[i])@ == name
}

/// The names in `names`, as a set.
spec fn names_set(names: Seq<String>) -> Set<Seq<char>> {
    Set::new(|name: Seq<char>| has_name(names, name))
}

/// The mathematical content of a [`Database`].
pub struct DatabaseView {
    /// Whether the host offers persistent storage.
    pub available: bool,
    /// Whether another context keeps the database open at its present
    /// version, so that no upgrade can begin.
    pub held_open: bool,
    /// The schema version; 0 before the database is first opened.
    pub version: u32,
    /// The names of the object stores that exist.
    pub stores: Set<Seq<char>>,
    /// The stored values by store and key.
    pub rows: Map<(Seq<char>, Seq<char>), Seq<u8>>,
}

impl DatabaseView {
    /// What the object store `store` holds, by key. A store that does not
    /// exist holds nothing.
    pub open spec fn contents(self, store: Seq<char>) -> Map<Seq<char>, Seq<u8>> {
        Map::new(
            |key: Seq<char>| self.rows.contains_key((store, key)),
            |key: Seq<char>| self.rows[(store, key)],
        )
    }

    /// The database with `value` stored under `key` in `store`.
    pub open spec fn put(self, store: Seq<char>, key: Seq<char>, value: Seq<u8>) -> DatabaseView {
        DatabaseView { rows: self.rows.insert((store, key), value), ..self }
    }

    /// The database after the writes of `batch` to `store`, in order.
    pub open spec fn put_all(self, store: Seq<char>, batch: Seq<(Seq<char>, Seq<u8>)>) -> DatabaseView
        decreases batch.len(),
    {
        if batch.len() == 0 {
            self
        } else {
            self.put_all(store, batch.drop_last()).put(store, batch.last().0, batch.last().1)
        }
    }

    /// The database after the upgrade hook of a handle on `store` at
    /// `version` has run for a database that was at `old_version`: where the
    /// handle's version is later, the object store exists and the database
    /// is at the handle's version at least; otherwise nothing has changed.
    /// No row is touched, no store removed and the version never lowered.
    pub open spec fn upgrade(self, store: Seq<char>, version: u32, old_version: u32) -> DatabaseView {
        if old_version < version {
            DatabaseView {
                version: if self.version < version {
                    version
                } else {
                    self.version
                },
                stores: self.stores.insert(store),
                ..self
            }
        } else {
            self
        }
    }
}

/// What opening a database did.
#[derive(Clone, Copy, Debug, PartialEq, Eq, Structural)]
pub struct OpenReport {
    /// The version that the upgrade hook found, where it ran; `None` where
    /// the database was already at the handle's version and the hook did not
    /// run.
    pub upgraded_from: Option<u32>,
}

/// What a handle on `store` at `version` finds when it opens `db`, and the
/// database after it.
pub open spec fn open_spec(db: DatabaseView, store: Seq<char>, version: u32) -> (
    Result<OpenReport, StorageError>,
    DatabaseView,
) {
    if !db.available {
        (Err(StorageError::StoreUnavailable), db)
    } else if version < db.version {
        (Err(StorageError::VersionConflict), db)
    } else if version > db.version {
        if db.held_open {
            (Err(StorageError::StoreUnavailable), db)
        } else {
            (
                Ok(OpenReport { upgraded_from: Some(db.version) }),
                db.upgrade(store, version, db.version),
            )
        }
    } else {
        (Ok(OpenReport { upgraded_from: None }), db)
    }
}

/// What a transaction on `store` through a handle at `version` finds: the
/// error of the open, or of a missing object store, or the database as the
/// open left it.
pub open spec fn begin_spec(db: DatabaseView, store: Seq<char>, version: u32) -> Result<
    DatabaseView,
    StorageError,
> {
    match open_spec(db, store, version).0 {
        Err(error) => Err(error),
        Ok(_) => {
            let opened = open_spec(db, store, version).1;
            if opened.stores.contains(store) {
                Ok(opened)
            } else {
                Err(StorageError::TransactionFailed)
            }
        },
    }
}

/// The state that the host keeps for one database.
#[derive(Debug, PartialEq, Eq)]
pub struct Database {
    available: bool,
    held_open: bool,
    version: u32,
    stores: Vec<String>,
    rows: Vec<Row>,
}

impl View for Database {
    type V = DatabaseView;

    closed spec fn view(&self) -> DatabaseView {
        DatabaseView {
            available: self.available,
            held_open: self.held_open,
            version: self.version,
            stores: names_set(self.stores@),
            rows: rows_map(self.rows@),
        }
    }
}

/// Replacing the bytes of the row at `at`, or adding a row where `at` is the
/// length, stores the bytes under the row's store and key and changes
/// nothing else.
proof fn lemma_put_row(rows: Seq<Row>, after: Seq<Row>, at: int, row: Row)
    requires
        unique_rows(rows),
        0 <= at <= rows.len(),
        at < rows.len() ==> rows[at].store@ == row.store@ && rows[at].key@ == row.key@ && after
            == rows.update(at, row),
        at == rows.len() ==> !has_row(rows, row.store@, row.key@) && after == rows.push(row),
    ensures
        unique_rows(after),
        rows_map(after) == rows_map(rows).insert((row.store@, row.key@), row.value@),
        forall|store: Seq<char>, key: Seq<char>|
            has_row(after, store, key) ==> has_row(rows, store, key) || (store == row.store@ && key
                == row.key@),
{
    let here = (row.store@, row.key@);
    assert(after[at] == row);
    assert forall|i: int| 0 <= i < after.len() && i != at implies #[trigger] after[i] == rows[i] by {}
    assert forall|i: int| 0 <= i < after.len() && i != at implies !((#[trigger] after[i]).store@
        == row.store@ && after[i].key@ == row.key@) by {
        if at < rows.len() {
            if i < at {
                assert(!(rows[i].store@ == rows[at].store@ && rows[i].key@ == rows[at].key@));
            } else {
                assert(!(rows[at].store@ == rows[i].store@ && rows[at].key@ == rows[i].key@));
            }
        } else {
            assert(rows[i] == after[i]);
        }
    }
    assert forall|i: int, j: int| 0 <= i < j < after.len() implies !((#[trigger] after[i]).store@
        == (#[trigger] after[j]).store@ && after[i].key@ == after[j].key@) by {
        if i != at && j != at {
            assert(!(rows[i].store@ == rows[j].store@ && rows[i].key@ == rows[j].key@));
        }
    }
    let expected = rows_map(rows).insert(here, row.value@);
    assert forall|p: (Seq<char>, Seq<char>)| rows_map(after).contains_key(p)
        == expected.contains_key(p) by {
        if has_row(after, p.0, p.1) {
            let k = row_at(after, p.0, p.1);
            if k != at {
                assert(rows[k].store@ == p.0 && rows[k].key@ == p.1);
            }
        }
        if has_row(rows, p.0, p.1) {
            let k = row_at(rows, p.0, p.1);
            if k != at {
                assert(after[k].store@ == p.0 && after[k].key@ == p.1);
            } else {
                assert(after[at].store@ == p.0 && after[at].key@ == p.1);
            }
        }
        if p == here {
            assert(after[at].store@ == p.0 && after[at].key@ == p.1);
        }
    }
    assert forall|p: (Seq<char>, Seq<char>)| rows_map(after).contains_key(p) implies rows_map(
        after,
    )[p] == expected[p] by {
        let k = row_at(after, p.0, p.1);
        if p == here {
            assert(k == at);
        } else {
            assert(k != at);
            assert(rows[k].store@ == p.0 && rows[k].key@ == p.1);
            let q = row_at(rows, p.0, p.1);
            if q < k {
                assert(!(rows[q].store@ == rows[k].store@ && rows[q].key@ == rows[k].key@));
            } else if k < q {
                assert(!(rows[k].store@ == rows[q].store@ && rows[k].key@ == rows[q].key@));
            }
        }
    }
    assert(rows_map(after) =~= expected);
    assert forall|store: Seq<char>, key: Seq<char>| has_row(after, store, key) implies has_row(
        rows,
        store,
        key,
    ) || (store == row.store@ && key == row.key@) by {
        let k = row_at(after, store, key);
        if k != at {
            assert(rows[k].store@ == store && rows[k].key@ == key);
        }
    }
}

/// The position in `rows` of the row under `key` in `store`.
fn find_row(rows: &Vec<Row>, store: &String, key: &String) -> (position: Option<usize>)
    ensures
        match position {
            Some(i) => i < rows@.len() && rows@[i as int].store@ == store@ && rows@[i as int].key@
                == key@,
            None => !has_row(rows@, store@, key@),
        },
{
    let mut i: usize = 0;
    while i < rows.len()
        invariant
            0 <= i <= rows@.len(),
            forall|j: int|
                0 <= j < i ==> !((#[trigger] rows@[j]).store@ == store@ && rows@[j].key@ == key@),
        decreases rows@.len() - i,
    {
        if rows[i].store == *store && rows[i].key == *key {
            return Some(i);
        }
        i += 1;
    }
    None
}

/// Whether `names` holds `name`.
fn find_name(names: &Vec<String>, name: &String) -> (found: bool)
    ensures
        found == has_name(names@, name@),
{
    let mut i: usize = 0;
    while i < names.len()
        invariant
            0 <= i <= names@.len(),
            forall|j: int| 0 <= j < i ==> (#[trigger] names@[j])@ != name@,
        decreases names@.len() - i,
    {
        if names[i] == *name {
            return true;
        }
        i += 1;
    }
    false
}

impl Database {
    #[verifier::type_invariant]
    spec fn well_formed(self) -> bool {
        &&& unique_rows(self.rows@)
        &&& forall|i: int|
            0 <= i < self.rows@.len() ==> has_name(self.stores@, (#[trigger] self.rows@[i]).store@)
        &&& self.version == 0 ==> self.stores@.len() == 0
    }

    /// A database that has never been opened, on a host that offers
    /// persistent storage and in no other context's hands.
    pub fn new() -> (db: Database)
        ensures
            db@.available,
            !db@.held_open,
            db@.version == 0,
            db@.stores == Set::<Seq<char>>::empty(),
            db@.rows == Map::<(Seq<char>, Seq<char>), Seq<u8>>::empty(),
    {
        let db = Database {
            available: true,
            held_open: false,
            version: 0,
            stores: Vec::new(),
            rows: Vec::new(),
        };
        assert(db@.stores =~= Set::<Seq<char>>::empty());
        assert(db@.rows =~= Map::<(Seq<char>, Seq<char>), Seq<u8>>::empty());
        db
    }

    /// States what holds of every database: rows are in object stores that
    /// exist, and a database that was never opened has none.
    pub fn check(&self)
        ensures
            forall|store: Seq<char>, key: Seq<char>|
                self@.rows.contains_key((store, key)) ==> self@.stores.contains(store),
            self@.version == 0 ==> self@.stores == Set::<Seq<char>>::empty(),
    {
        proof {
            use_type_invariant(self);
            assert forall|store: Seq<char>, key: Seq<char>|
                self@.rows.contains_key((store, key)) implies self@.stores.contains(store) by {
                let i = row_at(self.rows@, store, key);
                assert(has_name(self.stores@, self.rows@[i].store@));
            }
            if self.version == 0 {
                assert(self@.stores =~= Set::<Seq<char>>::empty());
            }
        }
    }

    /// Whether the host offers persistent storage.
    pub fn is_available(&self) -> (available: bool)
        ensures
            available == self@.available,
    {
        self.available
    }

    /// Switches the host's persistent storage on or off, as a browser does
    /// between ordinary and private windows.
    pub fn set_available(&mut self, available: bool)
        ensures
            final(self)@ == (DatabaseView { available, ..old(self)@ }),
    {
        proof {
            use_type_invariant(&*self);
        }
        self.available = available;
    }

    /// Whether another context keeps the database open.
    pub fn is_held_open(&self) -> (held_open: bool)
        ensures
            held_open == self@.held_open,
    {
        self.held_open
    }

    /// Says whether another context keeps the database open at its present
    /// version. While one does, no upgrade can begin.
    pub fn set_held_open(&mut self, held_open: bool)
        ensures
            final(self)@ == (DatabaseView { held_open, ..old(self)@ }),
    {
        proof {
            use_type_invariant(&*self);
        }
        self.held_open = held_open;
    }

    /// The schema version; 0 before the database is first opened.
    pub fn version(&self) -> (version: u32)
        ensures
            version == self@.version,
    {
        self.version
    }

    /// Whether the object store `store` exists.
    pub fn has_store(&self, store: &str) -> (exists: bool)
        ensures
            exists == self@.stores.contains(store@),
    {
        let name = String::from_str(store);
        find_name(&self.stores, &name)
    }

    /// The bytes stored under `key` in `store`.
    pub fn get(&self, store: &str, key: &str) -> (value: Option<Vec<u8>>)
        ensures
            bytes_view(value) == if self@.rows.contains_key((store@, key@)) {
                Some(self@.rows[(store@, key@)])
            } else {
                None
            },
    {
        proof {
            use_type_invariant(self);
        }
        let store_name = String::from_str(store);
        let key_name = String::from_str(key);
        match find_row(&self.rows, &store_name, &key_name) {
            Some(i) => {
                proof {
                    let k = row_at(self.rows@, store@, key@);
                    if k < i {
                        assert(!(self.rows@[k].store@ == self.rows@[i as int].store@
                            && self.rows@[k].key@ == self.rows@[i as int].key@));
                    } else if i < k {
                        assert(!(self.rows@[i as int].store@ == self.rows@[k].store@
                            && self.rows@[i as int].key@ == self.rows@[k].key@));
                    }
                }
                Some(slice_to_vec(self.rows[i].value.as_slice()))
            },
            None => None,
        }
    }

    /// Runs the upgrade hook of a handle on `store` at `version` for a
    /// database that was at `old_version`. The hook creates the object store
    /// where it is missing and does nothing else; with `old_version` at or
    /// past `version` it does nothing at all.
    fn run_upgrade(&mut self, store: &String, version: u32, old_version: u32)
        requires
            old_version < version ==> version > 0,
        ensures
            final(self)@ == old(self)@.upgrade(store@, version, old_version),
    {
        proof {
            use_type_invariant(&*self);
        }
        if old_version < version {
            let mut stores: Vec<String> = Vec::new();
            let ghost rows = self.rows@;
            let ghost names_before = self.stores@;
            let mut taken: Vec<Row> = Vec::new();
            core::mem::swap(&mut self.rows, &mut taken);
            if self.version < version {
                self.version = version;
            }
            core::mem::swap(&mut self.stores, &mut stores);
            if !find_name(&stores, store) {
                stores.push(store.clone());
            }
            proof {
                assert forall|name: Seq<char>| has_name(stores@, name) == (has_name(
                    names_before,
                    name,
                ) || name == store@) by {
                    if has_name(names_before, name) {
                        let i = choose|i: int|
                            0 <= i < names_before.len() && (#[trigger] names_before[i])@ == name;
                        assert(stores@[i]@ == name);
                    }
                    if name == store@ && !has_name(names_before, store@) {
                        assert(stores@[names_before.len() as int]@ == name);
                    }
                    if has_name(stores@, name) {
                        let i = choose|i: int| 0 <= i < stores@.len() && (#[trigger] stores@[i])@
                            == name;
                        if i < names_before.len() {
                            assert(names_before[i]@ == name);
                        }
                    }
                }
                assert(names_set(stores@) =~= names_set(names_before).insert(store@));
            }
            core::mem::swap(&mut self.stores, &mut stores);
            proof {
                assert forall|i: int| 0 <= i < rows.len() implies has_name(
                    self.stores@,
                    (#[trigger] rows[i]).store@,
                ) by {}
            }
            core::mem::swap(&mut self.rows, &mut taken);
        }
    }

    /// Stores `value` under `key` in `store`.
    fn put_row(&mut self, store: &String, key: String, value: Vec<u8>)
        requires
            old(self)@.stores.contains(store@),
        ensures
            final(self)@ == old(self)@.put(store@, key@, value@),
    {
        proof {
            use_type_invariant(&*self);
        }
        let ghost before = self.rows@;
        let mut rows: Vec<Row> = Vec::new();
        core::mem::swap(&mut self.rows, &mut rows);
        let row = Row { store: store.clone(), key, value };
        match find_row(&rows, &row.store, &row.key) {
            Some(i) => {
                proof {
                    lemma_put_row(before, before.update(i as int, row), i as int, row);
                }
                rows.set(i, row);
            },
            None => {
                proof {
                    lemma_put_row(before, before.push(row), before.len() as int, row);
                }
                rows.push(row);
            },
        }
        proof {
            assert forall|i: int| 0 <= i < rows@.len() implies has_name(
                self.stores@,
                (#[trigger] rows@[i]).store@,
            ) by {
                if rows@[i].store@ != store@ {
                    assert(has_row(rows@, rows@[i].store@, rows@[i].key@));
                    let k = row_at(before, rows@[i].store@, rows@[i].key@);
                    assert(has_name(self.stores@, before[k].store@));
                }
            }
        }
        core::mem::swap(&mut self.rows, &mut rows);
    }
}

/// The name of one object store of one database, at one schema version.
#[derive(Clone, Debug, PartialEq, Eq)]
pub struct IndexedDbStorage {
    db_name: String,
    store_name: String,
    version: u32,
}

impl IndexedDbStorage {
    /// The name of the database.
    pub closed spec fn db_name_spec(&self) -> Seq<char> {
        self.db_name@
    }

    /// The name of the object store.
    pub closed spec fn store_name_spec(&self) -> Seq<char> {
        self.store_name@
    }

    /// The schema version that the handle opens the database at.
    pub closed spec fn version_spec(&self) -> u32 {
        self.version
    }

    /// A handle on the object store `store_name` of the database `db_name`,
    /// at schema version `version`.
    pub fn new(db_name: &str, store_name: &str, version: u32) -> (handle: IndexedDbStorage)
        ensures
            handle.db_name_spec() == db_name@,
            handle.store_name_spec() == store_name@,
            handle.version_spec() == version,
    {
        IndexedDbStorage {
            db_name: String::from_str(db_name),
            store_name: String::from_str(store_name),
            version,
        }
    }

    /// The name of the database.
    pub fn db_name(&self) -> (name: &str)
        ensures
            name@ == self.db_name_spec(),
    {
        self.db_name.as_str()
    }

    /// The name of the object store.
    pub fn store_name(&self) -> (name: &str)
        ensures
            name@ == self.store_name_spec(),
    {
        self.store_name.as_str()
    }

    /// The schema version that the handle opens the database at.
    pub fn version(&self) -> (version: u32)
        ensures
            version == self.version_spec(),
    {
        self.version
    }

    /// A second handle on the same object store.
    pub fn duplicate(&self) -> (copy: IndexedDbStorage)
        ensures
            copy.db_name_spec() == self.db_name_spec(),
            copy.store_name_spec() == self.store_name_spec(),
            copy.version_spec() == self.version_spec(),
    {
        IndexedDbStorage {
            db_name: self.db_name.clone(),
            store_name: self.store_name.clone(),
            version: self.version,
        }
    }

    /// The upgrade hook: called with the version that the database was at,
    /// it creates the handle's object store where that is missing and moves
    /// the database up to the handle's version. It removes nothing, changes
    /// no row and never lowers the version, and with `old_version` at or
    /// past the handle's version it does nothing.
    pub fn upgrade(&self, old_version: u32, db: &mut Database)
        ensures
            final(db)@ == old(db)@.upgrade(
                self.store_name_spec(),
                self.version_spec(),
                old_version,
            ),
    {
        db.run_upgrade(&self.store_name, self.version, old_version);
    }

    /// Opens the database at the handle's version. On a host without
    /// persistent storage the open fails with `StoreUnavailable`; on a
    /// database at a later version it fails with `VersionConflict`; on one
    /// at an earlier version the upgrade hook runs, once, unless another
    /// context keeps the database open, which blocks the upgrade and fails
    /// the open with `StoreUnavailable`. A failed open leaves the database
    /// as it was.
    pub fn open(&self, db: &mut Database) -> (outcome: Result<OpenReport, StorageError>)
        ensures
            (outcome, final(db)@) == open_spec(
                old(db)@,
                self.store_name_spec(),
                self.version_spec(),
            ),
    {
        if !db.is_available() {
            return Err(StorageError::StoreUnavailable);
        }
        let present = db.version();
        if self.version < present {
            Err(StorageError::VersionConflict)
        } else if self.version > present {
            if db.is_held_open() {
                return Err(StorageError::StoreUnavailable);
            }
            self.upgrade(present, db);
            Ok(OpenReport { upgraded_from: Some(present) })
        } else {
            Ok(OpenReport { upgraded_from: None })
        }
    }

    /// Opens the database and checks that the object store is there.
    fn begin(&self, db: &mut Database) -> (outcome: Result<(), StorageError>)
        ensures
            match begin_spec(old(db)@, self.store_name_spec(), self.version_spec()) {
                Ok(opened) => outcome is Ok && final(db)@ == opened,
                Err(error) => outcome == Err::<(), StorageError>(error) && final(db)@ == old(db)@,
            },
    {
        match self.open(db) {
            Err(error) => Err(error),
            Ok(_) => {
                if db.has_store(self.store_name.as_str()) {
                    Ok(())
                } else {
                    proof {
                        let before = old(db)@;
                        if self.version > before.version {
                            assert(before.upgrade(
                                self.store_name@,
                                self.version,
                                before.version,
                            ).stores.contains(self.store_name@));
                        }
                    }
                    Err(StorageError::TransactionFailed)
                }
            },
        }
    }

    /// Reads the bytes stored under `key`: `None` where the key was never
    /// written. The database is opened first, which may upgrade it; no row
    /// changes.
    pub fn read_field(&self, db: &mut Database, key: &str) -> (outcome: Result<
        Option<Vec<u8>>,
        StorageError,
    >)
        ensures
            match begin_spec(old(db)@, self.store_name_spec(), self.version_spec()) {
                Ok(opened) => final(db)@ == opened && (outcome matches Ok(value) && bytes_view(
                    value,
                ) == stored_under(opened.contents(self.store_name_spec()), key@)),
                Err(error) => outcome == Err::<Option<Vec<u8>>, StorageError>(error) && final(db)@
                    == old(db)@,
            },
    {
        match self.begin(db) {
            Err(error) => Err(error),
            Ok(_) => Ok(db.get(self.store_name.as_str(), key)),
        }
    }

    /// Stores `value` under `key`. On failure nothing is written.
    pub fn write_field(&self, db: &mut Database, key: &str, value: Vec<u8>) -> (outcome: Result<
        (),
        StorageError,
    >)
        ensures
            match begin_spec(old(db)@, self.store_name_spec(), self.version_spec()) {
                Ok(opened) => outcome is Ok && final(db)@ == opened.put(
                    self.store_name_spec(),
                    key@,
                    value@,
                ),
                Err(error) => outcome == Err::<(), StorageError>(error) && final(db)@ == old(db)@,
            },
    {
        match self.begin(db) {
            Err(error) => Err(error),
            Ok(_) => {
                db.put_row(&self.store_name, String::from_str(key), value);
                Ok(())
            },
        }
    }

    /// Stores every field of `fields`, in order, in one transaction: either
    /// all of them are written or, on failure, none.
    pub fn write_fields(&self, db: &mut Database, fields: Vec<FieldWrite>) -> (outcome: Result<
        (),
        StorageError,
    >)
        ensures
            match begin_spec(old(db)@, self.store_name_spec(), self.version_spec()) {
                Ok(opened) => outcome is Ok && final(db)@ == opened.put_all(
                    self.store_name_spec(),
                    batch_view(fields@),
                ),
                Err(error) => outcome == Err::<(), StorageError>(error) && final(db)@ == old(db)@,
            },
    {
        match self.begin(db) {
            Err(error) => {
                return Err(error);
            },
            Ok(_) => {},
        }
        let ghost opened = db@;
        let ghost batch = batch_view(fields@);
        let mut fields = fields;
        let mut written: usize = 0;
        let total = fields.len();
        while written < total
            invariant
                0 <= written <= total,
                total == batch.len(),
                fields@.len() == total - written,
                batch_view(fields@) == batch.subrange(written as int, total as int),
                opened.stores.contains(self.store_name_spec()),
                db@ == opened.put_all(self.store_name_spec(), batch.subrange(0, written as int)),
            decreases total - written,
        {
            let ghost queued = fields@;
            let write = fields.remove(0);
            proof {
                assert(batch_view(queued)[0] == batch[written as int]);
                assert(write@ == batch[written as int]);
                assert forall|i: int| 0 <= i < fields@.len() implies batch_view(fields@)[i]
                    == batch[written + 1 + i] by {
                    assert(fields@[i] == queued[i + 1]);
                    assert(batch_view(queued)[i + 1] == batch[written + (i + 1)]);
                }
                assert(batch_view(fields@) =~= batch.subrange(written + 1, total as int));
                let next = batch.subrange(0, written + 1);
                assert(next.drop_last() =~= batch.subrange(0, written as int));
                assert(next.last() == batch[written as int]);
                lemma_put_all_keeps_stores(
                    opened,
                    self.store_name_spec(),
                    batch.subrange(0, written as int),
                );
            }
            db.put_row(&self.store_name, write.key, write.value);
            written += 1;
        }
        assert(batch.subrange(0, written as int) =~= batch);
        Ok(())
    }
}

/// One operation on the wallet's own object store.
#[derive(Debug, PartialEq, Eq)]
pub enum DbOperation {
    /// Read the field with this key.
    ReadField(String),
    /// Write these bytes to the field with this key.
    WriteField(String, Vec<u8>),
}

/// The name of the database that holds the wallet's own object store.
pub open spec fn wallet_db_name() -> Seq<char> {
    "linera_wallet"@
}

/// The name of the wallet's own object store.
pub open spec fn wallet_store_name() -> Seq<char> {
    "wallet"@
}

/// The handle on the wallet's own object store: `wallet` of the database
/// `linera_wallet`, at version 2.
pub fn wallet_store() -> (handle: IndexedDbStorage)
    ensures
        handle.db_name_spec() == wallet_db_name(),
        handle.store_name_spec() == wallet_store_name(),
        handle.version_spec() == 2,
{
    IndexedDbStorage::new("linera_wallet", "wallet", 2)
}

/// Opens the wallet's database at version 2, creating the wallet's object
/// store where the database is upgraded and the store is missing.
pub fn open_db(db: &mut Database) -> (outcome: Result<OpenReport, StorageError>)
    ensures
        (outcome, final(db)@) == open_spec(old(db)@, wallet_store_name(), 2),
{
    wallet_store().open(db)
}

/// Performs one operation on the wallet's own object store. A read gives
/// the bytes stored under the key, or `None` where the key was never
/// written; a write stores the bytes and gives them back.
pub fn persistent_wallet(db: &mut Database, op: DbOperation) -> (outcome: Result<
    Option<Vec<u8>>,
    StorageError,
>)
    ensures
        match begin_spec(old(db)@, wallet_store_name(), 2) {
            Err(error) => outcome == Err::<Option<Vec<u8>>, StorageError>(error) && final(db)@
                == old(db)@,
            Ok(opened) => match op {
                DbOperation::ReadField(key) => final(db)@ == opened && (outcome matches Ok(value)
                    && bytes_view(value) == stored_under(
                    opened.contents(wallet_store_name()),
                    key@,
                )),
                DbOperation::WriteField(key, value) => final(db)@ == opened.put(
                    wallet_store_name(),
                    key@,
                    value@,
                ) && (outcome matches Ok(written) && bytes_view(written) == Some(value@)),
            },
        },
{
    let handle = wallet_store();
    match op {
        DbOperation::ReadField(key) => handle.read_field(db, key.as_str()),
        DbOperation::WriteField(key, value) => {
            let copy = slice_to_vec(value.as_slice());
            match handle.write_field(db, key.as_str(), value) {
                Ok(_) => Ok(Some(copy)),
                Err(error) => Err(error),
            }
        },
    }
}

/// Writes change rows only: availability, version and object stores stay.
pub proof fn lemma_put_all_keeps_stores(
    db: DatabaseView,
    store: Seq<char>,
    batch: Seq<(Seq<char>, Seq<u8>)>,
)
    ensures
        db.put_all(store, batch).stores == db.stores,
        db.put_all(store, batch).version == db.version,
        db.put_all(store, batch).available == db.available,
    decreases batch.len(),
{
    if batch.len() > 0 {
        lemma_put_all_keeps_stores(db, store, batch.drop_last());
    }
}

/// The writes of a batch to an object store change what that store holds as
/// the writes say, and leave every other object store as it was.
pub proof fn lemma_put_all_contents(
    db: DatabaseView,
    store: Seq<char>,
    batch: Seq<(Seq<char>, Seq<u8>)>,
)
    ensures
        db.put_all(store, batch).contents(store) == write_all(db.contents(store), batch),
        forall|other: Seq<char>|
            other != store ==> #[trigger] db.put_all(store, batch).contents(other) == db.contents(
                other,
            ),
    decreases batch.len(),
{
    if batch.len() == 0 {
    } else {
        let before = db.put_all(store, batch.drop_last());
        lemma_put_all_contents(db, store, batch.drop_last());
        let after = before.put(store, batch.last().0, batch.last().1);
        assert(after.contents(store) =~= before.contents(store).insert(
            batch.last().0,
            batch.last().1,
        ));
        assert forall|other: Seq<char>| other != store implies #[trigger] after.contents(other)
            == db.contents(other) by {
            assert(after.contents(other) =~= before.contents(other));
        }
    }
}

} // verus!
