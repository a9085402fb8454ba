//! Storage as the wallet sees it: named fields that are read one at a time
//! and written alone or in atomic batches.

use vstd::prelude::*;
use crate::fields::{batch_view, bytes_view, stored_under, write_all, FieldWrite};
use crate::store::{
    begin_spec, lemma_put_all_contents, open_spec, Database, DatabaseView, IndexedDbStorage,
    OpenReport, StorageError,
};

verus! {

/// A store of named fields.
///
/// `contents` is what the store durably holds. A read returns what is held
/// and changes nothing. A write either succeeds and is held in full, or
/// fails and leaves the contents as they were: a batch is never held in
/// part. A store that is `ready` does not fail, and stays ready.
pub trait WalletStorage {
    /// What the store holds, by key.
    spec fn contents(&self) -> Map<Seq<char>, Seq<u8>>;

    /// Whether the next operation is bound to succeed.
    spec fn ready(&self) -> bool;

    /// Reads the bytes stored under `key`: `None` where the key was never
    /// written.
    fn read_field(&mut self, key: &str) -> (outcome: Result<Option<Vec<u8>>, StorageError>)
        ensures
            final(self).contents() == old(self).contents(),
            outcome matches Ok(value) ==> bytes_view(value) == stored_under(
                old(self).contents(),
                key@,
            ),
            old(self).ready() ==> outcome is Ok && final(self).ready(),
    ;

    /// Stores `value` under `key`.
    fn write_field(&mut self, key: &str, value: Vec<u8>) -> (outcome: Result<(), StorageError>)
        ensures
            match outcome {
                Ok(_) => final(self).contents() == old(self).contents().insert(key@, value@),
                Err(_) => final(self).contents() == old(self).contents(),
            },
            old(self).ready() ==> outcome is Ok && final(self).ready(),
    ;

    /// Stores every field of `fields`, in order, in one transaction.
    fn write_fields(&mut self, fields: Vec<FieldWrite>) -> (outcome: Result<(), StorageError>)
        ensures
            match outcome {
                Ok(_) => final(self).contents() == write_all(
                    old(self).contents(),
                    batch_view(fields@),
                ),
                Err(_) => final(self).contents() == old(self).contents(),
            },
            old(self).ready() ==> outcome is Ok && final(self).ready(),
    ;
}

/// An object store of a database held in memory, reached through a handle.
#[derive(Debug, PartialEq, Eq)]
pub struct MemoryStorage {
    handle: IndexedDbStorage,
    database: Database,
}

impl MemoryStorage {
    /// The handle through which the database is reached.
    pub closed spec fn handle_spec(&self) -> IndexedDbStorage {
        self.handle
    }

    /// The database.
    pub closed spec fn database_spec(&self) -> DatabaseView {
        self.database@
    }

    /// Binds `handle` to `database`.
    pub fn new(handle: IndexedDbStorage, database: Database) -> (storage: MemoryStorage)
        ensures
            storage.handle_spec() == handle,
            storage.database_spec() == database@,
    {
        MemoryStorage { handle, database }
    }

    /// The handle.
    pub fn handle(&self) -> (handle: &IndexedDbStorage)
        ensures
            *handle == self.handle_spec(),
    {
        &self.handle
    }

    /// The database.
    pub fn database(&self) -> (database: &Database)
        ensures
            database@ == self.database_spec(),
    {
        &self.database
    }

    /// Gives the database back.
    pub fn into_database(self) -> (database: Database)
        ensures
            database@ == self.database_spec(),
    {
        self.database
    }

    /// Says whether another context keeps the database open.
    pub fn set_held_open(&mut self, held_open: bool)
        ensures
            final(self).handle_spec() == old(self).handle_spec(),
            final(self).database_spec() == (DatabaseView {
                held_open,
                ..old(self).database_spec()
            }),
            final(self).contents() == old(self).contents(),
    {
        self.database.set_held_open(held_open);
        assert(self.contents() =~= old(self).contents());
    }

    /// Switches the host's persistent storage on or off.
    pub fn set_available(&mut self, available: bool)
        ensures
            final(self).handle_spec() == old(self).handle_spec(),
            final(self).database_spec() == (DatabaseView {
                available,
                ..old(self).database_spec()
            }),
            final(self).contents() == old(self).contents(),
    {
        self.database.set_available(available);
        assert(self.contents() =~= old(self).contents());
    }

    /// Opens the database through the handle, as every operation does first.
    pub fn open(&mut self) -> (outcome: Result<OpenReport, StorageError>)
        ensures
            final(self).handle_spec() == old(self).handle_spec(),
            (outcome, final(self).database_spec()) == open_spec(
                old(self).database_spec(),
                old(self).handle_spec().store_name_spec(),
                old(self).handle_spec().version_spec(),
            ),
            final(self).contents() == old(self).contents(),
    {
        let outcome = self.handle.open(&mut self.database);
        assert(self.contents() =~= old(self).contents());
        outcome
    }
}

impl WalletStorage for MemoryStorage {
    /// What the handle's object store holds in the database.
    open spec fn contents(&self) -> Map<Seq<char>, Seq<u8>> {
        self.database_spec().contents(self.handle_spec().store_name_spec())
    }

    /// An operation through the handle succeeds exactly where the host
    /// offers storage, the database is not at a later version than the
    /// handle, no blocked upgrade is due, and the object store exists or
    /// will be created by the upgrade.
    open spec fn ready(&self) -> bool {
        begin_spec(
            self.database_spec(),
            self.handle_spec().store_name_spec(),
            self.handle_spec().version_spec(),
        ) is Ok
    }

    fn read_field(&mut self, key: &str) -> (outcome: Result<Option<Vec<u8>>, StorageError>)
        ensures
            final(self).handle_spec() == old(self).handle_spec(),
            outcome is Ok == old(self).ready(),
    {
        let outcome = self.handle.read_field(&mut self.database, key);
        assert(self.contents() =~= old(self).contents());
        outcome
    }

    fn write_field(&mut self, key: &str, value: Vec<u8>) -> (outcome: Result<(), StorageError>)
        ensures
            final(self).handle_spec() == old(self).handle_spec(),
            outcome is Ok == old(self).ready(),
    {
        let outcome = self.handle.write_field(&mut self.database, key, value);
        proof {
            let store = self.handle.store_name_spec();
            match begin_spec(old(self).database@, store, self.handle.version_spec()) {
                Ok(opened) => {
                    assert(opened.contents(store) =~= old(self).contents());
                    assert(self.contents() =~= old(self).contents().insert(key@, value@));
                },
                Err(_) => {},
            }
        }
        outcome
    }

    fn write_fields(&mut self, fields: Vec<FieldWrite>) -> (outcome: Result<(), StorageError>)
        ensures
            final(self).handle_spec() == old(self).handle_spec(),
            outcome is Ok == old(self).ready(),
    {
        let ghost batch = batch_view(fields@);
        let outcome = self.handle.write_fields(&mut self.database, fields);
        proof {
            let store = self.handle.store_name_spec();
            match begin_spec(old(self).database@, store, self.handle.version_spec()) {
                Ok(opened) => {
                    assert(opened.contents(store) =~= old(self).contents());
                    lemma_put_all_contents(opened, store, batch);
                    crate::store::lemma_put_all_keeps_stores(opened, store, batch);
                },
                Err(_) => {},
            }
        }
        outcome
    }
}

/// Opening a database at a version and then at a later one runs the upgrade
/// hook once for each of the two transitions, and the second open keeps
/// every row that was there and every object store. Opening once more at the
/// later version runs no hook and changes nothing.
pub proof fn lemma_upgrade_is_additive(
    db: DatabaseView,
    store: Seq<char>,
    first: u32,
    second: u32,
)
    requires
        db.available,
        !db.held_open,
        db.version < first < second,
    ensures
        ({
            let (opened, at_first) = open_spec(db, store, first);
            let (reopened, at_second) = open_spec(at_first, store, second);
            let (again, settled) = open_spec(at_second, store, second);
            &&& opened == Ok::<OpenReport, StorageError>(OpenReport { upgraded_from: Some(db.version) })
            &&& reopened == Ok::<OpenReport, StorageError>(OpenReport { upgraded_from: Some(first) })
            &&& again == Ok::<OpenReport, StorageError>(OpenReport { upgraded_from: None })
            &&& at_second.version == second
            &&& at_second.rows == at_first.rows
            &&& at_first.stores.subset_of(at_second.stores)
            &&& at_second.stores.contains(store)
            &&& settled == at_second
        }),
{
}

/// While another context keeps the database open, a handle at a later
/// version than the database's cannot upgrade it: the open fails with
/// `StoreUnavailable` and the database stays as it was. A handle at the
/// database's own version opens it all the same.
pub proof fn lemma_blocked_upgrade(db: DatabaseView, store: Seq<char>, version: u32)
    requires
        db.available,
        db.held_open,
    ensures
        version > db.version ==> open_spec(db, store, version) == (
            Err::<OpenReport, StorageError>(StorageError::StoreUnavailable),
            db,
        ),
        version == db.version ==> open_spec(db, store, version) == (
            Ok::<OpenReport, StorageError>(OpenReport { upgraded_from: None }),
            db,
        ),
{
}

/// A handle at an earlier version than the database's is refused with
/// `VersionConflict`, and the database stays as it was.
pub proof fn lemma_no_downgrade(db: DatabaseView, store: Seq<char>, version: u32)
    requires
        db.available,
        version < db.version,
    ensures
        open_spec(db, store, version) == (
            Err::<OpenReport, StorageError>(StorageError::VersionConflict),
            db,
        ),
{
}

/// The upgrade hook removes nothing, changes no row and never lowers the
/// version, whatever versions it is called with; called with the version
/// that the handle is at, or a later one, it does nothing; and running it
/// twice is running it once.
pub proof fn lemma_upgrade_hook(db: DatabaseView, store: Seq<char>, version: u32, old_version: u32)
    ensures
        db.upgrade(store, version, old_version).rows == db.rows,
        db.stores.subset_of(db.upgrade(store, version, old_version).stores),
        db.upgrade(store, version, old_version).version >= db.version,
        old_version >= version ==> db.upgrade(store, version, old_version) == db,
        db.upgrade(store, version, old_version).upgrade(store, version, old_version)
            == db.upgrade(store, version, old_version),
{
    let once = db.upgrade(store, version, old_version);
    if old_version < version {
        assert(once.stores.insert(store) =~= once.stores);
    }
}

/// Opening a database never lowers its version, removes no object store and
/// changes no row, whether the open succeeds or fails.
pub proof fn lemma_open_keeps_data(db: DatabaseView, store: Seq<char>, version: u32)
    ensures
        open_spec(db, store, version).1.version >= db.version,
        open_spec(db, store, version).1.rows == db.rows,
        db.stores.subset_of(open_spec(db, store, version).1.stores),
        open_spec(db, store, version).0 is Err ==> open_spec(db, store, version).1 == db,
{
}

} // verus!
