use croissant_wallet::fields::{read_default_field, DefaultField, FieldWrite};
use croissant_wallet::ident::ChainId;
use croissant_wallet::storage::{MemoryStorage, WalletStorage};
use croissant_wallet::store::{
    open_db, persistent_wallet, wallet_store, Database, DbOperation, IndexedDbStorage, OpenReport,
    StorageError,
};
use croissant_wallet::table::read_table;
use croissant_wallet::vault::{vault_key, SecretVault};

fn write(key: &str, value: &[u8]) -> FieldWrite {
    FieldWrite { key: key.to_string(), value: value.to_vec() }
}

#[test]
fn a_handle_names_store_and_version() {
    let handle = IndexedDbStorage::new("linera", "ldb", 2);
    assert_eq!(handle.db_name(), "linera");
    assert_eq!(handle.store_name(), "ldb");
    assert_eq!(handle.version(), 2);
    assert_eq!(handle.duplicate(), handle);
    assert_eq!(handle.clone(), handle);
}

#[test]
fn a_new_database_has_nothing() {
    let db = Database::new();
    assert!(db.is_available());
    assert!(!db.is_held_open());
    assert_eq!(db.version(), 0);
    assert!(!db.has_store("ldb"));
    assert_eq!(db.get("ldb", "chains"), None);
    db.check();
}

#[test]
fn the_first_open_creates_the_store() {
    let mut db = Database::new();
    let handle = IndexedDbStorage::new("linera", "ldb", 1);
    assert_eq!(handle.open(&mut db), Ok(OpenReport { upgraded_from: Some(0) }));
    assert_eq!(db.version(), 1);
    assert!(db.has_store("ldb"));
    assert_eq!(handle.open(&mut db), Ok(OpenReport { upgraded_from: None }));
    assert_eq!(db.version(), 1);
}

#[test]
fn an_upgrade_runs_once_and_keeps_what_was_written() {
    let mut db = Database::new();
    let first = IndexedDbStorage::new("linera", "ldb", 1);
    assert_eq!(first.write_field(&mut db, "chains", vec![1, 2, 3]), Ok(()));
    assert_eq!(first.write_field(&mut db, "default", b"null".to_vec()), Ok(()));
    let second = IndexedDbStorage::new("linera", "ldb", 2);
    assert_eq!(second.open(&mut db), Ok(OpenReport { upgraded_from: Some(1) }));
    assert_eq!(second.open(&mut db), Ok(OpenReport { upgraded_from: None }));
    assert_eq!(db.version(), 2);
    assert_eq!(second.read_field(&mut db, "chains"), Ok(Some(vec![1, 2, 3])));
    assert_eq!(second.read_field(&mut db, "default"), Ok(Some(b"null".to_vec())));
    assert_eq!(second.read_field(&mut db, "genesis"), Ok(None));
}

#[test]
fn an_upgrade_adds_a_store_beside_the_others() {
    let mut db = Database::new();
    let wallet = IndexedDbStorage::new("linera", "ldb", 1);
    assert_eq!(wallet.write_field(&mut db, "genesis", b"{}".to_vec()), Ok(()));
    let other = IndexedDbStorage::new("linera", "notes", 2);
    assert_eq!(other.write_field(&mut db, "genesis", b"[]".to_vec()), Ok(()));
    assert!(db.has_store("ldb"));
    assert!(db.has_store("notes"));
    assert_eq!(db.get("ldb", "genesis"), Some(b"{}".to_vec()));
    assert_eq!(db.get("notes", "genesis"), Some(b"[]".to_vec()));
}

#[test]
fn the_upgrade_hook_does_nothing_at_the_same_version() {
    let mut db = Database::new();
    let handle = IndexedDbStorage::new("linera", "ldb", 2);
    handle.upgrade(2, &mut db);
    assert_eq!(db, Database::new());
    handle.upgrade(3, &mut db);
    assert_eq!(db, Database::new());
    handle.upgrade(0, &mut db);
    assert_eq!(db.version(), 2);
    assert!(db.has_store("ldb"));
    let once = handle.write_field(&mut db, "k", vec![1]);
    assert_eq!(once, Ok(()));
    handle.upgrade(0, &mut db);
    assert_eq!(db.get("ldb", "k"), Some(vec![1]));
    assert_eq!(db.version(), 2);
}

#[test]
fn a_downgrade_is_a_version_conflict() {
    let mut db = Database::new();
    let newer = IndexedDbStorage::new("linera", "ldb", 2);
    assert_eq!(newer.write_field(&mut db, "chains", vec![1]), Ok(()));
    let older = IndexedDbStorage::new("linera", "ldb", 1);
    assert_eq!(older.open(&mut db), Err(StorageError::VersionConflict));
    assert_eq!(older.read_field(&mut db, "chains"), Err(StorageError::VersionConflict));
    assert_eq!(older.write_field(&mut db, "chains", vec![9]), Err(StorageError::VersionConflict));
    assert_eq!(
        older.write_fields(&mut db, vec![write("chains", &[9])]),
        Err(StorageError::VersionConflict)
    );
    assert_eq!(db.version(), 2);
    assert_eq!(db.get("ldb", "chains"), Some(vec![1]));
}

#[test]
fn a_host_without_storage_is_unavailable() {
    let mut db = Database::new();
    db.set_available(false);
    let handle = IndexedDbStorage::new("linera", "ldb", 2);
    assert_eq!(handle.open(&mut db), Err(StorageError::StoreUnavailable));
    assert_eq!(handle.read_field(&mut db, "chains"), Err(StorageError::StoreUnavailable));
    assert_eq!(handle.write_field(&mut db, "chains", vec![]), Err(StorageError::StoreUnavailable));
    assert_eq!(db.version(), 0);
    db.set_available(true);
    assert_eq!(handle.read_field(&mut db, "chains"), Ok(None));
}

#[test]
fn an_upgrade_is_blocked_while_the_database_is_held_open() {
    let mut db = Database::new();
    let first = IndexedDbStorage::new("linera", "ldb", 1);
    assert_eq!(first.write_field(&mut db, "chains", vec![1]), Ok(()));
    db.set_held_open(true);
    let second = IndexedDbStorage::new("linera", "ldb", 2);
    assert_eq!(second.open(&mut db), Err(StorageError::StoreUnavailable));
    assert_eq!(db.version(), 1);
    assert_eq!(first.read_field(&mut db, "chains"), Ok(Some(vec![1])));
    db.set_held_open(false);
    assert_eq!(second.open(&mut db), Ok(OpenReport { upgraded_from: Some(1) }));
}

#[test]
fn a_missing_store_fails_the_transaction() {
    let mut db = Database::new();
    let wallet = IndexedDbStorage::new("linera", "ldb", 2);
    assert_eq!(wallet.open(&mut db), Ok(OpenReport { upgraded_from: Some(0) }));
    let other = IndexedDbStorage::new("linera", "notes", 2);
    assert_eq!(other.open(&mut db), Ok(OpenReport { upgraded_from: None }));
    assert_eq!(other.read_field(&mut db, "k"), Err(StorageError::TransactionFailed));
    assert_eq!(other.write_field(&mut db, "k", vec![1]), Err(StorageError::TransactionFailed));
    assert_eq!(
        other.write_fields(&mut db, vec![write("k", &[1])]),
        Err(StorageError::TransactionFailed)
    );
    assert!(!db.has_store("notes"));
    assert_eq!(db.get("notes", "k"), None);
}

#[test]
fn a_key_never_written_reads_as_none() {
    let mut db = Database::new();
    let handle = IndexedDbStorage::new("linera", "ldb", 2);
    assert_eq!(handle.read_field(&mut db, "chains"), Ok(None));
    assert_eq!(handle.write_field(&mut db, "chains", vec![]), Ok(()));
    assert_eq!(handle.read_field(&mut db, "chains"), Ok(Some(vec![])));
    assert_eq!(handle.read_field(&mut db, "Chains"), Ok(None));
}

#[test]
fn a_write_replaces_the_value_under_its_key_only() {
    let mut db = Database::new();
    let handle = IndexedDbStorage::new("linera", "ldb", 2);
    assert_eq!(handle.write_field(&mut db, "a", vec![1]), Ok(()));
    assert_eq!(handle.write_field(&mut db, "b", vec![2]), Ok(()));
    assert_eq!(handle.write_field(&mut db, "a", vec![3, 4]), Ok(()));
    assert_eq!(handle.read_field(&mut db, "a"), Ok(Some(vec![3, 4])));
    assert_eq!(handle.read_field(&mut db, "b"), Ok(Some(vec![2])));
}

#[test]
fn a_batch_is_written_in_order() {
    let mut db = Database::new();
    let handle = IndexedDbStorage::new("linera", "ldb", 2);
    let batch = vec![write("a", &[1]), write("b", &[2]), write("a", &[3])];
    assert_eq!(handle.write_fields(&mut db, batch), Ok(()));
    assert_eq!(handle.read_field(&mut db, "a"), Ok(Some(vec![3])));
    assert_eq!(handle.read_field(&mut db, "b"), Ok(Some(vec![2])));
    assert_eq!(handle.write_fields(&mut db, vec![]), Ok(()));
    assert_eq!(handle.read_field(&mut db, "a"), Ok(Some(vec![3])));
}

#[test]
fn a_failed_batch_writes_nothing() {
    let mut db = Database::new();
    let handle = IndexedDbStorage::new("linera", "ldb", 2);
    assert_eq!(handle.write_field(&mut db, "a", vec![1]), Ok(()));
    db.set_available(false);
    let before = db.get("ldb", "a");
    let batch = vec![write("a", &[7]), write("b", &[8])];
    assert_eq!(handle.write_fields(&mut db, batch), Err(StorageError::StoreUnavailable));
    assert_eq!(db.get("ldb", "a"), before);
    assert_eq!(db.get("ldb", "b"), None);
}

#[test]
fn an_undecodable_value_corrupts_its_own_field_only() {
    let mut storage =
        MemoryStorage::new(IndexedDbStorage::new("linera", "ldb", 2), Database::new());
    let id = ChainId::new([3; 32]);
    let batch = vec![write("chains", &[0xde, 0xad]), write("default", &id.to_hex())];
    assert_eq!(storage.write_fields(batch), Ok(()));
    let chains = storage.read_field("chains").unwrap().unwrap();
    assert_eq!(read_table(&chains), None);
    let default_chain = storage.read_field("default").unwrap();
    assert_eq!(read_default_field(&default_chain), Some(DefaultField::Chain(id)));
}

#[test]
fn memory_storage_is_wallet_storage() {
    let mut storage =
        MemoryStorage::new(IndexedDbStorage::new("linera", "ldb", 2), Database::new());
    assert_eq!(storage.read_field("genesis"), Ok(None));
    assert_eq!(storage.write_field("genesis", b"{}".to_vec()), Ok(()));
    assert_eq!(storage.read_field("genesis"), Ok(Some(b"{}".to_vec())));
    assert_eq!(storage.handle().store_name(), "ldb");
    assert_eq!(storage.database().version(), 2);
    assert_eq!(storage.open(), Ok(OpenReport { upgraded_from: None }));
    storage.set_available(false);
    assert_eq!(storage.read_field("genesis"), Err(StorageError::StoreUnavailable));
    assert_eq!(storage.write_field("genesis", vec![]), Err(StorageError::StoreUnavailable));
    storage.set_available(true);
    storage.set_held_open(true);
    assert_eq!(storage.read_field("genesis"), Ok(Some(b"{}".to_vec())));
    let db = storage.into_database();
    assert_eq!(db.get("ldb", "genesis"), Some(b"{}".to_vec()));
}

#[test]
fn vault_keys_are_prefixed() {
    assert_eq!(vault_key("mnemonic"), "vault:mnemonic");
    assert_eq!(vault_key(""), "vault:");
    assert_eq!(vault_key("vault:x"), "vault:vault:x");
}

#[test]
fn the_vault_keeps_secrets_under_its_own_keys() {
    let handle = SecretVault::storage();
    assert_eq!(handle.db_name(), "linera_store");
    assert_eq!(handle.store_name(), "vault");
    assert_eq!(handle.version(), 1);
    let mut storage = MemoryStorage::new(handle, Database::new());
    let vault = SecretVault::new();
    assert_eq!(vault.get(&mut storage, "mnemonic"), Ok(None));
    assert_eq!(vault.set(&mut storage, "mnemonic", b"twelve words".to_vec()), Ok(()));
    assert_eq!(vault.get(&mut storage, "mnemonic"), Ok(Some(b"twelve words".to_vec())));
    assert_eq!(vault.get(&mut storage, "other"), Ok(None));
    assert_eq!(storage.read_field("vault:mnemonic"), Ok(Some(b"twelve words".to_vec())));
    assert_eq!(storage.read_field("mnemonic"), Ok(None));
    storage.set_available(false);
    assert_eq!(vault.set(&mut storage, "mnemonic", vec![]), Err(StorageError::StoreUnavailable));
    assert_eq!(vault.get(&mut storage, "mnemonic"), Err(StorageError::StoreUnavailable));
}

#[test]
fn the_wallet_store_is_opened_at_version_two() {
    let handle = wallet_store();
    assert_eq!(handle.db_name(), "linera_wallet");
    assert_eq!(handle.store_name(), "wallet");
    assert_eq!(handle.version(), 2);
    let mut db = Database::new();
    assert_eq!(open_db(&mut db), Ok(OpenReport { upgraded_from: Some(0) }));
    assert_eq!(open_db(&mut db), Ok(OpenReport { upgraded_from: None }));
    assert!(db.has_store("wallet"));
    assert_eq!(db.version(), 2);
}

#[test]
fn operations_on_the_wallet_store_read_and_write_fields() {
    let mut db = Database::new();
    assert_eq!(persistent_wallet(&mut db, DbOperation::ReadField("chains".to_string())), Ok(None));
    assert_eq!(
        persistent_wallet(&mut db, DbOperation::WriteField("chains".to_string(), vec![1, 2])),
        Ok(Some(vec![1, 2]))
    );
    assert_eq!(
        persistent_wallet(&mut db, DbOperation::ReadField("chains".to_string())),
        Ok(Some(vec![1, 2]))
    );
    assert_eq!(db.get("wallet", "chains"), Some(vec![1, 2]));
    db.set_available(false);
    assert_eq!(
        persistent_wallet(&mut db, DbOperation::WriteField("chains".to_string(), vec![3])),
        Err(StorageError::StoreUnavailable)
    );
    assert_eq!(db.get("wallet", "chains"), Some(vec![1, 2]));
}

#[test]
fn the_upgrade_hook_never_lowers_the_version() {
    let mut db = Database::new();
    let newer = IndexedDbStorage::new("linera", "ldb", 5);
    assert_eq!(newer.write_field(&mut db, "k", vec![1]), Ok(()));
    let older = IndexedDbStorage::new("linera", "notes", 2);
    older.upgrade(0, &mut db);
    assert_eq!(db.version(), 5);
    assert!(db.has_store("notes"));
    assert_eq!(db.get("ldb", "k"), Some(vec![1]));
}
