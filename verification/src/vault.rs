//! The secret vault: sensitive values kept in the field store under keys of
//! their own.

use vstd::prelude::*;
use vstd::string::StringExecFns;
use crate::fields::{bytes_view, stored_under};
use crate::storage::WalletStorage;
use crate::store::{IndexedDbStorage, StorageError};

verus! {

/// The prefix of every key that the secret vault writes.
pub open spec fn vault_prefix() -> Seq<char> {
    "vault:"@
}

/// The key under which the secret named `field` is kept.
pub open spec fn vault_key_spec(field: Seq<char>) -> Seq<char> {
    vault_prefix() + field
}

/// Builds the storage key of the secret named `field`.
pub fn vault_key(field: &str) -> (key: String)
    ensures
        key@ == vault_key_spec(field@),
{
    String::from_str("vault:").concat(field)
}

/// Different secrets are kept under different keys.
pub proof fn lemma_vault_keys_differ(first: Seq<char>, second: Seq<char>)
    requires
        first != second,
    ensures
        vault_key_spec(first) != vault_key_spec(second),
{
    let prefix = vault_prefix();
    if vault_key_spec(first) == vault_key_spec(second) {
        assert((prefix + first).skip(prefix.len() as int) =~= first);
        assert((prefix + second).skip(prefix.len() as int) =~= second);
    }
}

/// The secret vault.
#[derive(Clone, Copy, Debug, PartialEq, Eq, Structural)]
pub struct SecretVault;

impl SecretVault {
    /// A vault.
    pub fn new() -> (vault: SecretVault)
        ensures
            vault == SecretVault,
    {
        SecretVault
    }

    /// The object store that the vault keeps its secrets in: `vault` of the
    /// database `linera_store`, at version 1.
    pub fn storage() -> (handle: IndexedDbStorage)
        ensures
            handle.db_name_spec() == "linera_store"@,
            handle.store_name_spec() == "vault"@,
            handle.version_spec() == 1,
    {
        IndexedDbStorage::new("linera_store", "vault", 1)
    }

    /// Stores the secret `value` under the name `field`.
    pub fn set<S: WalletStorage>(&self, storage: &mut S, field: &str, value: Vec<u8>) -> (outcome:
        Result<(), StorageError>)
        ensures
            match outcome {
                Ok(_) => final(storage).contents() == old(storage).contents().insert(
                    vault_key_spec(field@),
                    value@,
                ),
                Err(_) => final(storage).contents() == old(storage).contents(),
            },
            old(storage).ready() ==> outcome is Ok && final(storage).ready(),
    {
        let key = vault_key(field);
        storage.write_field(key.as_str(), value)
    }

    /// The secret stored under the name `field`; `None` where there is none.
    pub fn get<S: WalletStorage>(&self, storage: &mut S, field: &str) -> (outcome: Result<
        Option<Vec<u8>>,
        StorageError,
    >)
        ensures
            final(storage).contents() == old(storage).contents(),
            outcome matches Ok(value) ==> bytes_view(value) == stored_under(
                old(storage).contents(),
                vault_key_spec(field@),
            ),
            old(storage).ready() ==> outcome is Ok && final(storage).ready(),
    {
        let key = vault_key(field);
        storage.read_field(key.as_str())
    }
}

} // verus!
