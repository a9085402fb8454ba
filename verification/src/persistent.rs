//! The wallet together with the storage it is kept in.
//!
//! A [`PersistentWallet`] pairs the owner of the live wallet with a storage
//! and makes every change in one go: the change is staged, its writes are
//! flushed in one atomic batch, and the change is settled by what the flush
//! came to. A change whose flush fails is reported and leaves wallet and
//! storage as they were.

use vstd::prelude::*;
use crate::fields::{
    decode_spec, encode, encode_spec, fields_of, lemma_fields_after_save, lemma_round_trip,
    lemma_round_trip_keeping_genesis, write_all, DecodeError, StoredFields,
};
use crate::ident::{ChainId, Owner};
use crate::manager::{
    decode_loaded, load_error, may_change, LoadError, MutateError, Staged, WalletStateManager,
};
use crate::snapshot::{
    contains_chain, ChainEntry, GenesisConfig, SnapshotView, WalletError, WalletSnapshot,
};
use crate::storage::WalletStorage;
use crate::store::StorageError;

verus! {

/// The wallet that a store with `contents` durably holds.
pub open spec fn durable_wallet(contents: Map<Seq<char>, Seq<u8>>) -> Result<
    SnapshotView,
    DecodeError,
> {
    decode_spec(fields_of(contents))
}

/// Reads the four fields of a wallet, the chain table first and the genesis
/// configuration last. The first read that fails ends the reading.
pub fn read_stored_fields<S: WalletStorage>(storage: &mut S) -> (outcome: Result<
    StoredFields,
    StorageError,
>)
    ensures
        final(storage).contents() == old(storage).contents(),
        outcome matches Ok(fields) ==> fields@ == fields_of(old(storage).contents()),
        old(storage).ready() ==> outcome is Ok && final(storage).ready(),
{
    let chains = match storage.read_field("chains") {
        Ok(value) => value,
        Err(error) => { return Err(error); },
    };
    let default_chain = match storage.read_field("default") {
        Ok(value) => value,
        Err(error) => { return Err(error); },
    };
    let unassigned_keys = match storage.read_field("unassigned_keys") {
        Ok(value) => value,
        Err(error) => { return Err(error); },
    };
    let genesis = match storage.read_field("genesis") {
        Ok(value) => value,
        Err(error) => { return Err(error); },
    };
    Ok(StoredFields { chains, default_chain, unassigned_keys, genesis })
}

/// Loads the wallet that `storage` holds. Where every read succeeds, the
/// outcome is the decoding of what is stored; a failed read is reported as
/// it is.
pub fn load_wallet<S: WalletStorage>(storage: &mut S) -> (outcome: Result<
    WalletSnapshot,
    LoadError,
>)
    ensures
        final(storage).contents() == old(storage).contents(),
        match outcome {
            Ok(wallet) => durable_wallet(old(storage).contents()) == Ok::<
                SnapshotView,
                DecodeError,
            >(wallet@) && wallet@.valid(),
            Err(LoadError::Storage(_)) => !old(storage).ready(),
            Err(error) => durable_wallet(old(storage).contents()) matches Err(cause) && error
                == load_error(cause),
        },
        old(storage).ready() ==> final(storage).ready(),
{
    match read_stored_fields(storage) {
        Err(error) => Err(LoadError::Storage(error)),
        Ok(fields) => decode_loaded(fields),
    }
}

/// Saves `wallet` to `storage` in one atomic write of its fields. The
/// genesis configuration is written only where `include_genesis` asks for
/// it. On failure the storage holds what it held.
pub fn save_wallet<S: WalletStorage>(
    storage: &mut S,
    wallet: &WalletSnapshot,
    include_genesis: bool,
) -> (outcome: Result<(), StorageError>)
    ensures
        match outcome {
            Ok(_) => final(storage).contents() == write_all(
                old(storage).contents(),
                encode_spec(wallet@, include_genesis),
            ) && (include_genesis || fields_of(old(storage).contents()).genesis == Some(
                wallet@.genesis,
            ) ==> durable_wallet(final(storage).contents()) == Ok::<SnapshotView, DecodeError>(
                wallet@,
            )),
            Err(_) => final(storage).contents() == old(storage).contents(),
        },
        old(storage).ready() ==> outcome is Ok && final(storage).ready(),
{
    wallet.check();
    let batch = encode(wallet, include_genesis);
    let outcome = storage.write_fields(batch);
    proof {
        if outcome is Ok {
            if include_genesis {
                lemma_round_trip(old(storage).contents(), wallet@);
            } else if fields_of(old(storage).contents()).genesis == Some(wallet@.genesis) {
                lemma_round_trip_keeping_genesis(old(storage).contents(), wallet@);
            }
        }
    }
    outcome
}

/// The wallet and the storage that it is kept in.
pub struct PersistentWallet<S: WalletStorage> {
    manager: WalletStateManager,
    storage: S,
}

impl<S: WalletStorage> PersistentWallet<S> {
    /// The wallet in memory.
    pub closed spec fn wallet_spec(&self) -> SnapshotView {
        self.manager.wallet_spec()
    }

    /// What the storage holds.
    pub closed spec fn stored(&self) -> Map<Seq<char>, Seq<u8>> {
        self.storage.contents()
    }

    /// Whether no change waits for its flush, as is the case between any two
    /// calls.
    pub closed spec fn idle(&self) -> bool {
        !self.manager.is_flushing()
    }

    /// Whether the storage is bound to take the next flush.
    pub closed spec fn storage_ready(&self) -> bool {
        self.storage.ready()
    }

    /// Whether the storage holds exactly the wallet in memory.
    pub open spec fn in_sync(&self) -> bool {
        durable_wallet(self.stored()) == Ok::<SnapshotView, DecodeError>(self.wallet_spec())
    }

    /// Pairs `wallet` with `storage`. Nothing is read or written.
    pub fn new(wallet: WalletSnapshot, storage: S) -> (persistent: PersistentWallet<S>)
        ensures
            persistent.wallet_spec() == wallet@,
            persistent.stored() == storage.contents(),
            persistent.storage_ready() == storage.ready(),
            persistent.idle(),
    {
        PersistentWallet { manager: WalletStateManager::new(wallet), storage }
    }

    /// Loads the wallet that `storage` holds and pairs the two.
    pub fn get(storage: S) -> (outcome: Result<PersistentWallet<S>, LoadError>)
        ensures
            match outcome {
                Ok(persistent) => persistent.stored() == storage.contents() && persistent.in_sync()
                    && persistent.wallet_spec().valid() && persistent.idle() && (storage.ready()
                    ==> persistent.storage_ready()),
                Err(LoadError::Storage(_)) => !storage.ready(),
                Err(error) => durable_wallet(storage.contents()) matches Err(cause) && error
                    == load_error(cause),
            },
    {
        let mut storage = storage;
        match load_wallet(&mut storage) {
            Ok(wallet) => Ok(PersistentWallet::new(wallet, storage)),
            Err(error) => Err(error),
        }
    }

    /// Pairs `wallet` with `storage` and saves the wallet, genesis
    /// configuration included, over whatever wallet the storage held.
    pub fn adopt(storage: S, wallet: WalletSnapshot) -> (outcome: Result<
        PersistentWallet<S>,
        StorageError,
    >)
        ensures
            outcome matches Ok(persistent) ==> {
                &&& persistent.wallet_spec() == wallet@
                &&& persistent.stored() == write_all(
                    storage.contents(),
                    encode_spec(wallet@, true),
                )
                &&& persistent.in_sync()
                &&& persistent.idle()
            },
            storage.ready() ==> (outcome matches Ok(persistent) && persistent.storage_ready()),
    {
        let mut storage = storage;
        match save_wallet(&mut storage, &wallet, true) {
            Ok(_) => Ok(PersistentWallet::new(wallet, storage)),
            Err(error) => Err(error),
        }
    }

    /// Creates a wallet without chains or keys for the network of
    /// `genesis_config` and saves it, genesis configuration included.
    pub fn create(storage: S, genesis_config: GenesisConfig) -> (outcome: Result<
        PersistentWallet<S>,
        StorageError,
    >)
        ensures
            outcome matches Ok(persistent) ==> {
                &&& persistent.wallet_spec() == SnapshotView::empty(genesis_config@)
                &&& persistent.stored() == write_all(
                    storage.contents(),
                    encode_spec(persistent.wallet_spec(), true),
                )
                &&& persistent.in_sync()
                &&& persistent.idle()
            },
            storage.ready() ==> (outcome matches Ok(persistent) && persistent.storage_ready()),
    {
        PersistentWallet::adopt(storage, WalletSnapshot::new(genesis_config))
    }

    /// The wallet in memory.
    pub fn wallet(&self) -> (wallet: &WalletSnapshot)
        ensures
            wallet@ == self.wallet_spec(),
            wallet@.valid(),
    {
        self.manager.wallet()
    }

    /// The storage.
    pub fn storage(&self) -> (storage: &S)
        ensures
            storage.contents() == self.stored(),
            storage.ready() == self.storage_ready(),
    {
        &self.storage
    }

    /// Gives up the wallet.
    pub fn into_value(self) -> (wallet: WalletSnapshot)
        ensures
            wallet@ == self.wallet_spec(),
    {
        self.manager.into_wallet()
    }

    /// Gives up the wallet and the storage.
    pub fn into_parts(self) -> (parts: (WalletSnapshot, S))
        ensures
            parts.0@ == self.wallet_spec(),
            parts.1.contents() == self.stored(),
            parts.1.ready() == self.storage_ready(),
    {
        (self.manager.into_wallet(), self.storage)
    }

    /// Saves the wallet in one atomic write of its fields. The genesis
    /// configuration is written only where `gn_flag` asks for it. On failure
    /// the storage holds what it held.
    pub fn save_to_storage(&mut self, gn_flag: bool) -> (outcome: Result<(), StorageError>)
        ensures
            final(self).wallet_spec() == old(self).wallet_spec(),
            final(self).idle() == old(self).idle(),
            match outcome {
                Ok(_) => final(self).stored() == write_all(
                    old(self).stored(),
                    encode_spec(old(self).wallet_spec(), gn_flag),
                ) && (gn_flag || fields_of(old(self).stored()).genesis == Some(
                    old(self).wallet_spec().genesis,
                ) ==> final(self).in_sync()),
                Err(_) => final(self).stored() == old(self).stored(),
            },
            old(self).storage_ready() ==> outcome is Ok && final(self).storage_ready(),
    {
        save_wallet(&mut self.storage, self.manager.wallet(), gn_flag)
    }

    /// Saves the wallet without its genesis configuration.
    pub fn persist(&mut self) -> (outcome: Result<(), StorageError>)
        ensures
            final(self).wallet_spec() == old(self).wallet_spec(),
            final(self).idle() == old(self).idle(),
            match outcome {
                Ok(_) => final(self).stored() == write_all(
                    old(self).stored(),
                    encode_spec(old(self).wallet_spec(), false),
                ),
                Err(_) => final(self).stored() == old(self).stored(),
            },
            old(self).in_sync() ==> final(self).in_sync(),
            old(self).storage_ready() ==> outcome is Ok && final(self).storage_ready(),
    {
        self.save_to_storage(false)
    }

    /// Flushes a staged change and settles it by what the flush came to.
    fn commit<T>(&mut self, staged: Staged<T>) -> (outcome: Result<T, MutateError>)
        requires
            !old(self).idle(),
            staged.wallet_spec().genesis == old(self).wallet_spec().genesis,
        ensures
            final(self).idle(),
            match outcome {
                Ok(value) => final(self).wallet_spec() == staged.wallet_spec() && value
                    == staged.value_spec() && final(self).stored() == write_all(
                    old(self).stored(),
                    encode_spec(staged.wallet_spec(), false),
                ),
                Err(error) => final(self).wallet_spec() == old(self).wallet_spec() && final(self).stored() == old(self).stored() && error is Storage,
            },
            old(self).in_sync() ==> final(self).in_sync(),
            old(self).storage_ready() ==> outcome is Ok && final(self).storage_ready(),
    {
        let _ = staged.wallet();
        let batch = staged.writes();
        let flushed = self.storage.write_fields(batch);
        proof {
            if flushed is Ok && old(self).in_sync() {
                lemma_round_trip_keeping_genesis(old(self).stored(), staged.wallet_spec());
            }
        }
        self.manager.settle(staged, flushed)
    }

    /// Applies `change` to the wallet and flushes the result before
    /// returning. The change is made on the wallet as the previous change
    /// left it. A change that would replace the genesis configuration is
    /// refused. Where the change is refused or its flush fails, the error is
    /// reported and the wallet stays as it was, in memory as in storage.
    pub fn mutate<T, F: FnOnce(WalletSnapshot) -> (WalletSnapshot, T)>(&mut self, change: F) -> (outcome:
        Result<T, MutateError>)
        requires
            forall|wallet: WalletSnapshot|
                wallet@ == old(self).wallet_spec() ==> change.requires((wallet,)),
        ensures
            match outcome {
                Ok(value) => {
                    &&& old(self).idle()
                    &&& may_change(
                        change,
                        old(self).wallet_spec(),
                        final(self).wallet_spec(),
                        value,
                    )
                    &&& final(self).wallet_spec().genesis == old(self).wallet_spec().genesis
                    &&& final(self).stored() == write_all(
                        old(self).stored(),
                        encode_spec(final(self).wallet_spec(), false),
                    )
                },
                Err(error) => {
                    &&& final(self).wallet_spec() == old(self).wallet_spec()
                    &&& final(self).stored() == old(self).stored()
                    &&& error == MutateError::Busy <==> !old(self).idle()
                    &&& error is GenesisChanged ==> exists|after: SnapshotView, value: T| #[trigger]
                        may_change(change, old(self).wallet_spec(), after, value) && after.genesis
                            != old(self).wallet_spec().genesis
                    &&& error is GenesisChanged || error is Storage || error is Busy
                },
            },
            old(self).idle() ==> final(self).idle(),
            old(self).in_sync() ==> final(self).in_sync(),
            old(self).storage_ready() ==> !(outcome matches Err(MutateError::Storage(_))) && final(self).storage_ready(),
    {
        match self.manager.stage(change) {
            Err(error) => Err(error),
            Ok(staged) => self.commit(staged),
        }
    }

    /// Assigns `chain_id` to `owner` and makes it the default chain, then
    /// flushes the change; the stored genesis configuration is not
    /// rewritten.
    pub fn assign_chain(&mut self, owner: Owner, chain_id: ChainId, timestamp: u64) -> (outcome:
        Result<(), MutateError>)
        ensures
            match outcome {
                Ok(_) => old(self).idle() && final(self).wallet_spec() == old(self).wallet_spec().assign(owner, chain_id, timestamp).with_default(chain_id) && final(self).stored() == write_all(
                    old(self).stored(),
                    encode_spec(final(self).wallet_spec(), false),
                ),
                Err(error) => final(self).wallet_spec() == old(self).wallet_spec() && final(self).stored() == old(self).stored() && (error == MutateError::Busy <==> !old(self).idle()) && (error is Storage || error is Busy),
            },
            final(self).wallet_spec().genesis == old(self).wallet_spec().genesis,
            old(self).idle() ==> final(self).idle(),
            old(self).in_sync() ==> final(self).in_sync(),
            old(self).storage_ready() ==> final(self).storage_ready(),
            old(self).idle() && old(self).storage_ready() ==> outcome is Ok,
    {
        match self.manager.stage_assign_chain(owner, chain_id, timestamp) {
            Err(error) => Err(error),
            Ok(staged) => self.commit(staged),
        }
    }

    /// Makes `chain_id` the default chain and flushes the change. Refused,
    /// with nothing changed, where the wallet does not follow the chain.
    pub fn set_default_chain(&mut self, chain_id: ChainId) -> (outcome: Result<(), MutateError>)
        ensures
            match outcome {
                Ok(_) => old(self).idle() && contains_chain(
                    old(self).wallet_spec().chains,
                    chain_id,
                ) && final(self).wallet_spec() == old(self).wallet_spec().with_default(chain_id)
                    && final(self).stored() == write_all(
                    old(self).stored(),
                    encode_spec(final(self).wallet_spec(), false),
                ),
                Err(error) => final(self).wallet_spec() == old(self).wallet_spec() && final(self).stored() == old(self).stored() && (error == MutateError::Busy <==> !old(self).idle()) && (old(self).idle() ==> if contains_chain(
                    old(self).wallet_spec().chains,
                    chain_id,
                ) {
                    error is Storage
                } else {
                    error == MutateError::Wallet(WalletError::NonexistentChain(chain_id))
                }),
            },
            old(self).idle() ==> final(self).idle(),
            old(self).in_sync() ==> final(self).in_sync(),
            old(self).storage_ready() ==> final(self).storage_ready(),
            old(self).idle() && old(self).storage_ready() && contains_chain(
                old(self).wallet_spec().chains,
                chain_id,
            ) ==> outcome is Ok,
    {
        match self.manager.stage_default_chain(chain_id) {
            Err(error) => Err(error),
            Ok(staged) => self.commit(staged),
        }
    }

    /// Takes over what the chain client now knows of a chain: the row is
    /// replaced or added, and the change is flushed.
    pub fn resync(&mut self, entry: ChainEntry) -> (outcome: Result<(), MutateError>)
        ensures
            match outcome {
                Ok(_) => old(self).idle() && final(self).wallet_spec() == old(self).wallet_spec().insert(entry) && final(self).stored() == write_all(
                    old(self).stored(),
                    encode_spec(final(self).wallet_spec(), false),
                ),
                Err(error) => final(self).wallet_spec() == old(self).wallet_spec() && final(self).stored() == old(self).stored() && (error == MutateError::Busy <==> !old(self).idle()) && (error is Storage || error is Busy),
            },
            old(self).idle() ==> final(self).idle(),
            old(self).in_sync() ==> final(self).in_sync(),
            old(self).storage_ready() ==> final(self).storage_ready(),
            old(self).idle() && old(self).storage_ready() ==> outcome is Ok,
    {
        match self.manager.stage_resync(entry) {
            Err(error) => Err(error),
            Ok(staged) => self.commit(staged),
        }
    }
}

/// A store that holds nothing holds no wallet: loading from it reports
/// `NotFound`.
pub proof fn lemma_empty_store_has_no_wallet()
    ensures
        durable_wallet(Map::empty()) == Err::<SnapshotView, DecodeError>(DecodeError::NotFound),
{
}

/// After a wallet is saved with its genesis configuration, the store holds
/// that wallet, whatever it held before: loading gives the wallet back.
pub proof fn lemma_load_after_save(contents: Map<Seq<char>, Seq<u8>>, wallet: SnapshotView)
    requires
        wallet.valid(),
    ensures
        durable_wallet(write_all(contents, encode_spec(wallet, true))) == Ok::<
            SnapshotView,
            DecodeError,
        >(wallet),
{
    lemma_round_trip(contents, wallet);
}

/// Flushes are totally ordered: after the flush of one change and then of a
/// second, the store holds the wallet of the first and then the wallet of
/// the second, with nothing of the first left over.
pub proof fn lemma_flushes_in_order(
    contents: Map<Seq<char>, Seq<u8>>,
    first: SnapshotView,
    second: SnapshotView,
)
    requires
        first.valid(),
        second.valid(),
        fields_of(contents).genesis == Some(first.genesis),
        second.genesis == first.genesis,
    ensures
        durable_wallet(write_all(contents, encode_spec(first, false))) == Ok::<
            SnapshotView,
            DecodeError,
        >(first),
        durable_wallet(
            write_all(write_all(contents, encode_spec(first, false)), encode_spec(second, false)),
        ) == Ok::<SnapshotView, DecodeError>(second),
{
    lemma_round_trip_keeping_genesis(contents, first);
    let between = write_all(contents, encode_spec(first, false));
    lemma_fields_after_save(contents, first, false);
    lemma_round_trip_keeping_genesis(between, second);
}

} // verus!
