//! The owner of the live wallet.
//!
//! A [`WalletStateManager`] holds the one in-memory wallet. A change is made
//! in two steps. It is first staged: made on a copy of the wallet and turned
//! into the writes that save it. Once the caller has flushed the writes, the
//! change is settled: with a successful flush the copy becomes the wallet,
//! with a failed one it is dropped, and the wallet in memory is never ahead
//! of the wallet in storage. While a change waits for its flush no other can
//! be staged, so that changes never interleave.

use vstd::prelude::*;
use crate::fields::{
    batch_view, decode, decode_spec, encode, encode_spec, DecodeError, FieldName, FieldWrite,
    StoredFields,
};
use crate::ident::{ChainId, Owner};
use crate::snapshot::{
    contains_chain, fresh_record, lemma_with_entry, ChainEntry, SnapshotView, WalletError,
    WalletSnapshot,
};
use crate::store::StorageError;

verus! {

/// Why no wallet could be loaded.
#[derive(Clone, Copy, Debug, PartialEq, Eq, Structural)]
pub enum LoadError {
    /// No wallet has been saved yet.
    NotFound,
    /// A stored field is present and cannot be decoded.
    CorruptState(FieldName),
    /// The store could not be read.
    Storage(StorageError),
}

/// Why a change to the wallet was not made.
#[derive(Clone, Copy, Debug, PartialEq, Eq)]
pub enum MutateError {
    /// The wallet refused the change.
    Wallet(WalletError),
    /// The change would replace the genesis configuration, which never
    /// changes once written.
    GenesisChanged,
    /// The change could not be flushed to storage.
    Storage(StorageError),
    /// Another change waits for its flush.
    Busy,
    /// No change waits for a flush.
    NotStaged,
}

/// The error that a failed decoding is reported as.
pub open spec fn load_error(error: DecodeError) -> LoadError {
    match error {
        DecodeError::NotFound => LoadError::NotFound,
        DecodeError::CorruptState(field) => LoadError::CorruptState(field),
    }
}

/// Whether `change`, given a wallet with the content `before`, may return a
/// wallet with the content `after` together with `value`.
pub open spec fn may_change<T, F: FnOnce(WalletSnapshot) -> (WalletSnapshot, T)>(
    change: F,
    before: SnapshotView,
    after: SnapshotView,
    value: T,
) -> bool {
    exists|given: WalletSnapshot, made: WalletSnapshot|
        given@ == before && made@ == after && #[trigger] change.ensures((given,), (made, value))
}

/// What loading reports for stored fields that were read.
pub fn decode_loaded(fields: StoredFields) -> (outcome: Result<WalletSnapshot, LoadError>)
    ensures
        match outcome {
            Ok(wallet) => decode_spec(fields@) == Ok::<SnapshotView, DecodeError>(wallet@)
                && wallet@.valid(),
            Err(error) => decode_spec(fields@) matches Err(cause) && error == load_error(cause),
        },
{
    match decode(fields) {
        Ok(wallet) => Ok(wallet),
        Err(DecodeError::NotFound) => Err(LoadError::NotFound),
        Err(DecodeError::CorruptState(field)) => Err(LoadError::CorruptState(field)),
    }
}

/// A change that has been made on a copy of the wallet and waits for its
/// flush.
#[derive(Debug, PartialEq, Eq)]
pub struct Staged<T> {
    wallet: WalletSnapshot,
    value: T,
}

impl<T> Staged<T> {
    /// The wallet as the change leaves it.
    pub closed spec fn wallet_spec(&self) -> SnapshotView {
        self.wallet@
    }

    /// What the change returns.
    pub closed spec fn value_spec(&self) -> T {
        self.value
    }

    /// The wallet as the change leaves it.
    pub fn wallet(&self) -> (wallet: &WalletSnapshot)
        ensures
            wallet@ == self.wallet_spec(),
            wallet@.valid(),
    {
        self.wallet.check();
        &self.wallet
    }

    /// The writes that flush the change: the fields of the wallet as the
    /// change leaves it, without the genesis configuration.
    pub fn writes(&self) -> (batch: Vec<FieldWrite>)
        ensures
            batch_view(batch@) == encode_spec(self.wallet_spec(), false),
    {
        encode(&self.wallet, false)
    }
}

/// The owner of the live wallet.
#[derive(Debug, PartialEq, Eq)]
pub struct WalletStateManager {
    wallet: WalletSnapshot,
    flushing: bool,
}

impl WalletStateManager {
    /// The wallet in memory.
    pub closed spec fn wallet_spec(&self) -> SnapshotView {
        self.wallet@
    }

    /// Whether a change waits for its flush.
    pub closed spec fn is_flushing(&self) -> bool {
        self.flushing
    }

    /// Takes charge of `wallet`.
    pub fn new(wallet: WalletSnapshot) -> (manager: WalletStateManager)
        ensures
            manager.wallet_spec() == wallet@,
            !manager.is_flushing(),
    {
        WalletStateManager { wallet, flushing: false }
    }

    /// The wallet in memory.
    pub fn wallet(&self) -> (wallet: &WalletSnapshot)
        ensures
            wallet@ == self.wallet_spec(),
            wallet@.valid(),
    {
        self.wallet.check();
        &self.wallet
    }

    /// Whether a change waits for its flush.
    pub fn flushing(&self) -> (flushing: bool)
        ensures
            flushing == self.is_flushing(),
    {
        self.flushing
    }

    /// Gives up the wallet.
    pub fn into_wallet(self) -> (wallet: WalletSnapshot)
        ensures
            wallet@ == self.wallet_spec(),
    {
        self.wallet
    }

    /// Marks `wallet` as the change that waits for its flush.
    fn begin<T>(&mut self, wallet: WalletSnapshot, value: T) -> (staged: Staged<T>)
        requires
            !old(self).is_flushing(),
        ensures
            final(self).wallet_spec() == old(self).wallet_spec(),
            final(self).is_flushing(),
            staged.wallet_spec() == wallet@,
            staged.value_spec() == value,
    {
        self.flushing = true;
        Staged { wallet, value }
    }

    /// Stages `change`: applies it to a copy of the wallet as the previous
    /// change left it. Refused with `Busy` while another change waits for
    /// its flush, and with `GenesisChanged` where the change would replace
    /// the genesis configuration. The wallet itself stays as it is until the
    /// change is settled.
    pub fn stage<T, F: FnOnce(WalletSnapshot) -> (WalletSnapshot, T)>(&mut self, change: F) -> (outcome:
        Result<Staged<T>, MutateError>)
        requires
            forall|wallet: WalletSnapshot|
                wallet@ == old(self).wallet_spec() ==> change.requires((wallet,)),
        ensures
            final(self).wallet_spec() == old(self).wallet_spec(),
            match outcome {
                Ok(staged) => {
                    &&& !old(self).is_flushing()
                    &&& final(self).is_flushing()
                    &&& may_change(
                        change,
                        old(self).wallet_spec(),
                        staged.wallet_spec(),
                        staged.value_spec(),
                    )
                    &&& staged.wallet_spec().genesis == old(self).wallet_spec().genesis
                },
                Err(error) => {
                    &&& final(self).is_flushing() == old(self).is_flushing()
                    &&& error == MutateError::Busy <==> old(self).is_flushing()
                    &&& !old(self).is_flushing() ==> error == MutateError::GenesisChanged
                        && exists|after: SnapshotView, value: T| #[trigger]
                        may_change(change, old(self).wallet_spec(), after, value) && after.genesis
                            != old(self).wallet_spec().genesis
                },
            },
    {
        if self.flushing {
            return Err(MutateError::Busy);
        }
        let before = self.wallet.duplicate();
        let ghost given = before;
        let (after, value) = change(before);
        assert(change.ensures((given,), (after, value)));
        assert(may_change(change, old(self).wallet_spec(), after@, value));
        if !after.same_genesis(&self.wallet) {
            return Err(MutateError::GenesisChanged);
        }
        Ok(self.begin(after, value))
    }

    /// Stages the assignment of `chain_id` to `owner`, with the chain as the
    /// new default chain.
    pub fn stage_assign_chain(&mut self, owner: Owner, chain_id: ChainId, timestamp: u64) -> (outcome:
        Result<Staged<()>, MutateError>)
        ensures
            final(self).wallet_spec() == old(self).wallet_spec(),
            match outcome {
                Ok(staged) => !old(self).is_flushing() && final(self).is_flushing()
                    && staged.wallet_spec() == old(self).wallet_spec().assign(
                    owner,
                    chain_id,
                    timestamp,
                ).with_default(chain_id),
                Err(error) => old(self).is_flushing() && final(self).is_flushing() && error
                    == MutateError::Busy,
            },
    {
        if self.flushing {
            return Err(MutateError::Busy);
        }
        self.wallet.check();
        let mut staged = self.wallet.duplicate();
        proof {
            lemma_with_entry(
                staged@.chains,
                ChainEntry { chain_id, record: fresh_record(owner, timestamp) },
            );
        }
        staged.assign_new_chain_to_owner(owner, chain_id, timestamp);
        let chosen = staged.set_default_chain(chain_id);
        assert(chosen is Ok);
        Ok(self.begin(staged, ()))
    }

    /// Stages the choice of `chain_id` as the default chain. Refused where
    /// the wallet does not follow the chain.
    pub fn stage_default_chain(&mut self, chain_id: ChainId) -> (outcome: Result<
        Staged<()>,
        MutateError,
    >)
        ensures
            final(self).wallet_spec() == old(self).wallet_spec(),
            match outcome {
                Ok(staged) => !old(self).is_flushing() && final(self).is_flushing()
                    && contains_chain(old(self).wallet_spec().chains, chain_id)
                    && staged.wallet_spec() == old(self).wallet_spec().with_default(chain_id),
                Err(error) => final(self).is_flushing() == old(self).is_flushing() && error == (
                if old(self).is_flushing() {
                    MutateError::Busy
                } else {
                    MutateError::Wallet(WalletError::NonexistentChain(chain_id))
                }) && (!old(self).is_flushing() ==> !contains_chain(
                    old(self).wallet_spec().chains,
                    chain_id,
                )),
            },
    {
        if self.flushing {
            return Err(MutateError::Busy);
        }
        let mut staged = self.wallet.duplicate();
        match staged.set_default_chain(chain_id) {
            Err(cause) => Err(MutateError::Wallet(cause)),
            Ok(_) => Ok(self.begin(staged, ())),
        }
    }

    /// Stages what the chain client now knows of a chain: its row is
    /// replaced or added.
    pub fn stage_resync(&mut self, entry: ChainEntry) -> (outcome: Result<Staged<()>, MutateError>)
        ensures
            final(self).wallet_spec() == old(self).wallet_spec(),
            match outcome {
                Ok(staged) => !old(self).is_flushing() && final(self).is_flushing()
                    && staged.wallet_spec() == old(self).wallet_spec().insert(entry),
                Err(error) => old(self).is_flushing() && final(self).is_flushing() && error
                    == MutateError::Busy,
            },
    {
        if self.flushing {
            return Err(MutateError::Busy);
        }
        let mut staged = self.wallet.duplicate();
        staged.insert(entry);
        Ok(self.begin(staged, ()))
    }

    /// Settles the change that waits for its flush. With a successful flush
    /// the staged wallet becomes the wallet and the change's value is handed
    /// out; with a failed one the flush's error is reported and the wallet
    /// stays as it was. Either way no change waits any longer. Refused with
    /// `NotStaged`, and nothing changed, where no change waited or where
    /// `staged` is for another network than the wallet.
    pub fn settle<T>(&mut self, staged: Staged<T>, flushed: Result<(), StorageError>) -> (outcome:
        Result<T, MutateError>)
        ensures
            match outcome {
                Ok(value) => {
                    &&& old(self).is_flushing()
                    &&& !final(self).is_flushing()
                    &&& flushed is Ok
                    &&& staged.wallet_spec().genesis == old(self).wallet_spec().genesis
                    &&& final(self).wallet_spec() == staged.wallet_spec()
                    &&& value == staged.value_spec()
                },
                Err(error) => {
                    &&& final(self).wallet_spec() == old(self).wallet_spec()
                    &&& if !old(self).is_flushing() || staged.wallet_spec().genesis != old(self).wallet_spec().genesis {
                        error == MutateError::NotStaged && final(self).is_flushing() == old(self).is_flushing()
                    } else {
                        !final(self).is_flushing() && flushed is Err && error
                            == MutateError::Storage(flushed->Err_0)
                    }
                },
            },
    {
        if !self.flushing || !staged.wallet.same_genesis(&self.wallet) {
            return Err(MutateError::NotStaged);
        }
        self.flushing = false;
        match flushed {
            Ok(_) => {
                let Staged { wallet, value } = staged;
                self.wallet = wallet;
                Ok(value)
            },
            Err(cause) => Err(MutateError::Storage(cause)),
        }
    }
}

} // verus!
