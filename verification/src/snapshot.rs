//! The in-memory wallet: the chains it follows, the chain it uses by default
//! and the genesis configuration of the network.

use vstd::prelude::*;
use vstd::slice::slice_to_vec;
use crate::ident::{ChainId, Owner};
use crate::json::{check_document, is_json_document};
use crate::keys::{
    all_distinct_owners, distinct_owners, find_key, lemma_key_position,
    lemma_with_key, lemma_without_key, secret_of, with_key, without_key, KeyEntry, SecretKeyRef,
};
use crate::wire::bytes_equal;

verus! {

/// What the wallet remembers of one chain.
#[derive(Clone, Copy, Debug, PartialEq, Eq)]
pub struct ChainRecord {
    /// The account that signs blocks on the chain, if the wallet holds one.
    pub owner: Option<Owner>,
    /// The height of the next block to propose.
    pub block_height: u64,
    /// The timestamp of the latest block, or of the chain's creation.
    pub timestamp: u64,
    /// The epoch of the committee that the chain last saw.
    pub epoch: Option<u32>,
}

/// One row of the wallet's chain table.
#[derive(Clone, Copy, Debug, PartialEq, Eq)]
pub struct ChainEntry {
    pub chain_id: ChainId,
    pub record: ChainRecord,
}

/// The record with which a chain newly assigned to `owner` starts.
pub open spec fn fresh_record(owner: Owner, timestamp: u64) -> ChainRecord {
    ChainRecord { owner: Some(owner), block_height: 0, timestamp, epoch: None }
}

/// Whether `chains` has a row for `id`.
pub open spec fn contains_chain(chains: Seq<ChainEntry>, id: ChainId) -> bool {
    exists|i: int| 0 <= i < chains.len() && (#[trigger] chains[i]).chain_id == id
}

/// Whether no two rows of `chains` are for the same chain.
pub open spec fn distinct_ids(chains: Seq<ChainEntry>) -> bool {
    forall|i: int, j: int|
        0 <= i < j < chains.len() ==> (#[trigger] chains[i]).chain_id != (#[trigger] chains[j]).chain_id
}

/// The position of the row for `id`.
pub open spec fn position_of(chains: Seq<ChainEntry>, id: ChainId) -> int {
    choose|i: int| 0 <= i < chains.len() && (#[trigger] chains[i]).chain_id == id
}

/// The record that `chains` holds for `id`.
pub open spec fn record_of(chains: Seq<ChainEntry>, id: ChainId) -> Option<ChainRecord> {
    if contains_chain(chains, id) {
        Some(chains[position_of(chains, id)].record)
    } else {
        None
    }
}

/// `chains` with the row for `entry.chain_id` replaced by `entry`, or with
/// `entry` added as the last row where the chain is new.
pub open spec fn with_entry(chains: Seq<ChainEntry>, entry: ChainEntry) -> Seq<ChainEntry> {
    if contains_chain(chains, entry.chain_id) {
        chains.update(position_of(chains, entry.chain_id), entry)
    } else {
        chains.push(entry)
    }
}

/// The network's genesis configuration: a JSON document that the wallet
/// carries unread.
#[derive(Debug, PartialEq, Eq)]
pub struct GenesisConfig {
    document: Vec<u8>,
}

impl View for GenesisConfig {
    type V = Seq<u8>;

    closed spec fn view(&self) -> Seq<u8> {
        self.document@
    }
}

impl GenesisConfig {
    #[verifier::type_invariant]
    spec fn well_formed(self) -> bool {
        is_json_document(self.document@)
    }

    /// Accepts `document` as a genesis configuration where it is a
    /// well-formed JSON document.
    pub fn parse(document: Vec<u8>) -> (config: Option<GenesisConfig>)
        ensures
            match config {
                Some(c) => c@ == document@ && is_json_document(document@),
                None => !is_json_document(document@),
            },
    {
        if check_document(document.as_slice()) {
            Some(GenesisConfig { document })
        } else {
            None
        }
    }

    /// The bytes of the document.
    pub fn document(&self) -> (bytes: &[u8])
        ensures
            bytes@ == self@,
            is_json_document(self@),
    {
        proof {
            use_type_invariant(self);
        }
        self.document.as_slice()
    }

    /// A second copy of the configuration.
    pub fn duplicate(&self) -> (copy: GenesisConfig)
        ensures
            copy@ == self@,
    {
        proof {
            use_type_invariant(self);
        }
        GenesisConfig { document: slice_to_vec(self.document.as_slice()) }
    }
}

/// The mathematical content of a wallet.
pub struct SnapshotView {
    /// The chain table, oldest row first.
    pub chains: Seq<ChainEntry>,
    /// The chain used where none is named.
    pub default_chain: Option<ChainId>,
    /// The keys that wait for a chain, oldest row first.
    pub unassigned_keys: Seq<KeyEntry>,
    /// The bytes of the genesis configuration.
    pub genesis: Seq<u8>,
}

impl SnapshotView {
    /// The wallet's invariant: one row per chain, a default chain that has a
    /// row, one waiting key per owner, and a genesis configuration that is a
    /// JSON document.
    pub open spec fn valid(self) -> bool {
        &&& distinct_ids(self.chains)
        &&& self.default_chain matches Some(id) ==> contains_chain(self.chains, id)
        &&& distinct_owners(self.unassigned_keys)
        &&& is_json_document(self.genesis)
    }

    /// The wallet without chains or keys for the network of `genesis`.
    pub open spec fn empty(genesis: Seq<u8>) -> SnapshotView {
        SnapshotView {
            chains: Seq::empty(),
            default_chain: None,
            unassigned_keys: Seq::empty(),
            genesis,
        }
    }

    /// The wallet after `entry` is inserted: the row is replaced or added, and
    /// a wallet without a default chain takes the entry's chain.
    pub open spec fn insert(self, entry: ChainEntry) -> SnapshotView {
        SnapshotView {
            chains: with_entry(self.chains, entry),
            default_chain: match self.default_chain {
                Some(id) => Some(id),
                None => Some(entry.chain_id),
            },
            ..self
        }
    }

    /// The wallet after `chain_id` is assigned to `owner`: the chain has a
    /// fresh record, and a key that waited for the owner waits no longer.
    pub open spec fn assign(self, owner: Owner, chain_id: ChainId, timestamp: u64) -> SnapshotView {
        SnapshotView {
            unassigned_keys: without_key(self.unassigned_keys, owner),
            ..self.insert(ChainEntry { chain_id, record: fresh_record(owner, timestamp) })
        }
    }

    /// The wallet with `entry` among the keys that wait for a chain.
    pub open spec fn with_unassigned_key(self, entry: KeyEntry) -> SnapshotView {
        SnapshotView { unassigned_keys: with_key(self.unassigned_keys, entry), ..self }
    }

    /// The wallet without a waiting key for `owner`.
    pub open spec fn without_unassigned_key(self, owner: Owner) -> SnapshotView {
        SnapshotView { unassigned_keys: without_key(self.unassigned_keys, owner), ..self }
    }

    /// The wallet with `chain_id` as its default chain.
    pub open spec fn with_default(self, chain_id: ChainId) -> SnapshotView {
        SnapshotView { default_chain: Some(chain_id), ..self }
    }
}

/// Replacing or adding a row keeps the table free of repeated chains, keeps
/// every chain it had, and holds the new row.
pub proof fn lemma_with_entry(chains: Seq<ChainEntry>, entry: ChainEntry)
    requires
        distinct_ids(chains),
    ensures
        distinct_ids(with_entry(chains, entry)),
        contains_chain(with_entry(chains, entry), entry.chain_id),
        record_of(with_entry(chains, entry), entry.chain_id) == Some(entry.record),
        forall|id: ChainId|
            contains_chain(chains, id) ==> contains_chain(with_entry(chains, entry), id),
        forall|id: ChainId|
            id != entry.chain_id ==> record_of(with_entry(chains, entry), id) == record_of(
                chains,
                id,
            ),
{
    let after = with_entry(chains, entry);
    let at = if contains_chain(chains, entry.chain_id) {
        position_of(chains, entry.chain_id)
    } else {
        chains.len() as int
    };
    assert(after.len() == if contains_chain(chains, entry.chain_id) {
        chains.len()
    } else {
        chains.len() + 1
    });
    assert(after[at] == entry);
    assert forall|i: int| 0 <= i < after.len() && i != at implies #[trigger] after[i]
        == chains[i] by {}
    assert forall|i: int| 0 <= i < after.len() && i != at implies (#[trigger] after[i]).chain_id
        != entry.chain_id by {
        if contains_chain(chains, entry.chain_id) {
            assert(chains[at].chain_id == entry.chain_id);
            if i < at {
                assert(chains[i].chain_id != chains[at].chain_id);
            } else {
                assert(chains[at].chain_id != chains[i].chain_id);
            }
        } else {
            assert(chains[i].chain_id != entry.chain_id);
        }
    }
    assert forall|i: int, j: int| 0 <= i < j < after.len() implies (#[trigger] after[i]).chain_id
        != (#[trigger] after[j]).chain_id by {
        if i != at && j != at {
            assert(chains[i].chain_id != chains[j].chain_id);
        }
    }
    assert(contains_chain(after, entry.chain_id));
    let found = position_of(after, entry.chain_id);
    assert(found == at);
    assert forall|id: ChainId| contains_chain(chains, id) implies contains_chain(after, id) by {
        let i = position_of(chains, id);
        if i == at {
            assert(after[at].chain_id == id);
        } else {
            assert(after[i].chain_id == id);
        }
    }
    assert forall|id: ChainId| id != entry.chain_id implies record_of(after, id) == record_of(
        chains,
        id,
    ) by {
        if contains_chain(chains, id) {
            let i = position_of(chains, id);
            assert(i != at);
            assert(after[i].chain_id == id);
            let k = position_of(after, id);
            assert(k != at);
            assert(after[k] == chains[k]);
            if k < i {
                assert(chains[k].chain_id != chains[i].chain_id);
            } else if i < k {
                assert(chains[i].chain_id != chains[k].chain_id);
            }
        } else if contains_chain(after, id) {
            let k = position_of(after, id);
            assert(k != at);
            assert(chains[k].chain_id == id);
        }
    }
}

/// The wallet: the chains it follows, its default chain and the genesis
/// configuration it was created from.
#[derive(Debug, PartialEq, Eq)]
pub struct WalletSnapshot {
    chains: Vec<ChainEntry>,
    default_chain: Option<ChainId>,
    unassigned_keys: Vec<KeyEntry>,
    genesis_config: GenesisConfig,
}

/// Why a change to the wallet was refused.
#[derive(Clone, Copy, Debug, PartialEq, Eq)]
pub enum WalletError {
    /// The chain named has no row in the wallet.
    NonexistentChain(ChainId),
}

impl View for WalletSnapshot {
    type V = SnapshotView;

    closed spec fn view(&self) -> SnapshotView {
        SnapshotView {
            chains: self.chains@,
            default_chain: self.default_chain,
            unassigned_keys: self.unassigned_keys@,
            genesis: self.genesis_config@,
        }
    }
}

impl WalletSnapshot {
    #[verifier::type_invariant]
    spec fn well_formed(self) -> bool {
        &&& distinct_ids(self.chains@)
        &&& self.default_chain matches Some(id) ==> contains_chain(self.chains@, id)
        &&& distinct_owners(self.unassigned_keys@)
    }

    /// A wallet without chains or keys for the network of `genesis_config`.
    pub fn new(genesis_config: GenesisConfig) -> (wallet: WalletSnapshot)
        ensures
            wallet@ == SnapshotView::empty(genesis_config@),
            wallet@.valid(),
    {
        let _ = genesis_config.document();
        WalletSnapshot {
            chains: Vec::new(),
            default_chain: None,
            unassigned_keys: Vec::new(),
            genesis_config,
        }
    }

    /// Puts a wallet together from its parts; `None` where a chain or an
    /// owner has two rows or the default chain has none.
    pub fn from_parts(
        chains: Vec<ChainEntry>,
        default_chain: Option<ChainId>,
        unassigned_keys: Vec<KeyEntry>,
        genesis_config: GenesisConfig,
    ) -> (wallet: Option<WalletSnapshot>)
        ensures
            ({
                let view = SnapshotView {
                    chains: chains@,
                    default_chain,
                    unassigned_keys: unassigned_keys@,
                    genesis: genesis_config@,
                };
                match wallet {
                    Some(w) => w@ == view && view.valid(),
                    None => !view.valid(),
                }
            }),
    {
        let _ = genesis_config.document();
        if !all_distinct(&chains) {
            return None;
        }
        match default_chain {
            Some(id) => {
                if find_chain(&chains, &id).is_none() {
                    return None;
                }
            },
            None => {},
        }
        if !all_distinct_owners(&unassigned_keys) {
            return None;
        }
        Some(WalletSnapshot { chains, default_chain, unassigned_keys, genesis_config })
    }

    /// States the wallet's invariant of its content.
    pub fn check(&self)
        ensures
            self@.valid(),
    {
        proof {
            use_type_invariant(self);
        }
        let _ = self.genesis_config.document();
    }

    /// The rows of the chain table, oldest first.
    pub fn chains(&self) -> (rows: &Vec<ChainEntry>)
        ensures
            rows@ == self@.chains,
    {
        &self.chains
    }

    /// The number of chains in the wallet.
    pub fn num_chains(&self) -> (count: usize)
        ensures
            count == self@.chains.len(),
    {
        self.chains.len()
    }

    /// The identifiers of the wallet's chains, oldest first.
    pub fn chain_ids(&self) -> (ids: Vec<ChainId>)
        ensures
            ids@.len() == self@.chains.len(),
            forall|i: int| 0 <= i < ids@.len() ==> ids@[i] == self@.chains[i].chain_id,
    {
        let mut ids: Vec<ChainId> = Vec::new();
        let mut i: usize = 0;
        while i < self.chains.len()
            invariant
                0 <= i <= self.chains@.len(),
                ids@.len() == i,
                forall|j: int| 0 <= j < i ==> ids@[j] == self.chains@[j].chain_id,
            decreases self.chains@.len() - i,
        {
            ids.push(self.chains[i].chain_id);
            i += 1;
        }
        ids
    }

    /// The chain used where none is named.
    pub fn default_chain(&self) -> (id: Option<ChainId>)
        ensures
            id == self@.default_chain,
    {
        self.default_chain
    }

    /// The keys that wait for a chain, oldest first.
    pub fn unassigned_keys(&self) -> (rows: &Vec<KeyEntry>)
        ensures
            rows@ == self@.unassigned_keys,
    {
        &self.unassigned_keys
    }

    /// The reference to the key that waits for `owner`, if one does.
    pub fn unassigned_key(&self, owner: &Owner) -> (secret: Option<SecretKeyRef>)
        ensures
            secret == secret_of(self@.unassigned_keys, *owner),
    {
        proof {
            use_type_invariant(self);
        }
        match find_key(&self.unassigned_keys, owner) {
            Some(i) => {
                proof {
                    lemma_key_position(self.unassigned_keys@, i as int);
                }
                Some(self.unassigned_keys[i].secret)
            },
            None => None,
        }
    }

    /// The genesis configuration.
    pub fn genesis_config(&self) -> (config: &GenesisConfig)
        ensures
            config@ == self@.genesis,
    {
        &self.genesis_config
    }

    /// The record of `chain_id`, if the wallet follows that chain.
    pub fn get(&self, chain_id: &ChainId) -> (record: Option<ChainRecord>)
        ensures
            record == record_of(self@.chains, *chain_id),
    {
        proof {
            use_type_invariant(self);
        }
        match find_chain(&self.chains, chain_id) {
            Some(i) => {
                proof {
                    let k = position_of(self.chains@, *chain_id);
                    if k < i {
                        assert(self.chains@[k].chain_id != self.chains@[i as int].chain_id);
                    } else if i < k {
                        assert(self.chains@[i as int].chain_id != self.chains@[k].chain_id);
                    }
                }
                Some(self.chains[i].record)
            },
            None => None,
        }
    }

    /// Whether `self` and `other` have the same genesis configuration.
    pub fn same_genesis(&self, other: &WalletSnapshot) -> (same: bool)
        ensures
            same == (self@.genesis == other@.genesis),
    {
        bytes_equal(self.genesis_config.document(), other.genesis_config.document())
    }

    /// A second copy of the wallet.
    pub fn duplicate(&self) -> (copy: WalletSnapshot)
        ensures
            copy@ == self@,
    {
        proof {
            use_type_invariant(self);
        }
        let chains = slice_to_vec(self.chains.as_slice());
        let unassigned_keys = slice_to_vec(self.unassigned_keys.as_slice());
        WalletSnapshot {
            chains,
            default_chain: self.default_chain,
            unassigned_keys,
            genesis_config: self.genesis_config.duplicate(),
        }
    }

    /// Inserts `entry`: replaces the row of its chain or adds it as the last
    /// row. A wallet without a default chain takes the entry's chain.
    pub fn insert(&mut self, entry: ChainEntry)
        ensures
            final(self)@ == old(self)@.insert(entry),
            final(self)@.valid(),
    {
        proof {
            use_type_invariant(&*self);
            lemma_with_entry(self.chains@, entry);
        }
        let _ = self.genesis_config.document();
        let previous = self.default_chain;
        self.default_chain = None;
        let mut chains: Vec<ChainEntry> = Vec::new();
        core::mem::swap(&mut self.chains, &mut chains);
        match find_chain(&chains, &entry.chain_id) {
            Some(i) => {
                proof {
                    let k = position_of(chains@, entry.chain_id);
                    if k < i {
                        assert(chains@[k].chain_id != chains@[i as int].chain_id);
                    } else if i < k {
                        assert(chains@[i as int].chain_id != chains@[k].chain_id);
                    }
                }
                chains.set(i, entry);
            },
            None => {
                chains.push(entry);
            },
        }
        core::mem::swap(&mut self.chains, &mut chains);
        self.default_chain = match previous {
            Some(id) => Some(id),
            None => Some(entry.chain_id),
        };
    }

    /// Adds `secret` as the key that waits for `owner`, in place of one that
    /// waited for the same owner.
    pub fn add_unassigned_key(&mut self, owner: Owner, secret: SecretKeyRef)
        ensures
            final(self)@ == old(self)@.with_unassigned_key(KeyEntry { owner, secret }),
            final(self)@.valid(),
    {
        let entry = KeyEntry { owner, secret };
        proof {
            use_type_invariant(&*self);
            lemma_with_key(self.unassigned_keys@, entry);
        }
        let _ = self.genesis_config.document();
        let mut keys: Vec<KeyEntry> = Vec::new();
        core::mem::swap(&mut self.unassigned_keys, &mut keys);
        match find_key(&keys, &owner) {
            Some(i) => {
                proof {
                    lemma_key_position(keys@, i as int);
                }
                keys.set(i, entry);
            },
            None => {
                keys.push(entry);
            },
        }
        core::mem::swap(&mut self.unassigned_keys, &mut keys);
    }

    /// Takes the key that waits for `owner` out of the wallet.
    pub fn take_unassigned_key(&mut self, owner: &Owner) -> (secret: Option<SecretKeyRef>)
        ensures
            secret == secret_of(old(self)@.unassigned_keys, *owner),
            final(self)@ == old(self)@.without_unassigned_key(*owner),
            final(self)@.valid(),
    {
        proof {
            use_type_invariant(&*self);
            lemma_without_key(self.unassigned_keys@, *owner);
        }
        let _ = self.genesis_config.document();
        let mut keys: Vec<KeyEntry> = Vec::new();
        core::mem::swap(&mut self.unassigned_keys, &mut keys);
        let secret = match find_key(&keys, owner) {
            Some(i) => {
                proof {
                    lemma_key_position(keys@, i as int);
                }
                Some(keys.remove(i).secret)
            },
            None => None,
        };
        core::mem::swap(&mut self.unassigned_keys, &mut keys);
        secret
    }

    /// Assigns `chain_id` to `owner`: the chain gets a fresh record, with no
    /// block yet and `timestamp` as its time, and a key that waited for the
    /// owner waits no longer.
    pub fn assign_new_chain_to_owner(&mut self, owner: Owner, chain_id: ChainId, timestamp: u64)
        ensures
            final(self)@ == old(self)@.assign(owner, chain_id, timestamp),
            final(self)@.valid(),
    {
        let record = ChainRecord { owner: Some(owner), block_height: 0, timestamp, epoch: None };
        self.insert(ChainEntry { chain_id, record });
        let _ = self.take_unassigned_key(&owner);
    }

    /// Makes `chain_id` the default chain; refused, with the wallet
    /// unchanged, where the wallet does not follow that chain.
    pub fn set_default_chain(&mut self, chain_id: ChainId) -> (outcome: Result<(), WalletError>)
        ensures
            match outcome {
                Ok(_) => contains_chain(old(self)@.chains, chain_id) && final(self)@ == old(self)@.with_default(chain_id),
                Err(e) => !contains_chain(old(self)@.chains, chain_id) && final(self)@ == old(self)@ && e == WalletError::NonexistentChain(chain_id),
            },
            final(self)@.valid(),
    {
        proof {
            use_type_invariant(&*self);
        }
        let _ = self.genesis_config.document();
        match find_chain(&self.chains, &chain_id) {
            Some(_) => {
                self.default_chain = Some(chain_id);
                Ok(())
            },
            None => Err(WalletError::NonexistentChain(chain_id)),
        }
    }
}

/// The position of a row for `id` in `chains`.
pub fn find_chain(chains: &Vec<ChainEntry>, id: &ChainId) -> (position: Option<usize>)
    ensures
        match position {
            Some(i) => i < chains@.len() && chains@[i as int].chain_id == *id,
            None => !contains_chain(chains@, *id),
        },
{
    let mut i: usize = 0;
    while i < chains.len()
        invariant
            0 <= i <= chains@.len(),
            forall|j: int| 0 <= j < i ==> (#[trigger] chains@[j]).chain_id != *id,
        decreases chains@.len() - i,
    {
        if chains[i].chain_id.equals(id) {
            return Some(i);
        }
        i += 1;
    }
    None
}

/// Whether no two rows of `chains` are for the same chain.
pub fn all_distinct(chains: &Vec<ChainEntry>) -> (distinct: bool)
    ensures
        distinct == distinct_ids(chains@),
{
    let mut j: usize = 0;
    while j < chains.len()
        invariant
            0 <= j <= chains@.len(),
            distinct_ids(chains@.subrange(0, j as int)),
        decreases chains@.len() - j,
    {
        let mut i: usize = 0;
        while i < j
            invariant
                0 <= i <= j < chains@.len(),
                forall|k: int| 0 <= k < i ==> (#[trigger] chains@[k]).chain_id != chains@[j as int].chain_id,
            decreases j - i,
        {
            if chains[i].chain_id.equals(&chains[j].chain_id) {
                assert(chains@[i as int].chain_id == chains@[j as int].chain_id);
                return false;
            }
            i += 1;
        }
        proof {
            let before = chains@.subrange(0, j as int);
            let now = chains@.subrange(0, j + 1);
            assert forall|a: int, b: int| 0 <= a < b < now.len() implies (#[trigger] now[a]).chain_id
                != (#[trigger] now[b]).chain_id by {
                if b < j {
                    assert(before[a].chain_id != before[b].chain_id);
                } else {
                    assert(chains@[a].chain_id != chains@[j as int].chain_id);
                }
            }
        }
        j += 1;
    }
    assert(chains@.subrange(0, j as int) =~= chains@);
    true
}

} // verus!
