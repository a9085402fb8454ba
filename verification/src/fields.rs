//! The wallet as independently stored fields.
//!
//! A wallet is kept as four fields, each written and read on its own: the
//! chain table under `chains`, the default chain under `default`, the keys
//! that wait for a chain under `unassigned_keys` and the genesis
//! configuration under `genesis`. The default chain is stored as the word
//! `null` or as the 64 hexadecimal digits of the chain; the genesis
//! configuration is stored as its JSON text.

use vstd::prelude::*;
use vstd::slice::slice_to_vec;
use vstd::string::StringExecFns;
use crate::hex::hex_text;
use crate::ident::{lemma_chain_id_hex_round_trip, ChainId};
use crate::json::is_json_document;
use crate::keys::{decode_keys, encode_keys, keys_bytes, lemma_keys_round_trip, read_keys, KeyEntry};
use crate::snapshot::{contains_chain, ChainEntry, GenesisConfig, SnapshotView, WalletSnapshot};
use crate::table::{decode_table, encode_table, lemma_table_round_trip, read_table, table_bytes};

verus! {

/// The fields of a stored wallet.
#[derive(Clone, Copy, Debug, PartialEq, Eq, Structural)]
pub enum FieldName {
    Chains,
    Default,
    UnassignedKeys,
    Genesis,
}

/// Why stored fields do not give a wallet.
#[derive(Clone, Copy, Debug, PartialEq, Eq, Structural)]
pub enum DecodeError {
    /// No genesis configuration is stored: no wallet has been saved yet.
    NotFound,
    /// The field is present and cannot be decoded.
    CorruptState(FieldName),
}

/// The key under which the chain table is stored.
pub open spec fn chains_key() -> Seq<char> {
    "chains"@
}

/// The key under which the default chain is stored.
pub open spec fn default_key() -> Seq<char> {
    "default"@
}

/// The key under which the keys that wait for a chain are stored.
pub open spec fn unassigned_keys_key() -> Seq<char> {
    "unassigned_keys"@
}

/// The key under which the genesis configuration is stored.
pub open spec fn genesis_key() -> Seq<char> {
    "genesis"@
}

impl FieldName {
    /// The key under which the field is stored.
    pub open spec fn key_spec(self) -> Seq<char> {
        match self {
            FieldName::Chains => chains_key(),
            FieldName::Default => default_key(),
            FieldName::UnassignedKeys => unassigned_keys_key(),
            FieldName::Genesis => genesis_key(),
        }
    }

    /// The key under which the field is stored.
    pub fn key(&self) -> (key: &'static str)
        ensures
            key@ == self.key_spec(),
    {
        match self {
            FieldName::Chains => "chains",
            FieldName::Default => "default",
            FieldName::UnassignedKeys => "unassigned_keys",
            FieldName::Genesis => "genesis",
        }
    }
}

/// The four fields are stored under four different keys.
pub proof fn lemma_keys_differ()
    ensures
        forall|a: FieldName, b: FieldName| a != b ==> a.key_spec() != b.key_spec(),
{
    reveal_strlit("chains");
    reveal_strlit("default");
    reveal_strlit("unassigned_keys");
    reveal_strlit("genesis");
    assert(chains_key().len() == 6);
    assert(default_key().len() == 7);
    assert(unassigned_keys_key().len() == 15);
    assert(genesis_key().len() == 7);
    assert(default_key()[0] == 'd');
    assert(genesis_key()[0] == 'g');
}

/// One field to write: a key and the bytes to store under it.
#[derive(Clone, Debug, PartialEq, Eq)]
pub struct FieldWrite {
    pub key: String,
    pub value: Vec<u8>,
}

impl View for FieldWrite {
    type V = (Seq<char>, Seq<u8>);

    open spec fn view(&self) -> (Seq<char>, Seq<u8>) {
        (self.key@, self.value@)
    }
}

/// The writes of a batch, as keys and bytes.
pub open spec fn batch_view(batch: Seq<FieldWrite>) -> Seq<(Seq<char>, Seq<u8>)> {
    batch.map_values(|write: FieldWrite| write@)
}

/// What a store holds for the four fields of a wallet: for each field its
/// bytes, or `None` where it was never written.
#[derive(Clone, Debug, PartialEq, Eq)]
pub struct StoredFields {
    pub chains: Option<Vec<u8>>,
    pub default_chain: Option<Vec<u8>>,
    pub unassigned_keys: Option<Vec<u8>>,
    pub genesis: Option<Vec<u8>>,
}

/// The mathematical content of [`StoredFields`].
pub struct FieldsView {
    pub chains: Option<Seq<u8>>,
    pub default_chain: Option<Seq<u8>>,
    pub unassigned_keys: Option<Seq<u8>>,
    pub genesis: Option<Seq<u8>>,
}

impl FieldsView {
    /// The bytes of the field `name`.
    pub open spec fn field(self, name: FieldName) -> Option<Seq<u8>> {
        match name {
            FieldName::Chains => self.chains,
            FieldName::Default => self.default_chain,
            FieldName::UnassignedKeys => self.unassigned_keys,
            FieldName::Genesis => self.genesis,
        }
    }
}

/// The bytes that `contents` holds under `key`.
pub open spec fn stored_under(contents: Map<Seq<char>, Seq<u8>>, key: Seq<char>) -> Option<Seq<u8>> {
    if contents.contains_key(key) {
        Some(contents[key])
    } else {
        None
    }
}

/// The bytes of a field that may be absent.
pub open spec fn bytes_view(bytes: Option<Vec<u8>>) -> Option<Seq<u8>> {
    match bytes {
        Some(b) => Some(b@),
        None => None,
    }
}

impl View for StoredFields {
    type V = FieldsView;

    open spec fn view(&self) -> FieldsView {
        FieldsView {
            chains: bytes_view(self.chains),
            default_chain: bytes_view(self.default_chain),
            unassigned_keys: bytes_view(self.unassigned_keys),
            genesis: bytes_view(self.genesis),
        }
    }
}

/// The four wallet fields of a store that holds `contents`.
pub open spec fn fields_of(contents: Map<Seq<char>, Seq<u8>>) -> FieldsView {
    FieldsView {
        chains: stored_under(contents, chains_key()),
        default_chain: stored_under(contents, default_key()),
        unassigned_keys: stored_under(contents, unassigned_keys_key()),
        genesis: stored_under(contents, genesis_key()),
    }
}

/// What a store holds after the writes of `batch`, applied in order to a
/// store that held `contents`.
pub open spec fn write_all(contents: Map<Seq<char>, Seq<u8>>, batch: Seq<(Seq<char>, Seq<u8>)>) -> Map<
    Seq<char>,
    Seq<u8>,
>
    decreases batch.len(),
{
    if batch.len() == 0 {
        contents
    } else {
        write_all(contents, batch.drop_last()).insert(batch.last().0, batch.last().1)
    }
}

/// The word that stands for "no default chain".
pub open spec fn null_text() -> Seq<u8> {
    seq![110u8, 117u8, 108u8, 108u8]
}

/// What the default chain field says. The three cases are kept apart: a
/// field that was never written, a field that says "none", and a field that
/// names a chain.
#[derive(Clone, Copy, Debug, PartialEq, Eq)]
pub enum DefaultField {
    /// The field was never written.
    Absent,
    /// The field is empty or holds the word `null`.
    Null,
    /// The field holds the bare hexadecimal digits of this chain.
    Chain(ChainId),
}

impl DefaultField {
    /// The default chain that the field gives: a chain where it names one,
    /// none otherwise.
    pub open spec fn chain(self) -> Option<ChainId> {
        match self {
            DefaultField::Chain(id) => Some(id),
            _ => None,
        }
    }

    /// The default chain that the field gives.
    pub fn into_chain(self) -> (chain: Option<ChainId>)
        ensures
            chain == self.chain(),
    {
        match self {
            DefaultField::Chain(id) => Some(id),
            _ => None,
        }
    }
}

/// The stored form of the default chain.
pub open spec fn default_bytes(default_chain: Option<ChainId>) -> Seq<u8> {
    match default_chain {
        None => null_text(),
        Some(id) => hex_text(id@),
    }
}

/// What the default chain field says, or `None` where it is present and
/// says none of the three things it can say.
pub open spec fn default_field(field: Option<Seq<u8>>) -> Option<DefaultField> {
    match field {
        None => Some(DefaultField::Absent),
        Some(bytes) => if bytes.len() == 0 || bytes == null_text() {
            Some(DefaultField::Null)
        } else {
            match ChainId::from_hex_spec(bytes) {
                Some(id) => Some(DefaultField::Chain(id)),
                None => None,
            }
        },
    }
}

/// The default chain of a field that may be absent.
pub open spec fn decode_default_field(field: Option<Seq<u8>>) -> Option<Option<ChainId>> {
    match default_field(field) {
        Some(said) => Some(said.chain()),
        None => None,
    }
}

/// The chain table of a field that may be absent.
pub open spec fn decode_chains_field(field: Option<Seq<u8>>) -> Option<Seq<ChainEntry>> {
    match field {
        None => Some(Seq::empty()),
        Some(bytes) => decode_table(bytes),
    }
}

/// The waiting keys of a field that may be absent.
pub open spec fn decode_keys_field(field: Option<Seq<u8>>) -> Option<Seq<KeyEntry>> {
    match field {
        None => Some(Seq::empty()),
        Some(bytes) => decode_keys(bytes),
    }
}

/// The genesis configuration that `bytes` holds: the bytes themselves, where
/// they are a JSON document.
pub open spec fn decode_genesis(bytes: Seq<u8>) -> Option<Seq<u8>> {
    if is_json_document(bytes) {
        Some(bytes)
    } else {
        None
    }
}

/// The wallet that stored fields give.
///
/// Without a genesis configuration there is no wallet. An absent chain table
/// is an empty table, an absent default chain is none, and absent keys are
/// no keys. A field that is present and cannot be decoded is corrupt; of
/// several such fields the genesis configuration is named first, then the
/// chain table, then the default chain, then the keys. Where every field can
/// be decoded and the default chain has no row in the table, the default
/// chain is corrupt.
pub open spec fn decode_spec(fields: FieldsView) -> Result<SnapshotView, DecodeError> {
    match fields.genesis {
        None => Err(DecodeError::NotFound),
        Some(genesis_bytes) => match decode_genesis(genesis_bytes) {
            None => Err(DecodeError::CorruptState(FieldName::Genesis)),
            Some(genesis) => match decode_chains_field(fields.chains) {
                None => Err(DecodeError::CorruptState(FieldName::Chains)),
                Some(chains) => match decode_default_field(fields.default_chain) {
                    None => Err(DecodeError::CorruptState(FieldName::Default)),
                    Some(default_chain) => match decode_keys_field(fields.unassigned_keys) {
                        None => Err(DecodeError::CorruptState(FieldName::UnassignedKeys)),
                        Some(unassigned_keys) => if default_chain matches Some(id)
                            && !contains_chain(chains, id) {
                            Err(DecodeError::CorruptState(FieldName::Default))
                        } else {
                            Ok(SnapshotView { chains, default_chain, unassigned_keys, genesis })
                        },
                    },
                },
            },
        },
    }
}

/// The writes that save a wallet: the chain table, the default chain, the
/// waiting keys and, where asked for, the genesis configuration, in this
/// order.
pub open spec fn encode_spec(snapshot: SnapshotView, include_genesis: bool) -> Seq<
    (Seq<char>, Seq<u8>),
> {
    let always = seq![
        (chains_key(), table_bytes(snapshot.chains)),
        (default_key(), default_bytes(snapshot.default_chain)),
        (unassigned_keys_key(), keys_bytes(snapshot.unassigned_keys)),
    ];
    if include_genesis {
        always.push((genesis_key(), snapshot.genesis))
    } else {
        always
    }
}

/// The stored form of the default chain is read back as that default chain.
pub proof fn lemma_default_round_trip(default_chain: Option<ChainId>)
    ensures
        default_field(Some(default_bytes(default_chain))) == Some(
            match default_chain {
                None => DefaultField::Null,
                Some(id) => DefaultField::Chain(id),
            },
        ),
        decode_default_field(Some(default_bytes(default_chain))) == Some(default_chain),
{
    match default_chain {
        None => {},
        Some(id) => {
            lemma_chain_id_hex_round_trip(id);
            assert(hex_text(id@).len() == 64);
            assert(null_text().len() == 4);
        },
    }
}

/// What a store holds after the writes that save a wallet, whatever it held
/// before: the stored forms of the chain table, of the default chain and of
/// the waiting keys; the genesis configuration where it was written, and
/// what was there where it was not; and under every other key what was
/// there.
pub proof fn lemma_fields_after_save(
    contents: Map<Seq<char>, Seq<u8>>,
    snapshot: SnapshotView,
    include_genesis: bool,
)
    ensures
        ({
            let after = fields_of(write_all(contents, encode_spec(snapshot, include_genesis)));
            &&& after.chains == Some(table_bytes(snapshot.chains))
            &&& after.default_chain == Some(default_bytes(snapshot.default_chain))
            &&& after.unassigned_keys == Some(keys_bytes(snapshot.unassigned_keys))
            &&& after.genesis == if include_genesis {
                Some(snapshot.genesis)
            } else {
                fields_of(contents).genesis
            }
        }),
        forall|key: Seq<char>|
            key != chains_key() && key != default_key() && key != unassigned_keys_key() && key
                != genesis_key() ==> #[trigger] stored_under(
                write_all(contents, encode_spec(snapshot, include_genesis)),
                key,
            ) == stored_under(contents, key),
{
    lemma_keys_differ();
    assert(FieldName::Chains.key_spec() == chains_key());
    assert(FieldName::Default.key_spec() == default_key());
    assert(FieldName::UnassignedKeys.key_spec() == unassigned_keys_key());
    assert(FieldName::Genesis.key_spec() == genesis_key());
    let chains = (chains_key(), table_bytes(snapshot.chains));
    let default_chain = (default_key(), default_bytes(snapshot.default_chain));
    let keys = (unassigned_keys_key(), keys_bytes(snapshot.unassigned_keys));
    let genesis = (genesis_key(), snapshot.genesis);
    let one = seq![chains];
    let two = seq![chains, default_chain];
    let three = seq![chains, default_chain, keys];
    let four = three.push(genesis);
    assert(one.drop_last() =~= Seq::empty());
    assert(two.drop_last() =~= one);
    assert(three.drop_last() =~= two);
    assert(four.drop_last() =~= three);
    let m0 = write_all(contents, Seq::empty());
    assert(m0 == contents);
    let m1 = write_all(contents, one);
    assert(m1 == m0.insert(chains.0, chains.1));
    let m2 = write_all(contents, two);
    assert(m2 == m1.insert(default_chain.0, default_chain.1));
    let m3 = write_all(contents, three);
    assert(m3 == m2.insert(keys.0, keys.1));
    let m4 = write_all(contents, four);
    assert(m4 == m3.insert(genesis.0, genesis.1));
}

/// Saving a wallet with its genesis configuration and decoding what the
/// store then holds gives the wallet back, whatever the store held before.
pub proof fn lemma_round_trip(contents: Map<Seq<char>, Seq<u8>>, snapshot: SnapshotView)
    requires
        snapshot.valid(),
    ensures
        decode_spec(fields_of(write_all(contents, encode_spec(snapshot, true)))) == Ok::<
            SnapshotView,
            DecodeError,
        >(snapshot),
{
    lemma_fields_after_save(contents, snapshot, true);
    lemma_table_round_trip(snapshot.chains);
    lemma_default_round_trip(snapshot.default_chain);
    lemma_keys_round_trip(snapshot.unassigned_keys);
}

/// Saving a wallet without its genesis configuration leaves the stored
/// genesis configuration as it was: where the store held that of the wallet,
/// decoding gives the wallet back.
pub proof fn lemma_round_trip_keeping_genesis(
    contents: Map<Seq<char>, Seq<u8>>,
    snapshot: SnapshotView,
)
    requires
        snapshot.valid(),
        fields_of(contents).genesis == Some(snapshot.genesis),
    ensures
        decode_spec(fields_of(write_all(contents, encode_spec(snapshot, false)))) == Ok::<
            SnapshotView,
            DecodeError,
        >(snapshot),
{
    lemma_fields_after_save(contents, snapshot, false);
    lemma_table_round_trip(snapshot.chains);
    lemma_default_round_trip(snapshot.default_chain);
    lemma_keys_round_trip(snapshot.unassigned_keys);
}

/// Whether the field `name` can be decoded where it holds `bytes`: an absent
/// field can, but for the genesis configuration.
pub open spec fn field_decodes(name: FieldName, bytes: Option<Seq<u8>>) -> bool {
    match name {
        FieldName::Chains => decode_chains_field(bytes) is Some,
        FieldName::Default => decode_default_field(bytes) is Some,
        FieldName::UnassignedKeys => decode_keys_field(bytes) is Some,
        FieldName::Genesis => bytes matches Some(document) && decode_genesis(document) is Some,
    }
}

/// Each field is decoded from its own bytes alone. After one field is
/// written, with whatever bytes, that field holds those bytes and every
/// other field holds what it held: an undecodable value under one key
/// corrupts that field, and every other field decodes as it did.
pub proof fn lemma_field_independence(
    contents: Map<Seq<char>, Seq<u8>>,
    written: FieldName,
    bytes: Seq<u8>,
)
    ensures
        fields_of(contents.insert(written.key_spec(), bytes)).field(written) == Some(bytes),
        forall|other: FieldName|
            other != written ==> #[trigger] fields_of(
                contents.insert(written.key_spec(), bytes),
            ).field(other) == fields_of(contents).field(other),
        forall|other: FieldName|
            other != written ==> #[trigger] field_decodes(
                other,
                fields_of(contents.insert(written.key_spec(), bytes)).field(other),
            ) == field_decodes(other, fields_of(contents).field(other)),
        !field_decodes(written, Some(bytes)) ==> decode_spec(
            fields_of(contents.insert(written.key_spec(), bytes)),
        ) is Err,
{
    lemma_keys_differ();
    let after = fields_of(contents.insert(written.key_spec(), bytes));
    assert forall|other: FieldName| other != written implies #[trigger] after.field(other)
        == fields_of(contents).field(other) by {
        assert(other.key_spec() != written.key_spec());
    }
    assert forall|other: FieldName| other != written implies #[trigger] field_decodes(
        other,
        after.field(other),
    ) == field_decodes(other, fields_of(contents).field(other)) by {
        assert(after.field(other) == fields_of(contents).field(other));
    }
}

/// A wallet is decoded exactly where its genesis configuration is stored,
/// every field can be decoded and the default chain has a row; a field that
/// is named corrupt is one that cannot be decoded, or the default chain
/// without a row.
pub proof fn lemma_decode_outcomes(fields: FieldsView)
    ensures
        decode_spec(fields) == Err::<SnapshotView, DecodeError>(DecodeError::NotFound)
            <==> fields.genesis is None,
        forall|name: FieldName| #[trigger]
            field_decodes(name, fields.field(name)) || fields.genesis is None || decode_spec(
                fields,
            ) is Err,
        forall|name: FieldName|
            decode_spec(fields) == Err::<SnapshotView, DecodeError>(
                DecodeError::CorruptState(name),
            ) ==> !(#[trigger] field_decodes(name, fields.field(name))) || name
                == FieldName::Default,
        decode_spec(fields) matches Ok(wallet) ==> wallet.valid() && wallet.genesis
            == fields.genesis->0,
{
    assert forall|name: FieldName| #[trigger]
        field_decodes(name, fields.field(name)) || fields.genesis is None || decode_spec(
            fields,
        ) is Err by {
        match name {
            FieldName::Chains => {},
            FieldName::Default => {},
            FieldName::UnassignedKeys => {},
            FieldName::Genesis => {},
        }
    }
}

/// Says what the default chain field says.
pub fn read_default_field(field: &Option<Vec<u8>>) -> (said: Option<DefaultField>)
    ensures
        said == default_field(bytes_view(*field)),
{
    let bytes = match field {
        None => { return Some(DefaultField::Absent); },
        Some(bytes) => bytes,
    };
    if bytes.len() == 0 {
        return Some(DefaultField::Null);
    }
    if bytes.len() == 4 && bytes[0] == 110 && bytes[1] == 117 && bytes[2] == 108 && bytes[3]
        == 108 {
        assert(bytes@ =~= null_text());
        return Some(DefaultField::Null);
    }
    assert(bytes@ != null_text()) by {
        if bytes@ == null_text() {
            assert(bytes@.len() == 4);
            assert(bytes@[0] == 110 && bytes@[1] == 117 && bytes@[2] == 108 && bytes@[3] == 108);
        }
    }
    match ChainId::from_hex(bytes.as_slice()) {
        Some(id) => Some(DefaultField::Chain(id)),
        None => None,
    }
}

/// The stored form of the default chain.
pub fn write_default(default_chain: &Option<ChainId>) -> (bytes: Vec<u8>)
    ensures
        bytes@ == default_bytes(*default_chain),
{
    match default_chain {
        None => {
            let mut bytes: Vec<u8> = Vec::new();
            bytes.push(110u8);
            bytes.push(117u8);
            bytes.push(108u8);
            bytes.push(108u8);
            assert(bytes@ =~= null_text());
            bytes
        },
        Some(id) => id.to_hex(),
    }
}

/// Decodes a wallet from its stored fields.
pub fn decode(fields: StoredFields) -> (outcome: Result<WalletSnapshot, DecodeError>)
    ensures
        match outcome {
            Ok(wallet) => decode_spec(fields@) == Ok::<SnapshotView, DecodeError>(wallet@)
                && wallet@.valid(),
            Err(error) => decode_spec(fields@) == Err::<SnapshotView, DecodeError>(error),
        },
{
    let StoredFields { chains, default_chain, unassigned_keys, genesis } = fields;
    let genesis_config = match genesis {
        None => { return Err(DecodeError::NotFound); },
        Some(bytes) => match GenesisConfig::parse(bytes) {
            Some(config) => config,
            None => { return Err(DecodeError::CorruptState(FieldName::Genesis)); },
        },
    };
    let rows = match chains {
        None => Vec::new(),
        Some(bytes) => match read_table(bytes.as_slice()) {
            Some(rows) => rows,
            None => { return Err(DecodeError::CorruptState(FieldName::Chains)); },
        },
    };
    let chosen = match read_default_field(&default_chain) {
        Some(said) => said.into_chain(),
        None => { return Err(DecodeError::CorruptState(FieldName::Default)); },
    };
    let keys = match unassigned_keys {
        None => Vec::new(),
        Some(bytes) => match read_keys(bytes.as_slice()) {
            Some(keys) => keys,
            None => { return Err(DecodeError::CorruptState(FieldName::UnassignedKeys)); },
        },
    };
    match WalletSnapshot::from_parts(rows, chosen, keys, genesis_config) {
        Some(wallet) => Ok(wallet),
        None => Err(DecodeError::CorruptState(FieldName::Default)),
    }
}

/// Encodes a wallet as the writes that save it. The genesis configuration
/// never changes once written, so it is left out unless `include_genesis`
/// asks for it.
pub fn encode(wallet: &WalletSnapshot, include_genesis: bool) -> (batch: Vec<FieldWrite>)
    ensures
        batch_view(batch@) == encode_spec(wallet@, include_genesis),
{
    let mut batch: Vec<FieldWrite> = Vec::new();
    batch.push(
        FieldWrite { key: String::from_str("chains"), value: encode_table(wallet.chains()) },
    );
    let default_chain = wallet.default_chain();
    batch.push(
        FieldWrite { key: String::from_str("default"), value: write_default(&default_chain) },
    );
    batch.push(
        FieldWrite {
            key: String::from_str("unassigned_keys"),
            value: encode_keys(wallet.unassigned_keys()),
        },
    );
    if include_genesis {
        let document = slice_to_vec(wallet.genesis_config().document());
        batch.push(FieldWrite { key: String::from_str("genesis"), value: document });
    }
    assert(batch_view(batch@) =~= encode_spec(wallet@, include_genesis));
    batch
}

} // verus!
