use std::str::FromStr;

use croissant_wallet::fields::{
    decode, encode, read_default_field, write_default, DecodeError, DefaultField, FieldName,
    FieldWrite, StoredFields,
};
use croissant_wallet::hex::{decode_hex, encode_hex};
use croissant_wallet::ident::{ChainId, Owner};
use croissant_wallet::json::check_document;
use croissant_wallet::keys::{encode_keys, read_keys, KeyEntry, SecretKeyRef};
use croissant_wallet::snapshot::{ChainEntry, ChainRecord, GenesisConfig, WalletSnapshot};
use croissant_wallet::table::{encode_table, read_table};

const GENESIS: &[u8] = b"{\"network\":\"test\",\"chains\":[1,2,3]}";

fn genesis() -> GenesisConfig {
    GenesisConfig::parse(GENESIS.to_vec()).unwrap()
}

fn stored(batch: Vec<FieldWrite>) -> StoredFields {
    let mut fields =
        StoredFields { chains: None, default_chain: None, unassigned_keys: None, genesis: None };
    for write in batch {
        match write.key.as_str() {
            "chains" => fields.chains = Some(write.value),
            "default" => fields.default_chain = Some(write.value),
            "unassigned_keys" => fields.unassigned_keys = Some(write.value),
            "genesis" => fields.genesis = Some(write.value),
            other => panic!("unexpected key {other}"),
        }
    }
    fields
}

fn sample_entry() -> ChainEntry {
    ChainEntry {
        chain_id: ChainId::new([0x11; 32]),
        record: ChainRecord {
            owner: Some(Owner::Reserved(7)),
            block_height: 1,
            timestamp: 2,
            epoch: Some(3),
        },
    }
}

fn sample_wallet() -> WalletSnapshot {
    let mut wallet = WalletSnapshot::new(genesis());
    let first = ChainId::new([7u8; 32]);
    let second = ChainId::new([9u8; 32]);
    wallet.add_unassigned_key(Owner::Address20([5u8; 20]), SecretKeyRef([6u8; 32]));
    wallet.assign_new_chain_to_owner(Owner::Address32([1u8; 32]), first, 1_700_000_000_000_000);
    wallet.insert(ChainEntry {
        chain_id: second,
        record: ChainRecord {
            owner: Some(Owner::Address20([2u8; 20])),
            block_height: 42,
            timestamp: 5,
            epoch: Some(3),
        },
    });
    wallet.insert(ChainEntry {
        chain_id: ChainId::new([3u8; 32]),
        record: ChainRecord { owner: None, block_height: u64::MAX, timestamp: 0, epoch: None },
    });
    wallet
}

#[test]
fn hex_of_bytes_is_lower_case_pairs() {
    assert_eq!(encode_hex(&[0x00, 0x0f, 0xa5, 0xff]), b"000fa5ff".to_vec());
    assert_eq!(encode_hex(&[]), Vec::<u8>::new());
}

#[test]
fn hex_is_read_in_either_case() {
    assert_eq!(decode_hex(b"000FA5ff"), Some(vec![0x00, 0x0f, 0xa5, 0xff]));
    assert_eq!(decode_hex(b""), Some(vec![]));
}

#[test]
fn hex_rejects_strangers_and_odd_lengths() {
    assert_eq!(decode_hex(b"0g"), None);
    assert_eq!(decode_hex(b"abc"), None);
    assert_eq!(decode_hex(b" 0"), None);
    assert_eq!(decode_hex("é0".as_bytes()), None);
}

#[test]
fn hex_round_trips_every_byte() {
    let all: Vec<u8> = (0..=255u8).collect();
    assert_eq!(decode_hex(&encode_hex(&all)), Some(all));
}

#[test]
fn chain_id_hex_is_sixty_four_digits() {
    let mut bytes = [0u8; 32];
    bytes[0] = 0xab;
    bytes[31] = 0x01;
    let id = ChainId::new(bytes);
    let text = id.to_hex();
    assert_eq!(text.len(), 64);
    assert_eq!(&text[..2], b"ab");
    assert_eq!(&text[62..], b"01");
    assert_eq!(ChainId::from_hex(&text), Some(id));
}

#[test]
fn chain_id_hex_must_spell_thirty_two_bytes() {
    assert_eq!(ChainId::from_hex(b"abcd"), None);
    assert_eq!(ChainId::from_hex(&[b'0'; 66]), None);
    assert_eq!(ChainId::from_hex(&[b'0'; 63]), None);
    assert_eq!(ChainId::from_hex(&[b'z'; 64]), None);
    assert_eq!(ChainId::from_hex(&[b'F'; 64]), Some(ChainId::new([0xff; 32])));
}

#[test]
fn chain_id_hex_agrees_with_the_chain_client() {
    let mut bytes = [0u8; 32];
    for (i, byte) in bytes.iter_mut().enumerate() {
        *byte = (i as u8).wrapping_mul(37).wrapping_add(11);
    }
    let ours = ChainId::new(bytes);
    let theirs = linera_base::identifiers::ChainId(linera_base::crypto::CryptoHash::from(bytes));
    let text = String::from_utf8(ours.to_hex()).unwrap();
    assert_eq!(text, theirs.to_string());
    assert_eq!(linera_base::identifiers::ChainId::from_str(&text).unwrap(), theirs);
    let upper = text.to_uppercase();
    assert_eq!(ChainId::from_hex(upper.as_bytes()), Some(ours));
    assert_eq!(linera_base::identifiers::ChainId::from_str(&upper).unwrap(), theirs);
    for bad in ["", "00", "null", &text[1..], &format!("{text}00"), &format!("0x{}", &text[2..])] {
        assert_eq!(
            ChainId::from_hex(bad.as_bytes()).is_some(),
            linera_base::identifiers::ChainId::from_str(bad).is_ok(),
            "{bad}"
        );
    }
}

#[test]
fn chain_ids_compare_by_their_bytes() {
    let a = ChainId::new([1u8; 32]);
    let mut other = [1u8; 32];
    other[31] = 2;
    assert!(a.equals(&ChainId::new([1u8; 32])));
    assert!(!a.equals(&ChainId::new(other)));
    assert_eq!(a.as_bytes(), &[1u8; 32]);
    assert_eq!(ChainId::from_slice(&[4u8; 40]), ChainId::new([4u8; 32]));
}

#[test]
fn owners_compare_by_kind_and_bytes() {
    assert!(Owner::Reserved(3).equals(&Owner::Reserved(3)));
    assert!(!Owner::Reserved(3).equals(&Owner::Reserved(4)));
    assert!(Owner::Address32([3; 32]).equals(&Owner::Address32([3; 32])));
    assert!(!Owner::Address32([3; 32]).equals(&Owner::Address32([4; 32])));
    assert!(Owner::Address20([3; 20]).equals(&Owner::Address20([3; 20])));
    assert!(!Owner::Address20([3; 20]).equals(&Owner::Address20([4; 20])));
    assert!(!Owner::Address20([0; 20]).equals(&Owner::Reserved(0)));
}

#[test]
fn a_row_is_laid_out_field_by_field() {
    let bytes = encode_table(&vec![sample_entry()]);
    let mut expected = vec![0x11u8; 32];
    expected.extend_from_slice(&[1, 7]);
    expected.extend_from_slice(&[1, 0, 0, 0, 0, 0, 0, 0]);
    expected.extend_from_slice(&[2, 0, 0, 0, 0, 0, 0, 0]);
    expected.extend_from_slice(&[1, 3, 0, 0, 0]);
    assert_eq!(bytes, expected);
    assert_eq!(read_table(&bytes), Some(vec![sample_entry()]));
}

#[test]
fn a_row_without_owner_and_epoch_is_fifty_bytes() {
    let entry = ChainEntry {
        chain_id: ChainId::new([0xee; 32]),
        record: ChainRecord {
            owner: None,
            block_height: 0x0102030405060708,
            timestamp: 0,
            epoch: None,
        },
    };
    let bytes = encode_table(&vec![entry]);
    assert_eq!(bytes.len(), 50);
    assert_eq!(bytes[32], 0);
    assert_eq!(&bytes[33..41], &[8, 7, 6, 5, 4, 3, 2, 1]);
    assert_eq!(bytes[49], 0);
    assert_eq!(read_table(&bytes), Some(vec![entry]));
}

#[test]
fn the_empty_table_is_no_bytes() {
    assert_eq!(encode_table(&vec![]), Vec::<u8>::new());
    assert_eq!(read_table(&[]), Some(vec![]));
}

#[test]
fn a_table_keeps_the_order_of_its_rows() {
    let wallet = sample_wallet();
    let bytes = encode_table(wallet.chains());
    let rows = read_table(&bytes).unwrap();
    assert_eq!(&rows, wallet.chains());
    assert_eq!(rows[0].chain_id, ChainId::new([7u8; 32]));
    assert_eq!(rows[2].chain_id, ChainId::new([3u8; 32]));
}

#[test]
fn a_cut_table_is_refused() {
    let mut second = sample_entry();
    second.chain_id = ChainId::new([0x12; 32]);
    let bytes = encode_table(&vec![sample_entry(), second]);
    assert_eq!(bytes.len(), 110);
    assert!(read_table(&bytes).is_some());
    for cut in 1..bytes.len() {
        if cut == bytes.len() / 2 {
            continue;
        }
        assert_eq!(read_table(&bytes[..cut]), None, "cut at {cut}");
    }
}

#[test]
fn a_table_with_an_unknown_tag_is_refused() {
    let mut bytes = encode_table(&vec![sample_entry()]);
    bytes[32] = 4;
    assert_eq!(read_table(&bytes), None);
    let mut bytes = encode_table(&vec![sample_entry()]);
    let last_tag = bytes.len() - 5;
    bytes[last_tag] = 2;
    assert_eq!(read_table(&bytes), None);
}

#[test]
fn a_table_with_a_chain_twice_is_refused() {
    let bytes = encode_table(&vec![sample_entry(), sample_entry()]);
    assert_eq!(read_table(&bytes), None);
}

#[test]
fn keys_are_laid_out_owner_then_reference() {
    let keys = vec![
        KeyEntry { owner: Owner::Reserved(9), secret: SecretKeyRef([0xaa; 32]) },
        KeyEntry { owner: Owner::Address20([1; 20]), secret: SecretKeyRef([0xbb; 32]) },
    ];
    let bytes = encode_keys(&keys);
    let mut expected = vec![1u8, 9];
    expected.extend_from_slice(&[0xaa; 32]);
    expected.push(3);
    expected.extend_from_slice(&[1; 20]);
    expected.extend_from_slice(&[0xbb; 32]);
    assert_eq!(bytes, expected);
    assert_eq!(read_keys(&bytes), Some(keys));
}

#[test]
fn keys_without_an_owner_or_with_one_twice_are_refused() {
    let mut no_owner = vec![0u8];
    no_owner.extend_from_slice(&[0xaa; 32]);
    assert_eq!(read_keys(&no_owner), None);
    let key = KeyEntry { owner: Owner::Reserved(9), secret: SecretKeyRef([0xaa; 32]) };
    assert_eq!(read_keys(&encode_keys(&vec![key, key])), None);
    assert_eq!(read_keys(&encode_keys(&vec![key])[..33]), None);
    assert_eq!(read_keys(&[]), Some(vec![]));
}

#[test]
fn the_default_field_says_one_of_three_things() {
    let id = ChainId::new([0x5a; 32]);
    assert_eq!(read_default_field(&None), Some(DefaultField::Absent));
    assert_eq!(read_default_field(&Some(vec![])), Some(DefaultField::Null));
    assert_eq!(read_default_field(&Some(b"null".to_vec())), Some(DefaultField::Null));
    assert_eq!(read_default_field(&Some(id.to_hex())), Some(DefaultField::Chain(id)));
    assert_eq!(DefaultField::Absent.into_chain(), None);
    assert_eq!(DefaultField::Null.into_chain(), None);
    assert_eq!(DefaultField::Chain(id).into_chain(), Some(id));
}

#[test]
fn the_default_field_is_a_bare_identifier() {
    let id = ChainId::new([0x5a; 32]);
    assert_eq!(write_default(&Some(id)), vec![b'5', b'a'].repeat(32));
    assert_eq!(write_default(&None), b"null".to_vec());
    let mut quoted = vec![b'"'];
    quoted.extend_from_slice(&id.to_hex());
    quoted.push(b'"');
    assert_eq!(read_default_field(&Some(quoted)), None);
    assert_eq!(read_default_field(&Some(b"NULL".to_vec())), None);
    assert_eq!(read_default_field(&Some(b"nul".to_vec())), None);
    assert_eq!(read_default_field(&Some(b"{}".to_vec())), None);
}

#[test]
fn genesis_must_be_one_json_value() {
    assert!(check_document(GENESIS));
    assert!(check_document(b"  [1, 2.5e3, \"x\", null, true, {\"a\": {}}] "));
    assert!(check_document(b"0"));
    assert!(!check_document(b""));
    assert!(!check_document(b"{"));
    assert!(!check_document(b"{} {}"));
    assert!(!check_document(b"{'a': 1}"));
    assert!(!check_document(&[0xff, 0xfe]));
    assert!(GenesisConfig::parse(b"{oops".to_vec()).is_none());
    let config = genesis();
    assert_eq!(config.document(), GENESIS);
    assert_eq!(config.duplicate(), config);
}

#[test]
fn genesis_agrees_with_the_json_parser() {
    for text in [&b"{\"a\":[1,2,{\"b\":null}]}"[..], b"[", b"tru", b"true", b"\"\\u12\"", b"1e999"] {
        let theirs = serde_json::from_slice::<serde_json::Value>(text).is_ok();
        assert_eq!(check_document(text), theirs);
        assert_eq!(GenesisConfig::parse(text.to_vec()).is_some(), theirs);
    }
}

#[test]
fn wallet_round_trips_through_its_fields() {
    let wallet = sample_wallet();
    let batch = encode(&wallet, true);
    let keys: Vec<&str> = batch.iter().map(|write| write.key.as_str()).collect();
    assert_eq!(keys, ["chains", "default", "unassigned_keys", "genesis"]);
    assert_eq!(batch[3].value, GENESIS.to_vec());
    let back = decode(stored(batch)).unwrap();
    assert_eq!(back, wallet);
    assert_eq!(back.default_chain(), Some(ChainId::new([7u8; 32])));
    assert_eq!(back.num_chains(), 3);
    assert_eq!(back.unassigned_keys().len(), 1);
}

#[test]
fn an_empty_wallet_round_trips() {
    let wallet = WalletSnapshot::new(genesis());
    let batch = encode(&wallet, true);
    assert_eq!(batch[0].value, Vec::<u8>::new());
    assert_eq!(batch[1].value, b"null".to_vec());
    assert_eq!(batch[2].value, Vec::<u8>::new());
    assert_eq!(decode(stored(batch)), Ok(wallet));
}

#[test]
fn genesis_is_written_only_on_request() {
    let wallet = sample_wallet();
    let batch = encode(&wallet, false);
    let keys: Vec<&str> = batch.iter().map(|write| write.key.as_str()).collect();
    assert_eq!(keys, ["chains", "default", "unassigned_keys"]);
    let mut fields = stored(batch);
    assert_eq!(decode(stored(encode(&wallet, false))), Err(DecodeError::NotFound));
    fields.genesis = Some(GENESIS.to_vec());
    assert_eq!(decode(fields), Ok(wallet));
}

#[test]
fn absent_fields_decode_to_safe_defaults() {
    let fields = StoredFields {
        chains: None,
        default_chain: None,
        unassigned_keys: None,
        genesis: Some(GENESIS.to_vec()),
    };
    assert_eq!(decode(fields), Ok(WalletSnapshot::new(genesis())));
}

#[test]
fn missing_genesis_is_not_found() {
    let wallet = sample_wallet();
    let mut fields = stored(encode(&wallet, true));
    fields.genesis = None;
    assert_eq!(decode(fields), Err(DecodeError::NotFound));
    let nothing =
        StoredFields { chains: None, default_chain: None, unassigned_keys: None, genesis: None };
    assert_eq!(decode(nothing), Err(DecodeError::NotFound));
    let corrupt_elsewhere = StoredFields {
        chains: Some(vec![1, 2, 3]),
        default_chain: None,
        unassigned_keys: None,
        genesis: None,
    };
    assert_eq!(decode(corrupt_elsewhere), Err(DecodeError::NotFound));
}

#[test]
fn each_corrupt_field_is_named() {
    let wallet = sample_wallet();
    let good = || stored(encode(&wallet, true));

    let mut fields = good();
    fields.genesis = Some(b"{oops".to_vec());
    assert_eq!(decode(fields), Err(DecodeError::CorruptState(FieldName::Genesis)));

    let mut fields = good();
    fields.chains = Some(vec![1, 2, 3]);
    assert_eq!(decode(fields), Err(DecodeError::CorruptState(FieldName::Chains)));

    let mut fields = good();
    fields.default_chain = Some(b"not a chain".to_vec());
    assert_eq!(decode(fields), Err(DecodeError::CorruptState(FieldName::Default)));

    let mut fields = good();
    fields.unassigned_keys = Some(vec![9]);
    assert_eq!(decode(fields), Err(DecodeError::CorruptState(FieldName::UnassignedKeys)));
}

#[test]
fn corrupt_fields_are_named_in_order() {
    let fields = StoredFields {
        chains: Some(vec![1]),
        default_chain: Some(vec![1]),
        unassigned_keys: Some(vec![9]),
        genesis: Some(vec![1, 2]),
    };
    assert_eq!(decode(fields), Err(DecodeError::CorruptState(FieldName::Genesis)));
    let fields = StoredFields {
        chains: Some(vec![1]),
        default_chain: Some(vec![1]),
        unassigned_keys: Some(vec![9]),
        genesis: Some(GENESIS.to_vec()),
    };
    assert_eq!(decode(fields), Err(DecodeError::CorruptState(FieldName::Chains)));
    let fields = StoredFields {
        chains: None,
        default_chain: Some(vec![1]),
        unassigned_keys: Some(vec![9]),
        genesis: Some(GENESIS.to_vec()),
    };
    assert_eq!(decode(fields), Err(DecodeError::CorruptState(FieldName::Default)));
}

#[test]
fn a_default_chain_without_a_row_is_corrupt() {
    let fields = StoredFields {
        chains: Some(encode_table(&vec![sample_entry()])),
        default_chain: Some(ChainId::new([0x22; 32]).to_hex()),
        unassigned_keys: None,
        genesis: Some(GENESIS.to_vec()),
    };
    assert_eq!(decode(fields), Err(DecodeError::CorruptState(FieldName::Default)));
    let fields = StoredFields {
        chains: Some(encode_table(&vec![sample_entry()])),
        default_chain: Some(ChainId::new([0x11; 32]).to_hex()),
        unassigned_keys: None,
        genesis: Some(GENESIS.to_vec()),
    };
    assert_eq!(decode(fields).unwrap().default_chain(), Some(ChainId::new([0x11; 32])));
}

#[test]
fn field_names_have_their_keys() {
    assert_eq!(FieldName::Chains.key(), "chains");
    assert_eq!(FieldName::Default.key(), "default");
    assert_eq!(FieldName::UnassignedKeys.key(), "unassigned_keys");
    assert_eq!(FieldName::Genesis.key(), "genesis");
}
