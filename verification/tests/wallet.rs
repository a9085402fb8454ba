use croissant_wallet::ident::{ChainId, Owner};
use croissant_wallet::keys::{KeyEntry, SecretKeyRef};
use croissant_wallet::snapshot::{
    all_distinct, find_chain, ChainEntry, ChainRecord, GenesisConfig, WalletError, WalletSnapshot,
};

fn genesis() -> GenesisConfig {
    GenesisConfig::parse(b"{\"admin\":0}".to_vec()).unwrap()
}

fn entry(id: u8, height: u64) -> ChainEntry {
    ChainEntry {
        chain_id: ChainId::new([id; 32]),
        record: ChainRecord { owner: None, block_height: height, timestamp: 0, epoch: None },
    }
}

#[test]
fn a_new_wallet_is_empty() {
    let wallet = WalletSnapshot::new(genesis());
    assert_eq!(wallet.num_chains(), 0);
    assert_eq!(wallet.default_chain(), None);
    assert_eq!(wallet.chain_ids(), Vec::<ChainId>::new());
    assert_eq!(wallet.unassigned_keys().len(), 0);
    assert_eq!(wallet.genesis_config().document(), b"{\"admin\":0}");
    wallet.check();
}

#[test]
fn the_first_chain_becomes_the_default() {
    let mut wallet = WalletSnapshot::new(genesis());
    wallet.insert(entry(1, 0));
    wallet.insert(entry(2, 0));
    assert_eq!(wallet.default_chain(), Some(ChainId::new([1; 32])));
    assert_eq!(wallet.chain_ids(), vec![ChainId::new([1; 32]), ChainId::new([2; 32])]);
}

#[test]
fn inserting_a_known_chain_replaces_its_row_in_place() {
    let mut wallet = WalletSnapshot::new(genesis());
    wallet.insert(entry(1, 0));
    wallet.insert(entry(2, 0));
    wallet.insert(entry(1, 9));
    assert_eq!(wallet.num_chains(), 2);
    assert_eq!(wallet.chains()[0], entry(1, 9));
    assert_eq!(wallet.get(&ChainId::new([1; 32])).unwrap().block_height, 9);
    assert_eq!(wallet.get(&ChainId::new([2; 32])).unwrap().block_height, 0);
    assert_eq!(wallet.get(&ChainId::new([3; 32])), None);
}

#[test]
fn an_assigned_chain_starts_fresh() {
    let mut wallet = WalletSnapshot::new(genesis());
    let owner = Owner::Address32([8; 32]);
    wallet.assign_new_chain_to_owner(owner, ChainId::new([4; 32]), 77);
    assert_eq!(
        wallet.get(&ChainId::new([4; 32])),
        Some(ChainRecord { owner: Some(owner), block_height: 0, timestamp: 77, epoch: None })
    );
    assert_eq!(wallet.default_chain(), Some(ChainId::new([4; 32])));
}

#[test]
fn assigning_a_chain_uses_up_the_waiting_key() {
    let mut wallet = WalletSnapshot::new(genesis());
    let owner = Owner::Address32([8; 32]);
    let other = Owner::Reserved(1);
    wallet.add_unassigned_key(owner, SecretKeyRef([1; 32]));
    wallet.add_unassigned_key(other, SecretKeyRef([2; 32]));
    wallet.assign_new_chain_to_owner(owner, ChainId::new([4; 32]), 77);
    assert_eq!(wallet.unassigned_key(&owner), None);
    assert_eq!(wallet.unassigned_key(&other), Some(SecretKeyRef([2; 32])));
    assert_eq!(
        wallet.unassigned_keys(),
        &vec![KeyEntry { owner: other, secret: SecretKeyRef([2; 32]) }]
    );
}

#[test]
fn waiting_keys_are_kept_one_per_owner() {
    let mut wallet = WalletSnapshot::new(genesis());
    let owner = Owner::Address20([8; 20]);
    wallet.add_unassigned_key(owner, SecretKeyRef([1; 32]));
    wallet.add_unassigned_key(owner, SecretKeyRef([3; 32]));
    assert_eq!(wallet.unassigned_keys().len(), 1);
    assert_eq!(wallet.unassigned_key(&owner), Some(SecretKeyRef([3; 32])));
    assert_eq!(wallet.take_unassigned_key(&owner), Some(SecretKeyRef([3; 32])));
    assert_eq!(wallet.take_unassigned_key(&owner), None);
    assert_eq!(wallet.unassigned_keys().len(), 0);
}

#[test]
fn the_default_chain_must_be_followed() {
    let mut wallet = WalletSnapshot::new(genesis());
    wallet.insert(entry(1, 0));
    wallet.insert(entry(2, 0));
    assert_eq!(wallet.set_default_chain(ChainId::new([2; 32])), Ok(()));
    assert_eq!(wallet.default_chain(), Some(ChainId::new([2; 32])));
    assert_eq!(
        wallet.set_default_chain(ChainId::new([3; 32])),
        Err(WalletError::NonexistentChain(ChainId::new([3; 32])))
    );
    assert_eq!(wallet.default_chain(), Some(ChainId::new([2; 32])));
}

#[test]
fn wallets_are_put_together_only_from_consistent_parts() {
    let rows = vec![entry(1, 0), entry(2, 0)];
    let wallet =
        WalletSnapshot::from_parts(rows.clone(), Some(ChainId::new([2; 32])), vec![], genesis())
            .unwrap();
    assert_eq!(wallet.default_chain(), Some(ChainId::new([2; 32])));
    assert_eq!(wallet.chains(), &rows);
    assert!(WalletSnapshot::from_parts(rows.clone(), Some(ChainId::new([3; 32])), vec![], genesis())
        .is_none());
    assert!(WalletSnapshot::from_parts(vec![entry(1, 0), entry(1, 1)], None, vec![], genesis())
        .is_none());
    let key = KeyEntry { owner: Owner::Reserved(0), secret: SecretKeyRef([0; 32]) };
    assert!(WalletSnapshot::from_parts(rows.clone(), None, vec![key, key], genesis()).is_none());
    assert!(WalletSnapshot::from_parts(rows, None, vec![key], genesis()).is_some());
}

#[test]
fn copies_are_equal_and_independent() {
    let mut wallet = WalletSnapshot::new(genesis());
    wallet.insert(entry(1, 0));
    let copy = wallet.duplicate();
    assert_eq!(copy, wallet);
    assert!(copy.same_genesis(&wallet));
    wallet.insert(entry(2, 0));
    assert_eq!(copy.num_chains(), 1);
    let other = WalletSnapshot::new(GenesisConfig::parse(b"[]".to_vec()).unwrap());
    assert!(!other.same_genesis(&wallet));
}

#[test]
fn rows_are_found_by_chain() {
    let rows = vec![entry(1, 0), entry(2, 0), entry(3, 0)];
    assert_eq!(find_chain(&rows, &ChainId::new([3; 32])), Some(2));
    assert_eq!(find_chain(&rows, &ChainId::new([4; 32])), None);
    assert!(all_distinct(&rows));
    assert!(!all_distinct(&vec![entry(1, 0), entry(2, 0), entry(1, 5)]));
    assert!(all_distinct(&vec![]));
}
