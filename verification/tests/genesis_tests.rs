use miden_store::genesis::{GenesisAccount, GenesisError, GenesisState};
use miden_store::producer::{
    ApplyBlock, ApplyBlockError, Block, BlockInputsError, InMemoryStore, Store, TxInputs,
};
use miden_store::apply::apply_block;
use miden_store::db::Db;
use miden_store::types::{AccountUpdateDetails, BlockHeaderRecord, Digest};

fn digest(tag: u64) -> Digest {
    Digest { w0: tag, w1: tag + 1, w2: tag + 2, w3: tag + 3 }
}

#[test]
fn empty_genesis_round_trips() {
    let g = GenesisState::new(vec![], 7, 99);
    let mut bytes: Vec<u8> = Vec::new();
    g.write_into(&mut bytes);
    assert_eq!(bytes.len(), 24);

    let back = GenesisState::read_from(&bytes).unwrap();
    assert!(back.accounts.is_empty());
    assert_eq!(back.version, 7);
    assert_eq!(back.timestamp, 99);
}

#[test]
fn truncated_genesis_is_rejected() {
    let g = GenesisState::new(vec![], 7, 99);
    let mut bytes: Vec<u8> = Vec::new();
    g.write_into(&mut bytes);
    for cut in 0..bytes.len() {
        let prefix = bytes[..cut].to_vec();
        assert_eq!(
            GenesisState::read_from(&prefix),
            Err(GenesisError::DeserializationFailed),
            "a truncated serialization must not parse",
        );
    }
}

#[test]
fn trailing_bytes_are_rejected() {
    let g = GenesisState::new(vec![], 3, 4);
    let mut bytes: Vec<u8> = Vec::new();
    g.write_into(&mut bytes);
    bytes.push(0);
    assert_eq!(GenesisState::read_from(&bytes), Err(GenesisError::DeserializationFailed));
}

#[test]
fn garbage_account_section_is_rejected() {
    // A count of one account followed by bytes that decode to no account.
    let mut bytes: Vec<u8> = Vec::new();
    bytes.extend_from_slice(&1u64.to_le_bytes());
    bytes.extend_from_slice(&[0xDE, 0xAD, 0xBE, 0xEF]);
    bytes.extend_from_slice(&5u64.to_le_bytes());
    bytes.extend_from_slice(&6u64.to_le_bytes());
    assert_eq!(GenesisState::read_from(&bytes), Err(GenesisError::DeserializationFailed));
}

#[test]
fn genesis_account_from_garbage_is_rejected() {
    assert!(GenesisAccount::from_encoded(vec![1, 2, 3]).is_none());
}

#[test]
fn genesis_block_parts_commit_to_the_accounts() {
    let a = GenesisAccount { id: 1, hash: digest(10), encoded: vec![] };
    let b = GenesisAccount { id: 2, hash: digest(20), encoded: vec![] };
    let g1 = GenesisState::new(vec![a], 1, 1);
    let (header1, root1) = g1.into_block_parts().unwrap();
    assert_eq!(header1.block_num, 1);
    assert!(!header1.header.is_empty());

    // A different account set commits to a different root and header.
    let g2 = GenesisState::new(vec![b], 1, 1);
    let (header2, root2) = g2.into_block_parts().unwrap();
    assert_ne!(root1, root2);
    assert_ne!(header1.header, header2.header);

    // The root is a commitment, not the leaf value handed in.
    assert_ne!(root1, digest(10));

    // The same state yields the same bytes: the derivation is deterministic.
    let g3 = GenesisState::new(vec![GenesisAccount { id: 1, hash: digest(10), encoded: vec![] }], 1, 1);
    let (header3, root3) = g3.into_block_parts().unwrap();
    assert_eq!(root1, root3);
    assert_eq!(header1.header, header3.header);
}

#[test]
fn duplicate_genesis_account_ids_are_rejected() {
    let a = GenesisAccount { id: 1, hash: digest(10), encoded: vec![] };
    let b = GenesisAccount { id: 1, hash: digest(20), encoded: vec![] };
    let g = GenesisState::new(vec![a, b], 1, 1);
    assert_eq!(g.into_block_parts().err(), Some(GenesisError::DuplicateAccountId));
}

fn header(n: u32) -> BlockHeaderRecord {
    BlockHeaderRecord { block_num: n, header: vec![n as u8] }
}

#[test]
fn tx_inputs_flag_spent_nullifiers() {
    let mut db = Db::new();
    let upd = AccountUpdateDetails { account_id: 9, final_state_hash: digest(90), details: None };
    apply_block(&mut db, &header(1), &vec![], &vec![], &vec![upd]).unwrap();
    let n = digest(40);
    apply_block(&mut db, &header(2), &vec![], &vec![n], &vec![]).unwrap();

    let t: TxInputs = db.get_tx_inputs(9, &vec![n, digest(41)]).unwrap();
    assert_eq!(t.account_hash, Some(digest(90)));
    assert_eq!(t.nullifiers, vec![(n, true), (digest(41), false)]);

    let unknown = db.get_tx_inputs(12, &vec![]).unwrap();
    assert_eq!(unknown.account_hash, None);
}

#[test]
fn block_inputs_give_tip_and_witness_data() {
    let mut db = Db::new();
    assert_eq!(db.get_block_inputs(&vec![], &vec![]).err(), Some(BlockInputsError::EmptyChain));

    let upd = AccountUpdateDetails { account_id: 5, final_state_hash: digest(50), details: None };
    apply_block(&mut db, &header(1), &vec![], &vec![], &vec![upd]).unwrap();
    let n = digest(60);
    apply_block(&mut db, &header(2), &vec![], &vec![n], &vec![]).unwrap();

    let b = db.get_block_inputs(&vec![5, 6], &vec![n, digest(61)]).unwrap();
    assert_eq!(b.block_header.block_num, 2);
    assert_eq!(b.account_states.len(), 1);
    assert_eq!(b.account_states[0].account_id, 5);
    assert_eq!(b.nullifiers, vec![(n, 2), (digest(61), 0)]);
}

#[test]
fn in_memory_store_serves_the_producer_boundary() {
    let mut store = InMemoryStore::new();
    let upd = AccountUpdateDetails { account_id: 9, final_state_hash: digest(90), details: None };
    let n = digest(40);
    let block = Block {
        header: header(1),
        notes: vec![],
        updated_accounts: vec![upd],
        produced_nullifiers: vec![n],
    };
    store.apply_block(&block).unwrap();

    // A block at the wrong height is refused at the boundary.
    let skipped = Block {
        header: header(5),
        notes: vec![],
        updated_accounts: vec![],
        produced_nullifiers: vec![],
    };
    assert_eq!(store.apply_block(&skipped), Err(ApplyBlockError::GrpcClientError));

    let t = store.get_tx_inputs(9, &vec![n, digest(41)]).unwrap();
    assert_eq!(t.account_hash, Some(digest(90)));
    assert_eq!(t.nullifiers, vec![(n, true), (digest(41), false)]);

    let b = store.get_block_inputs(&vec![9], &vec![n]).unwrap();
    assert_eq!(b.block_header.block_num, 1);
    assert_eq!(b.nullifiers, vec![(n, 1)]);

    // The committed state is visible through the query surface.
    let looked = miden_store::accounts::select_account(store.database(), 9).unwrap();
    assert_eq!(looked.summary.account_hash, digest(90));
}
