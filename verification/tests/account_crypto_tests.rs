//! Tests that run the store against real cryptographic account objects:
//! full snapshots, deltas, and the genesis serialization with accounts.

use miden_objects::accounts::{
    Account, AccountCode, AccountDelta, AccountId, AccountStorage, AccountStorageDelta,
    AccountVaultDelta, StorageSlotType,
};
use miden_objects::assembly::{Assembler, ModuleAst};
use miden_objects::assets::AssetVault;
use miden_objects::utils::serde::Serializable;
use miden_objects::{Felt, StarkField, Word};

use miden_store::apply::apply_block;
use miden_store::accounts::select_account;
use miden_store::db::Db;
use miden_store::genesis::{GenesisAccount, GenesisState};
use miden_store::types::{
    AccountDetails, AccountUpdateDetails, BlockHeaderRecord, DatabaseError, Digest,
};

const REGULAR_ON_CHAIN_ID: u64 = 0b0110011011u64 << 54;
const FAUCET_ON_CHAIN_ID: u64 = 0b1010011100u64 << 54;

fn build_account(id: u64, nonce: u64) -> Account {
    let source = "
        export.item
            push.1 push.2 add
        end
    ";
    let module = ModuleAst::parse(source).unwrap();
    let assembler = Assembler::default();
    let code = AccountCode::new(module, &assembler).unwrap();
    let vault = AssetVault::new(&[]).unwrap();
    let slot_type = StorageSlotType::Value { value_arity: 0 };
    let word: Word = [Felt::new(5), Felt::new(6), Felt::new(7), Felt::new(8)];
    let storage = AccountStorage::new(vec![(0, (slot_type, word))]).unwrap();
    let id = AccountId::try_from(id).unwrap();
    Account::new(id, vault, storage, code, Felt::new(nonce))
}

fn store_digest(d: &miden_objects::Digest) -> Digest {
    let e = d.as_elements();
    Digest { w0: e[0].as_int(), w1: e[1].as_int(), w2: e[2].as_int(), w3: e[3].as_int() }
}

fn header(n: u32) -> BlockHeaderRecord {
    BlockHeaderRecord { block_num: n, header: vec![n as u8] }
}

#[test]
fn full_snapshot_is_verified_and_stored() {
    let account = build_account(REGULAR_ON_CHAIN_ID, 1);
    let enc = account.to_bytes();
    let id: u64 = account.id().into();
    let hash = store_digest(&account.hash());

    let mut db = Db::new();
    let update = AccountUpdateDetails {
        account_id: id,
        final_state_hash: hash,
        details: Some(AccountDetails::Full(enc.clone())),
    };
    apply_block(&mut db, &header(1), &vec![], &vec![], &vec![update]).unwrap();

    let stored = select_account(&db, id).unwrap();
    assert_eq!(stored.summary.account_hash, hash);
    assert_eq!(stored.details, Some(enc));
}

#[test]
fn full_snapshot_with_wrong_hash_is_rejected() {
    let account = build_account(REGULAR_ON_CHAIN_ID, 1);
    let enc = account.to_bytes();
    let id: u64 = account.id().into();
    let real = store_digest(&account.hash());
    let wrong = Digest { w0: real.w0.wrapping_add(1), ..real };

    let mut db = Db::new();
    let update = AccountUpdateDetails {
        account_id: id,
        final_state_hash: wrong,
        details: Some(AccountDetails::Full(enc)),
    };
    let r = apply_block(&mut db, &header(1), &vec![], &vec![], &vec![update]);
    assert_eq!(
        r,
        Err(DatabaseError::ApplyBlockFailedAccountHashesMismatch { calculated: real, expected: wrong }),
    );
    // Atomicity: nothing of the failed block is visible.
    assert!(miden_store::headers::select_block_headers(&db).is_empty());
    assert!(miden_store::accounts::select_accounts(&db).is_empty());
}

#[test]
fn delta_is_applied_against_the_stored_snapshot() {
    let account = build_account(REGULAR_ON_CHAIN_ID, 1);
    let enc1 = account.to_bytes();
    let id: u64 = account.id().into();
    let h1 = store_digest(&account.hash());

    // The delta the next block carries: one storage slot updated, nonce bumped.
    let word: Word = [Felt::new(9), Felt::new(9), Felt::new(9), Felt::new(9)];
    let storage_delta = AccountStorageDelta { cleared_items: vec![], updated_items: vec![(0, word)] };
    let vault_delta = AccountVaultDelta { added_assets: vec![], removed_assets: vec![] };
    let delta = AccountDelta::new(storage_delta, vault_delta, Some(Felt::new(2))).unwrap();

    // The state the delta should produce.
    let mut expected = account.clone();
    expected.apply_delta(&delta).unwrap();
    let h2 = store_digest(&expected.hash());

    let mut db = Db::new();
    let full = AccountUpdateDetails {
        account_id: id,
        final_state_hash: h1,
        details: Some(AccountDetails::Full(enc1)),
    };
    apply_block(&mut db, &header(1), &vec![], &vec![], &vec![full]).unwrap();

    let delta_update = AccountUpdateDetails {
        account_id: id,
        final_state_hash: h2,
        details: Some(AccountDetails::Delta(delta.to_bytes())),
    };
    apply_block(&mut db, &header(2), &vec![], &vec![], &vec![delta_update]).unwrap();

    let stored = select_account(&db, id).unwrap();
    assert_eq!(stored.summary.account_hash, h2);
    assert_eq!(stored.summary.block_num, 2);
    assert_eq!(stored.details, Some(expected.to_bytes()));
}

#[test]
fn delta_with_wrong_final_hash_rolls_back() {
    let account = build_account(REGULAR_ON_CHAIN_ID, 1);
    let id: u64 = account.id().into();
    let h1 = store_digest(&account.hash());

    let word: Word = [Felt::new(3), Felt::new(3), Felt::new(3), Felt::new(3)];
    let storage_delta = AccountStorageDelta { cleared_items: vec![], updated_items: vec![(0, word)] };
    let vault_delta = AccountVaultDelta { added_assets: vec![], removed_assets: vec![] };
    let delta = AccountDelta::new(storage_delta, vault_delta, Some(Felt::new(2))).unwrap();

    let mut db = Db::new();
    let full = AccountUpdateDetails {
        account_id: id,
        final_state_hash: h1,
        details: Some(AccountDetails::Full(account.to_bytes())),
    };
    apply_block(&mut db, &header(1), &vec![], &vec![], &vec![full]).unwrap();
    let before = miden_store::accounts::select_accounts(&db);

    // Declare the old hash as the final one: the reconstructed state hashes
    // differently, so the block must fail and change nothing.
    let bad = AccountUpdateDetails {
        account_id: id,
        final_state_hash: h1,
        details: Some(AccountDetails::Delta(delta.to_bytes())),
    };
    let r = apply_block(&mut db, &header(2), &vec![], &vec![], &vec![bad]);
    assert!(matches!(r, Err(DatabaseError::ApplyBlockFailedAccountHashesMismatch { .. })));
    assert_eq!(miden_store::accounts::select_accounts(&db), before);
    assert_eq!(miden_store::headers::select_block_headers(&db).len(), 1);
}

#[test]
fn genesis_round_trips_with_real_accounts() {
    let a = build_account(REGULAR_ON_CHAIN_ID, 1);
    let b = build_account(FAUCET_ON_CHAIN_ID, 1);
    let ga = GenesisAccount::from_encoded(a.to_bytes()).unwrap();
    let gb = GenesisAccount::from_encoded(b.to_bytes()).unwrap();
    assert_eq!(ga.id, u64::from(a.id()));
    assert_eq!(ga.hash, store_digest(&a.hash()));

    let g = GenesisState::new(vec![ga, gb], 3, 1_234_567);
    let mut bytes: Vec<u8> = Vec::new();
    g.write_into(&mut bytes);

    let back = GenesisState::read_from(&bytes).unwrap();
    assert_eq!(back, g);

    // Truncating inside the account section must not parse.
    let cut = bytes[..bytes.len() - 17].to_vec();
    assert!(GenesisState::read_from(&cut).is_err());

    // The derived genesis block commits to both accounts.
    let (header, _root) = g.into_block_parts().unwrap();
    assert_eq!(header.block_num, 1);
    assert!(!header.header.is_empty());
}

#[test]
fn garbage_delta_bytes_fail_application() {
    let account = build_account(REGULAR_ON_CHAIN_ID, 1);
    let id: u64 = account.id().into();
    let h1 = store_digest(&account.hash());

    let mut db = Db::new();
    let full = AccountUpdateDetails {
        account_id: id,
        final_state_hash: h1,
        details: Some(AccountDetails::Full(account.to_bytes())),
    };
    apply_block(&mut db, &header(1), &vec![], &vec![], &vec![full]).unwrap();

    let bad = AccountUpdateDetails {
        account_id: id,
        final_state_hash: h1,
        details: Some(AccountDetails::Delta(vec![0xFF, 0xFF, 0xFF, 0xFF])),
    };
    let r = apply_block(&mut db, &header(2), &vec![], &vec![], &vec![bad]);
    assert_eq!(r, Err(DatabaseError::ApplyDeltaFailed));
    assert_eq!(miden_store::headers::select_block_headers(&db).len(), 1);
}

#[test]
fn later_mismatch_in_a_batch_still_fails_the_block() {
    // A valid hash-only update precedes the mismatching full snapshot: the
    // violation is not skipped, and nothing of the block survives.
    let account = build_account(REGULAR_ON_CHAIN_ID, 1);
    let id: u64 = account.id().into();
    let real = store_digest(&account.hash());
    let wrong = Digest { w0: real.w0.wrapping_add(1), ..real };

    let mut db = Db::new();
    let good = AccountUpdateDetails {
        account_id: 7,
        final_state_hash: Digest { w0: 7, w1: 7, w2: 7, w3: 7 },
        details: None,
    };
    let bad = AccountUpdateDetails {
        account_id: id,
        final_state_hash: wrong,
        details: Some(AccountDetails::Full(account.to_bytes())),
    };
    let r = apply_block(&mut db, &header(1), &vec![], &vec![], &vec![good, bad]);
    assert_eq!(
        r,
        Err(DatabaseError::ApplyBlockFailedAccountHashesMismatch { calculated: real, expected: wrong }),
    );
    assert!(miden_store::accounts::select_accounts(&db).is_empty());
    assert!(miden_store::headers::select_block_headers(&db).is_empty());
}
