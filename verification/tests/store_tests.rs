use miden_store::apply::apply_block;
use miden_store::accounts::{select_account, select_accounts, select_accounts_by_block_range, select_account_hashes, upsert_accounts};
use miden_store::db::Db;
use miden_store::headers::{select_block_header_by_block_num, select_block_headers};
use miden_store::notes::{select_notes, select_notes_by_id, select_notes_since_block_by_tag_and_sender};
use miden_store::nullifiers::{get_nullifier_prefix, select_nullifiers, select_nullifiers_by_block_range};
use miden_store::sync::get_state_sync;
use miden_store::types::{
    AccountDetails, AccountUpdateDetails, BlockHeaderRecord, DatabaseError, Digest, Note,
    NoteCreated, StateSyncError,
};

fn digest(tag: u64) -> Digest {
    Digest { w0: tag, w1: tag.wrapping_mul(31), w2: tag.wrapping_mul(77), w3: tag.wrapping_mul(131) }
}

fn nullifier_with_prefix(prefix: u16, salt: u64) -> Digest {
    Digest { w0: salt, w1: salt, w2: salt, w3: ((prefix as u64) << 48) | (salt & 0xFFFF_FFFF_FFFF) }
}

fn header(n: u32) -> BlockHeaderRecord {
    BlockHeaderRecord { block_num: n, header: vec![n as u8, 0xAA, 0xBB] }
}

fn hash_update(id: u64, hash: Digest) -> AccountUpdateDetails {
    AccountUpdateDetails { account_id: id, final_state_hash: hash, details: None }
}

fn note(block: u32, idx: u32, id: Digest, sender: u64, tag: u32) -> Note {
    Note {
        block_num: block,
        note_created: NoteCreated {
            batch_index: 0,
            note_index: idx,
            note_id: id,
            note_type: 1,
            sender,
            tag,
            details: None,
        },
        merkle_path: vec![1, 2, 3],
    }
}

fn empty_block(db: &mut Db, n: u32) {
    let r = apply_block(db, &header(n), &vec![], &vec![], &vec![]);
    assert_eq!(r, Ok(1));
}

#[test]
fn genesis_accounts_are_stored_and_readable() {
    // Empty store; genesis block 1 carries two accounts (hash-only).
    let mut db = Db::new();
    let h1 = digest(101);
    let h2 = digest(202);
    let updates = vec![hash_update(1, h1), hash_update(2, h2)];
    let r = apply_block(&mut db, &header(1), &vec![], &vec![], &updates);
    assert_eq!(r, Ok(3));

    let a1 = select_account(&db, 1).unwrap();
    assert_eq!(a1.summary.account_hash, h1);
    assert_eq!(a1.summary.block_num, 1);
    assert_eq!(a1.details, None);

    let both = select_accounts_by_block_range(&db, 0, 1, &vec![1, 2]);
    assert_eq!(both.len(), 2);
    assert_eq!(both[0].account_id, 1);
    assert_eq!(both[0].account_hash, h1);
    assert_eq!(both[1].account_id, 2);
    assert_eq!(both[1].account_hash, h2);
}

#[test]
fn unknown_account_is_a_typed_miss() {
    let mut db = Db::new();
    empty_block(&mut db, 1);
    assert_eq!(select_account(&db, 9), Err(DatabaseError::AccountNotFoundInDb(9)));
}

#[test]
fn nullifier_prefix_is_top_sixteen_bits() {
    let d = nullifier_with_prefix(0xABCD, 0x1234_5678_9ABC);
    assert_eq!(get_nullifier_prefix(&d), 0xABCD);
    let zero = Digest { w0: 5, w1: 6, w2: 7, w3: 0x0000_FFFF_FFFF_FFFF };
    assert_eq!(get_nullifier_prefix(&zero), 0);
}

#[test]
fn nullifier_range_query_filters_by_prefix() {
    // Block 2 spends nullifier N with prefix 0xABCD.
    let mut db = Db::new();
    empty_block(&mut db, 1);
    let n = nullifier_with_prefix(0xABCD, 42);
    let r = apply_block(&mut db, &header(2), &vec![], &vec![n], &vec![]);
    assert_eq!(r, Ok(2));

    let hit = select_nullifiers_by_block_range(&db, 0, 2, &vec![0xABCD]);
    assert_eq!(hit.len(), 1);
    assert_eq!(hit[0].nullifier, n);
    assert_eq!(hit[0].block_num, 2);

    let miss = select_nullifiers_by_block_range(&db, 0, 2, &vec![0x1234]);
    assert!(miss.is_empty());
}

#[test]
fn duplicate_nullifier_rolls_the_block_back() {
    let mut db = Db::new();
    empty_block(&mut db, 1);
    let n = nullifier_with_prefix(0x1111, 7);
    assert_eq!(apply_block(&mut db, &header(2), &vec![], &vec![n], &vec![]), Ok(2));

    let before_headers = select_block_headers(&db);
    let r = apply_block(&mut db, &header(3), &vec![], &vec![n], &vec![]);
    assert_eq!(r, Err(DatabaseError::DuplicateNullifier(n)));
    assert_eq!(select_block_headers(&db), before_headers);
    assert_eq!(select_nullifiers(&db).len(), 1);

    // A batch that repeats a digest within itself is also rejected.
    let m = nullifier_with_prefix(0x2222, 8);
    let r2 = apply_block(&mut db, &header(3), &vec![], &vec![m, m], &vec![]);
    assert_eq!(r2, Err(DatabaseError::DuplicateNullifier(m)));
    assert_eq!(select_nullifiers(&db).len(), 1);
}

#[test]
fn delta_without_stored_snapshot_fails_and_changes_nothing() {
    // Account 1 is tracked hash-only (no full snapshot); block 3 sends a
    // delta for it: the block fails with the account-not-on-chain kind and
    // the store is unchanged.
    let mut db = Db::new();
    let h1 = digest(11);
    apply_block(&mut db, &header(1), &vec![], &vec![], &vec![hash_update(1, h1)]).unwrap();
    empty_block(&mut db, 2);

    let accounts_before = select_accounts(&db);
    let headers_before = select_block_headers(&db);
    let delta = AccountUpdateDetails {
        account_id: 1,
        final_state_hash: digest(12),
        details: Some(AccountDetails::Delta(vec![9, 9, 9])),
    };
    let r = apply_block(&mut db, &header(3), &vec![], &vec![], &vec![delta]);
    assert_eq!(r, Err(DatabaseError::AccountNotOnChain(1)));
    assert_eq!(select_accounts(&db), accounts_before);
    assert_eq!(select_block_headers(&db), headers_before);
}

#[test]
fn delta_for_unknown_account_fails_with_not_found() {
    let mut db = Db::new();
    empty_block(&mut db, 1);
    let delta = AccountUpdateDetails {
        account_id: 5,
        final_state_hash: digest(5),
        details: Some(AccountDetails::Delta(vec![1])),
    };
    let r = apply_block(&mut db, &header(2), &vec![], &vec![], &vec![delta]);
    assert_eq!(r, Err(DatabaseError::AccountNotFoundInDb(5)));
}

#[test]
fn malformed_full_snapshot_fails_deserialization() {
    // Bytes that are not a canonical account encoding are rejected before
    // anything is stored.
    let mut db = Db::new();
    empty_block(&mut db, 1);
    let full = AccountUpdateDetails {
        account_id: 3,
        final_state_hash: digest(3),
        details: Some(AccountDetails::Full(vec![0xFF, 0x00, 0x01])),
    };
    let r = apply_block(&mut db, &header(2), &vec![], &vec![], &vec![full]);
    assert_eq!(r, Err(DatabaseError::AccountDeserializationFailed));
    assert!(select_accounts(&db).is_empty());
}

#[test]
fn upsert_is_idempotent_for_hash_updates() {
    let mut db = Db::new();
    empty_block(&mut db, 1);
    let upd = vec![hash_update(4, digest(40))];
    let first = upsert_accounts(&mut db, &upd, 1);
    let after_first = select_accounts(&db);
    let second = upsert_accounts(&mut db, &upd, 1);
    let after_second = select_accounts(&db);
    assert_eq!(first, Ok(1));
    assert_eq!(second, Ok(1));
    assert_eq!(after_first, after_second);
}

#[test]
fn replace_by_id_keeps_one_row_per_account() {
    let mut db = Db::new();
    empty_block(&mut db, 1);
    apply_block(&mut db, &header(2), &vec![], &vec![], &vec![hash_update(1, digest(1))]).unwrap();
    apply_block(&mut db, &header(3), &vec![], &vec![], &vec![hash_update(1, digest(2))]).unwrap();
    let rows = select_accounts(&db);
    assert_eq!(rows.len(), 1);
    assert_eq!(rows[0].summary.account_hash, digest(2));
    assert_eq!(rows[0].summary.block_num, 3);

    let hashes = select_account_hashes(&db);
    assert_eq!(hashes, vec![(1, digest(2))]);
}

#[test]
fn range_queries_exclude_start_and_include_end() {
    let mut db = Db::new();
    apply_block(&mut db, &header(1), &vec![], &vec![], &vec![hash_update(1, digest(1))]).unwrap();
    apply_block(
        &mut db,
        &header(2),
        &vec![],
        &vec![nullifier_with_prefix(0x7777, 1)],
        &vec![hash_update(2, digest(2))],
    )
    .unwrap();

    // (1, 2]: the account updated at block 1 is excluded, block 2 included.
    let summaries = select_accounts_by_block_range(&db, 1, 2, &vec![1, 2]);
    assert_eq!(summaries.len(), 1);
    assert_eq!(summaries[0].account_id, 2);

    // (2, 2] holds nothing; (1, 2] holds the block-2 nullifier.
    assert!(select_nullifiers_by_block_range(&db, 2, 2, &vec![0x7777]).is_empty());
    assert_eq!(select_nullifiers_by_block_range(&db, 1, 2, &vec![0x7777]).len(), 1);
}

#[test]
fn notes_come_back_from_a_single_block() {
    let mut db = Db::new();
    empty_block(&mut db, 1);
    let n2a = note(2, 0, digest(21), 5, 0x42);
    let n2b = note(2, 1, digest(22), 6, 0x42);
    apply_block(&mut db, &header(2), &vec![n2a, n2b], &vec![], &vec![]).unwrap();
    let n3 = note(3, 0, digest(31), 5, 0x42);
    apply_block(&mut db, &header(3), &vec![n3], &vec![], &vec![]).unwrap();

    // Both notes of block 2 match; the block-3 note is left for a later call.
    let batch = select_notes_since_block_by_tag_and_sender(&db, &vec![0x42], &vec![], 0);
    assert_eq!(batch.len(), 2);
    assert!(batch.iter().all(|n| n.block_num == 2));

    // Advancing the watermark past block 2 reaches block 3.
    let batch2 = select_notes_since_block_by_tag_and_sender(&db, &vec![0x42], &vec![], 2);
    assert_eq!(batch2.len(), 1);
    assert_eq!(batch2[0].block_num, 3);

    // A sender match works like a tag match.
    let by_sender = select_notes_since_block_by_tag_and_sender(&db, &vec![], &vec![6], 0);
    assert_eq!(by_sender.len(), 1);
    assert_eq!(by_sender[0].note_created.note_id, digest(22));

    // No match at all yields nothing.
    assert!(select_notes_since_block_by_tag_and_sender(&db, &vec![0x99], &vec![], 0).is_empty());
}

#[test]
fn notes_by_id_and_all_notes() {
    let mut db = Db::new();
    empty_block(&mut db, 1);
    let a = note(2, 0, digest(1), 1, 1);
    let b = note(2, 1, digest(2), 1, 1);
    apply_block(&mut db, &header(2), &vec![a, b], &vec![], &vec![]).unwrap();
    assert_eq!(select_notes(&db).len(), 2);
    let hits = select_notes_by_id(&db, &vec![digest(2)]);
    assert_eq!(hits.len(), 1);
    assert_eq!(hits[0].note_created.note_index, 1);
    assert!(select_notes_by_id(&db, &vec![digest(3)]).is_empty());
}

#[test]
fn header_lookup_by_height_and_latest() {
    let mut db = Db::new();
    assert_eq!(select_block_header_by_block_num(&db, None), None);
    empty_block(&mut db, 1);
    empty_block(&mut db, 2);
    let h1 = select_block_header_by_block_num(&db, Some(1)).unwrap();
    assert_eq!(h1.block_num, 1);
    let latest = select_block_header_by_block_num(&db, None).unwrap();
    assert_eq!(latest.block_num, 2);
    assert_eq!(select_block_header_by_block_num(&db, Some(3)), None);
    assert_eq!(select_block_headers(&db).len(), 2);
}

#[test]
fn sync_targets_the_first_interesting_block() {
    // The only matching note lives in block 5; a client at watermark 0 gets
    // exactly that note, the block-5 header, and changes over (0, 5].
    let mut db = Db::new();
    apply_block(&mut db, &header(1), &vec![], &vec![], &vec![]).unwrap();
    apply_block(
        &mut db,
        &header(2),
        &vec![],
        &vec![nullifier_with_prefix(0x5555, 3)],
        &vec![],
    )
    .unwrap();
    apply_block(&mut db, &header(3), &vec![], &vec![], &vec![hash_update(7, digest(70))]).unwrap();
    empty_block(&mut db, 4);
    let target_note = note(5, 0, digest(50), 8, 0x42);
    apply_block(&mut db, &header(5), &vec![target_note], &vec![], &vec![]).unwrap();
    empty_block(&mut db, 6);

    let u = get_state_sync(&db, 0, &vec![7], &vec![0x42], &vec![0x5555]).unwrap();
    assert_eq!(u.block_header.block_num, 5);
    assert_eq!(u.chain_tip, 6);
    assert_eq!(u.notes.len(), 1);
    assert_eq!(u.notes[0].note_created.note_id, digest(50));
    assert_eq!(u.account_updates.len(), 1);
    assert_eq!(u.account_updates[0].account_id, 7);
    assert_eq!(u.nullifiers.len(), 1);
    assert_eq!(u.nullifiers[0].block_num, 2);
}

#[test]
fn sync_without_matches_degenerates_to_the_tip() {
    let mut db = Db::new();
    empty_block(&mut db, 1);
    empty_block(&mut db, 2);
    let u = get_state_sync(&db, 0, &vec![], &vec![0x42], &vec![]).unwrap();
    assert!(u.notes.is_empty());
    assert_eq!(u.block_header.block_num, 2);
    assert_eq!(u.chain_tip, 2);
}

#[test]
fn sync_on_empty_chain_is_an_error() {
    let db = Db::new();
    let r = get_state_sync(&db, 0, &vec![], &vec![], &vec![]);
    assert_eq!(r.err(), Some(StateSyncError::EmptyBlockHeadersTable));
}

#[test]
fn select_nullifiers_reports_spend_heights() {
    let mut db = Db::new();
    empty_block(&mut db, 1);
    let n1 = nullifier_with_prefix(1, 1);
    let n2 = nullifier_with_prefix(2, 2);
    apply_block(&mut db, &header(2), &vec![], &vec![n1], &vec![]).unwrap();
    apply_block(&mut db, &header(3), &vec![], &vec![n2], &vec![]).unwrap();
    assert_eq!(select_nullifiers(&db), vec![(n1, 2), (n2, 3)]);
}

#[test]
fn stored_prefix_matches_derivation() {
    let mut db = Db::new();
    empty_block(&mut db, 1);
    let n = nullifier_with_prefix(0xBEEF, 77);
    apply_block(&mut db, &header(2), &vec![], &vec![n], &vec![]).unwrap();
    // Reaching the record through its own derived prefix must always work.
    let got = select_nullifiers_by_block_range(&db, 0, 2, &vec![get_nullifier_prefix(&n)]);
    assert_eq!(got.len(), 1);
    assert_eq!(got[0].nullifier, n);
}

#[test]
fn extreme_values_are_handled() {
    let mut db = Db::new();
    empty_block(&mut db, 1);
    // The largest id and the top prefix bucket behave like any other.
    apply_block(&mut db, &header(2), &vec![], &vec![], &vec![hash_update(u64::MAX, digest(1))])
        .unwrap();
    let n = Digest { w0: u64::MAX, w1: u64::MAX, w2: u64::MAX, w3: u64::MAX };
    assert_eq!(get_nullifier_prefix(&n), 0xFFFF);
    apply_block(&mut db, &header(3), &vec![], &vec![n], &vec![]).unwrap();

    assert_eq!(select_account(&db, u64::MAX).unwrap().summary.account_hash, digest(1));
    let hits = select_nullifiers_by_block_range(&db, 0, 3, &vec![0xFFFF]);
    assert_eq!(hits.len(), 1);
    assert_eq!(hits[0].nullifier, n);
}
