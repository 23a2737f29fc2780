//! The state-sync engine: one composite read that gives a client the next
//! block of interest past its watermark, together with the account and
//! nullifier changes up to that block.

use vstd::prelude::*;

use crate::accounts::{select_accounts_by_block_range, summaries_in_range_spec};
use crate::db::{lemma_filter_elem_in, Db};
use crate::headers::select_block_header_by_block_num;
use crate::notes::{
    block_match_pred, notes_since_spec, select_notes_since_block_by_tag_and_sender, since_pred,
};
use crate::nullifiers::{nullifiers_in_range_spec, select_nullifiers_by_block_range};
use crate::types::{
    AccountSummary, BlockHeaderRecord, Note, NullifierInfo, StateSyncError,
};

verus! {

/// Everything one sync step hands back to the client.
pub struct StateSyncUpdate {
    pub notes: Vec<Note>,
    pub block_header: BlockHeaderRecord,
    pub chain_tip: u32,
    pub account_updates: Vec<AccountSummary>,
    pub nullifiers: Vec<NullifierInfo>,
}

/// The height the sync step targets: the block of the matching notes, or the
/// chain tip when no note matches.
pub open spec fn sync_target_spec(db: Db, tags: Seq<u32>, ids: Seq<u64>, after: u32) -> int {
    let ns = notes_since_spec(db.notes_view(), tags, ids, after);
    if ns.len() == 0 {
        db.headers_view().last().block_num as int
    } else {
        ns[0].block_num as int
    }
}

/// Loads the state necessary for one state-sync step.
///
/// The notes are those of the earliest block past `block_num` holding a note
/// whose tag is in `note_tag_prefixes` or whose sender is in `account_ids`;
/// when no such block exists the target degenerates to the chain tip and no
/// notes are returned.  Account and nullifier changes cover exactly the
/// half-open range `(block_num, target]`.  Fails only on an empty chain.
pub fn get_state_sync(
    db: &Db,
    block_num: u32,
    account_ids: &Vec<u64>,
    note_tag_prefixes: &Vec<u32>,
    nullifier_prefixes: &Vec<u32>,
) -> (r: Result<StateSyncUpdate, StateSyncError>)
    requires
        db.wf(),
    ensures
        r is Ok <==> db.block_headers@.len() > 0,
        r matches Err(e) ==> e == StateSyncError::EmptyBlockHeadersTable,
        r matches Ok(u) ==> ({
            let target = sync_target_spec(*db, note_tag_prefixes@, account_ids@, block_num);
            &&& u.notes.deep_view() == notes_since_spec(
                db.notes_view(),
                note_tag_prefixes@,
                account_ids@,
                block_num,
            )
            &&& 1 <= target <= db.headers_view().len()
            &&& u.block_header@ == db.headers_view()[target - 1]
            &&& u.block_header.block_num == target
            &&& u.chain_tip == db.headers_view().last().block_num
            &&& u.account_updates@ == summaries_in_range_spec(
                db.accounts_view(),
                block_num,
                u.block_header.block_num,
                account_ids@,
            )
            &&& u.nullifiers@ == nullifiers_in_range_spec(
                db.nullifiers@,
                block_num,
                u.block_header.block_num,
                nullifier_prefixes@,
            )
        }),
{
    let notes = select_notes_since_block_by_tag_and_sender(
        db,
        note_tag_prefixes,
        account_ids,
        block_num,
    );
    if db.block_headers.len() == 0 {
        return Err(StateSyncError::EmptyBlockHeadersTable);
    }
    let (block_header, chain_tip) = if notes.len() > 0 {
        let target = notes[0].block_num;
        proof {
            assert(notes.deep_view()[0].block_num == target);
            let s = db.notes_view();
            let ns = notes_since_spec(s, note_tag_prefixes@, account_ids@, block_num);
            assert(notes.deep_view().len() > 0);
            assert(ns.len() > 0);
            let m = s.filter(since_pred(note_tag_prefixes@, account_ids@, block_num));
            assert(m.len() > 0);
            let bmp = block_match_pred(note_tag_prefixes@, account_ids@, m[0].block_num);
            lemma_filter_elem_in(s, bmp, 0);
            let x = s.filter(bmp)[0];
            let i = choose|i: int| 0 <= i < s.len() && s[i] == x;
            assert(1 <= s[i].block_num <= db.block_headers@.len());
            assert(1 <= target <= db.block_headers@.len());
        }
        let block_header = match select_block_header_by_block_num(db, Some(target)) {
            Some(h) => h,
            None => {
                proof {
                    assert(false);
                }
                return Err(StateSyncError::EmptyBlockHeadersTable);
            },
        };
        let tip = match select_block_header_by_block_num(db, None) {
            Some(h) => h,
            None => {
                proof {
                    assert(false);
                }
                return Err(StateSyncError::EmptyBlockHeadersTable);
            },
        };
        (block_header, tip.block_num)
    } else {
        let block_header = match select_block_header_by_block_num(db, None) {
            Some(h) => h,
            None => {
                proof {
                    assert(false);
                }
                return Err(StateSyncError::EmptyBlockHeadersTable);
            },
        };
        let tip = block_header.block_num;
        (block_header, tip)
    };
    let account_updates = select_accounts_by_block_range(
        db,
        block_num,
        block_header.block_num,
        account_ids,
    );
    let nullifiers = select_nullifiers_by_block_range(
        db,
        block_num,
        block_header.block_num,
        nullifier_prefixes,
    );
    Ok(StateSyncUpdate { notes, block_header, chain_tip, account_updates, nullifiers })
}

} // verus!
