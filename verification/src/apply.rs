//! The block applier: the single mutation path of the store.  One call
//! writes a new header together with its notes, account updates and
//! nullifiers; if any part fails, nothing of the block becomes visible.

use vstd::prelude::*;

use crate::accounts::{clone_accounts, upsert_batch_spec, upsert_into_table};
use crate::db::{clone_bytes, Db};
use crate::headers::insert_block_header;
use crate::notes::insert_notes;
use crate::nullifiers::{
    batch_has_dup, find_batch_dup, insert_nullifiers_for_block, nullifier_record_spec,
};
use crate::types::{
    AccountInfoView, AccountUpdateDetails, BlockHeaderRecord, DatabaseError, Digest, Note,
};

verus! {

/// Commits one block: its header, the notes it created, the account updates
/// it carries and the nullifiers it spends, in that order, and returns the
/// total number of rows written.
///
/// Atomicity: when any account update fails its checks, or a nullifier is
/// already spent, the error is returned and the store is exactly as it was —
/// no partial block is ever visible.  Blocks arrive strictly serialized, so
/// the header's height is exactly one past the current tip.
#[verifier::rlimit(100)]
pub fn apply_block(
    db: &mut Db,
    block_header: &BlockHeaderRecord,
    notes: &Vec<Note>,
    nullifiers: &Vec<Digest>,
    accounts: &Vec<AccountUpdateDetails>,
) -> (r: Result<usize, DatabaseError>)
    requires
        old(db).wf(),
        old(db).block_headers@.len() < u32::MAX,
        block_header.block_num == old(db).block_headers@.len() + 1,
        forall|i: int|
            0 <= i < notes@.len() ==> (#[trigger] notes.deep_view()[i]).block_num
                == block_header.block_num,
        notes@.len() + accounts@.len() + nullifiers@.len() + 1 <= usize::MAX,
    ensures
        final(db).wf(),
        r is Ok <==> upsert_batch_spec(
            old(db).accounts_view(),
            accounts.deep_view(),
            block_header.block_num,
        ) is Ok && !batch_has_dup(old(db).nullifiers@, nullifiers@),
        r matches Ok(count) ==> count == 1 + notes@.len() + accounts@.len() + nullifiers@.len()
            && final(db).headers_view() == old(db).headers_view().push(block_header@) && final(db).notes_view() == old(db).notes_view() + notes.deep_view() && upsert_batch_spec(
            old(db).accounts_view(),
            accounts.deep_view(),
            block_header.block_num,
        ) == Ok::<_, DatabaseError>(final(db).accounts_view()) && final(db).nullifiers@ == old(
            db,
        ).nullifiers@ + nullifiers@.map_values(
            |d: Digest| nullifier_record_spec(d, block_header.block_num),
        ),
        r matches Err(e) ==> final(db).accounts_view() == old(db).accounts_view() && final(db).nullifiers@ == old(db).nullifiers@ && final(db).notes_view() == old(db).notes_view()
            && final(db).headers_view() == old(db).headers_view() && (upsert_batch_spec(
            old(db).accounts_view(),
            accounts.deep_view(),
            block_header.block_num,
        ) == Err::<Seq<AccountInfoView>, _>(e) || (upsert_batch_spec(
            old(db).accounts_view(),
            accounts.deep_view(),
            block_header.block_num,
        ) is Ok && batch_has_dup(old(db).nullifiers@, nullifiers@) && (e matches
        DatabaseError::DuplicateNullifier(d) && nullifiers@.contains(d)))),
{
    let bn = block_header.block_num;
    let header_row = BlockHeaderRecord {
        block_num: block_header.block_num,
        header: clone_bytes(&block_header.header),
    };
    proof {
        assert(header_row@ == block_header@);
    }
    let count_header = insert_block_header(db, header_row);
    let mut table = clone_accounts(&db.accounts);
    match upsert_into_table(&mut table, accounts, bn) {
        Err(e) => {
            let ghost hv_before = db.headers_view();
            let _ = db.block_headers.pop();
            proof {
                assert(db.headers_view() =~= hv_before.drop_last());
                assert(hv_before.drop_last() =~= old(db).headers_view());
                assert(db.accounts_view() =~= old(db).accounts_view());
                assert(db.notes_view() =~= old(db).notes_view());
            }
            return Err(e);
        },
        Ok(unit) => {},
    }
    match find_batch_dup(&db.nullifiers, nullifiers) {
        Some(d) => {
            let ghost hv_before = db.headers_view();
            let _ = db.block_headers.pop();
            proof {
                assert(db.headers_view() =~= hv_before.drop_last());
                assert(hv_before.drop_last() =~= old(db).headers_view());
                assert(db.accounts_view() =~= old(db).accounts_view());
                assert(db.notes_view() =~= old(db).notes_view());
            }
            return Err(DatabaseError::DuplicateNullifier(d));
        },
        None => {},
    }
    let count_notes = insert_notes(db, notes);
    db.accounts = table;
    proof {
        assert(db.notes_view() == old(db).notes_view() + notes.deep_view());
    }
    match insert_nullifiers_for_block(db, nullifiers, bn) {
        Err(e) => {
            proof {
                assert(false);
            }
            Err(e)
        },
        Ok(count_nullifiers) => Ok(
            count_header + count_notes + accounts.len() + count_nullifiers,
        ),
    }
}

} // verus!
