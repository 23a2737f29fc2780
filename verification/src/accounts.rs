//! The account ledger: replace-by-id upserts with hash verification, and the
//! read paths over account rows.

use vstd::prelude::*;

use crate::crypto::{account_hash_of, apply_account_delta, compute_account_hash, delta_applied};
use crate::db::{
    account_details_consistent, account_ids_unique, accounts_covered, accounts_sorted, clone_bytes,
    clone_opt_bytes, lemma_filter_take_push, lemma_filter_take_skip, lemma_take_all, Db,
};
use crate::types::{
    AccountDetails, AccountDetailsView, AccountInfo, AccountInfoView, AccountSummary,
    AccountUpdateDetails, AccountUpdateView, DatabaseError, Digest,
};

verus! {

/// Some row holds the account `id`.
pub open spec fn has_account(s: Seq<AccountInfoView>, id: u64) -> bool {
    exists|i: int| 0 <= i < s.len() && (#[trigger] s[i]).summary.account_id == id
}

/// The index of the row holding `id` (unique when ids are unique).
pub open spec fn account_index(s: Seq<AccountInfoView>, id: u64) -> int {
    choose|i: int| 0 <= i < s.len() && (#[trigger] s[i]).summary.account_id == id
}

/// The row holding `id`.
pub open spec fn account_at(s: Seq<AccountInfoView>, id: u64) -> AccountInfoView {
    s[account_index(s, id)]
}

/// Replace-by-id: the old row for the id, if any, is dropped and the new row
/// appended at the end (the new row carries the newest block height).
pub open spec fn upsert_row(s: Seq<AccountInfoView>, row: AccountInfoView) -> Seq<AccountInfoView> {
    if has_account(s, row.summary.account_id) {
        s.remove(account_index(s, row.summary.account_id)).push(row)
    } else {
        s.push(row)
    }
}

/// The row an update stores when it passes its checks.
pub open spec fn new_row_spec(u: AccountUpdateView, block_num: u32, details: Option<Seq<u8>>) -> AccountInfoView {
    AccountInfoView {
        summary: AccountSummary {
            account_id: u.account_id,
            account_hash: u.final_state_hash,
            block_num,
        },
        details,
    }
}

/// What one account update does to the table.
///
/// A full snapshot must hash to the declared final hash; a delta needs a
/// previously stored full snapshot, is applied to it, and the result must
/// hash to the declared final hash; an update without details stores the bare
/// hash (privacy mode).
pub open spec fn upsert_one_spec(
    s: Seq<AccountInfoView>,
    u: AccountUpdateView,
    block_num: u32,
) -> Result<Seq<AccountInfoView>, DatabaseError> {
    match u.details {
        None => Ok(upsert_row(s, new_row_spec(u, block_num, None))),
        Some(AccountDetailsView::Full(enc)) => match account_hash_of(enc) {
            None => Err(DatabaseError::AccountDeserializationFailed),
            Some(h) => if h != u.final_state_hash {
                Err(
                    DatabaseError::ApplyBlockFailedAccountHashesMismatch {
                        calculated: h,
                        expected: u.final_state_hash,
                    },
                )
            } else {
                Ok(upsert_row(s, new_row_spec(u, block_num, Some(enc))))
            },
        },
        Some(AccountDetailsView::Delta(d)) => if !has_account(s, u.account_id) {
            Err(DatabaseError::AccountNotFoundInDb(u.account_id))
        } else {
            match account_at(s, u.account_id).details {
                None => Err(DatabaseError::AccountNotOnChain(u.account_id)),
                Some(prev) => match delta_applied(prev, d) {
                    None => Err(DatabaseError::ApplyDeltaFailed),
                    Some(new_enc) => match account_hash_of(new_enc) {
                        None => Err(DatabaseError::ApplyDeltaFailed),
                        Some(h) => if h != u.final_state_hash {
                            Err(
                                DatabaseError::ApplyBlockFailedAccountHashesMismatch {
                                    calculated: h,
                                    expected: u.final_state_hash,
                                },
                            )
                        } else {
                            Ok(upsert_row(s, new_row_spec(u, block_num, Some(new_enc))))
                        },
                    },
                },
            }
        },
    }
}

/// What a batch of updates does to the table: each update is applied in
/// order; the first failing update aborts the whole batch.
pub open spec fn upsert_batch_spec(
    s: Seq<AccountInfoView>,
    us: Seq<AccountUpdateView>,
    block_num: u32,
) -> Result<Seq<AccountInfoView>, DatabaseError>
    decreases us.len(),
{
    if us.len() == 0 {
        Ok(s)
    } else {
        match upsert_one_spec(s, us[0], block_num) {
            Err(e) => Err(e),
            Ok(s2) => upsert_batch_spec(s2, us.drop_first(), block_num),
        }
    }
}

/// A found row is the row the lookup specs name: ids are unique.
pub(crate) proof fn lemma_account_index_unique(s: Seq<AccountInfoView>, id: u64, j: int)
    requires
        account_ids_unique(s),
        0 <= j < s.len(),
        s[j].summary.account_id == id,
    ensures
        has_account(s, id),
        account_index(s, id) == j,
        account_at(s, id) == s[j],
{
    assert(has_account(s, id));
    let c = account_index(s, id);
    assert(0 <= c < s.len() && s[c].summary.account_id == id);
}

/// Replace-by-id preserves the account table's invariants when the new row
/// carries the newest height and a consistent hash.
proof fn lemma_upsert_row_preserves(s: Seq<AccountInfoView>, row: AccountInfoView, hl: nat)
    requires
        account_ids_unique(s),
        accounts_sorted(s),
        account_details_consistent(s),
        accounts_covered(s, hl),
        1 <= row.summary.block_num <= hl,
        forall|i: int|
            0 <= i < s.len() ==> (#[trigger] s[i]).summary.block_num <= row.summary.block_num,
        row.details matches Some(enc) ==> account_hash_of(enc) == Some(row.summary.account_hash),
    ensures
        account_ids_unique(upsert_row(s, row)),
        accounts_sorted(upsert_row(s, row)),
        account_details_consistent(upsert_row(s, row)),
        accounts_covered(upsert_row(s, row), hl),
        forall|i: int|
            0 <= i < upsert_row(s, row).len() ==> (#[trigger] upsert_row(
                s,
                row,
            )[i]).summary.block_num <= row.summary.block_num,
{
    let id = row.summary.account_id;
    let t = upsert_row(s, row);
    if has_account(s, id) {
        let j = account_index(s, id);
        assert(0 <= j < s.len() && s[j].summary.account_id == id);
        let s2 = s.remove(j);
        assert(s2.len() == s.len() - 1);
        assert forall|k: int| 0 <= k < s2.len() implies #[trigger] s2[k] == (if k < j {
            s[k]
        } else {
            s[k + 1]
        }) by {}
        assert forall|k: int| 0 <= k < s2.len() implies (#[trigger] s2[k]).summary.account_id != id by {
            if k < j {
                assert(s2[k] == s[k]);
            } else {
                assert(s2[k] == s[k + 1]);
            }
        }
        assert(t == s2.push(row));
        assert forall|a: int, b: int| 0 <= a < b < t.len() implies (#[trigger] t[a]).summary.account_id
            != (#[trigger] t[b]).summary.account_id by {
            if b < t.len() - 1 {
                assert(t[a] == s2[a] && t[b] == s2[b]);
            } else {
                assert(t[b] == row && t[a] == s2[a]);
            }
        }
        assert forall|a: int, b: int| 0 <= a < b < t.len() implies (#[trigger] t[a]).summary.block_num
            <= (#[trigger] t[b]).summary.block_num by {}
        assert forall|a: int| 0 <= a < t.len() implies ((#[trigger] t[a]).details matches Some(enc)
            ==> account_hash_of(enc) == Some(t[a].summary.account_hash)) by {
            if a < t.len() - 1 {
                assert(t[a] == s2[a]);
            } else {
                assert(t[a] == row);
            }
        }
        assert forall|a: int| 0 <= a < t.len() implies 1 <= (#[trigger] t[a]).summary.block_num
            <= hl by {}
    } else {
        assert(t == s.push(row));
        assert forall|a: int, b: int| 0 <= a < b < t.len() implies (#[trigger] t[a]).summary.account_id
            != (#[trigger] t[b]).summary.account_id by {
            if b == t.len() - 1 {
                assert(t[a] == s[a]);
                assert(!has_account(s, id));
                assert(s[a].summary.account_id != id);
            }
        }
    }
}

/// Finds the row holding `id`, if any.
pub(crate) fn find_account_index(table: &Vec<AccountInfo>, id: u64) -> (r: Option<usize>)
    ensures
        r matches Some(j) ==> j < table@.len() && table.deep_view()[j as int].summary.account_id
            == id,
        r is None ==> !has_account(table.deep_view(), id),
{
    let mut i: usize = 0;
    while i < table.len()
        invariant
            i <= table@.len(),
            forall|k: int| 0 <= k < i ==> (#[trigger] table.deep_view()[k]).summary.account_id != id,
        decreases table@.len() - i,
    {
        if table[i].summary.account_id == id {
            return Some(i);
        }
        i += 1;
    }
    None
}

/// Replaces the row for the new row's id, or appends it.
fn apply_row(table: &mut Vec<AccountInfo>, row: AccountInfo)
    requires
        account_ids_unique(old(table).deep_view()),
    ensures
        final(table).deep_view() == upsert_row(old(table).deep_view(), row@),
{
    let ghost orig = table.deep_view();
    let ghost rowv = row@;
    match find_account_index(table, row.summary.account_id) {
        Some(j) => {
            proof {
                lemma_account_index_unique(orig, rowv.summary.account_id, j as int);
            }
            table.remove(j);
            proof {
                assert(table.deep_view() =~= orig.remove(j as int));
            }
            let ghost mid = table.deep_view();
            table.push(row);
            proof {
                assert(table.deep_view() =~= mid.push(rowv));
            }
        },
        None => {
            table.push(row);
            proof {
                assert(table.deep_view() =~= orig.push(rowv));
            }
        },
    }
}

/// Applies one update to the working table; on failure the table is left as
/// it was.
#[verifier::rlimit(60)]
fn upsert_one(table: &mut Vec<AccountInfo>, u: &AccountUpdateDetails, block_num: u32) -> (r:
    Result<(), DatabaseError>)
    requires
        account_ids_unique(old(table).deep_view()),
    ensures
        r is Ok ==> upsert_one_spec(old(table).deep_view(), u@, block_num) == Ok::<
            _,
            DatabaseError,
        >(final(table).deep_view()),
        r matches Err(e) ==> upsert_one_spec(old(table).deep_view(), u@, block_num) == Err::<
            Seq<AccountInfoView>,
            _,
        >(e) && final(table).deep_view() == old(table).deep_view(),
{
    let ghost s0 = table.deep_view();
    let account_id = u.account_id;
    let final_state_hash = u.final_state_hash;
    match &u.details {
        None => {
            let row = AccountInfo {
                summary: AccountSummary { account_id, account_hash: final_state_hash, block_num },
                details: None,
            };
            proof {
                assert(row@ == new_row_spec(u@, block_num, None));
            }
            apply_row(table, row);
            proof {
                assert(upsert_one_spec(s0, u@, block_num) == Ok::<_, DatabaseError>(
                    upsert_row(s0, new_row_spec(u@, block_num, None)),
                ));
            }
            Ok(())
        },
        Some(AccountDetails::Full(enc)) => {
            match compute_account_hash(enc) {
                None => {
                    proof {
                        assert(upsert_one_spec(s0, u@, block_num) == Err::<Seq<AccountInfoView>, _>(
                            DatabaseError::AccountDeserializationFailed,
                        ));
                    }
                    Err(DatabaseError::AccountDeserializationFailed)
                },
                Some(h) => {
                    if h != final_state_hash {
                        let e = DatabaseError::ApplyBlockFailedAccountHashesMismatch {
                            calculated: h,
                            expected: final_state_hash,
                        };
                        proof {
                            assert(upsert_one_spec(s0, u@, block_num) == Err::<
                                Seq<AccountInfoView>,
                                _,
                            >(e));
                        }
                        Err(e)
                    } else {
                        let row = AccountInfo {
                            summary: AccountSummary {
                                account_id,
                                account_hash: final_state_hash,
                                block_num,
                            },
                            details: Some(clone_bytes(enc)),
                        };
                        proof {
                            assert(row@ == new_row_spec(u@, block_num, Some(enc@)));
                        }
                        apply_row(table, row);
                        proof {
                            assert(upsert_one_spec(s0, u@, block_num) == Ok::<_, DatabaseError>(
                                upsert_row(s0, new_row_spec(u@, block_num, Some(enc@))),
                            ));
                        }
                        Ok(())
                    }
                },
            }
        },
        Some(AccountDetails::Delta(d)) => {
            match find_account_index(table, account_id) {
                None => {
                    proof {
                        assert(upsert_one_spec(s0, u@, block_num) == Err::<Seq<AccountInfoView>, _>(
                            DatabaseError::AccountNotFoundInDb(account_id),
                        ));
                    }
                    Err(DatabaseError::AccountNotFoundInDb(account_id))
                },
                Some(j) => {
                    proof {
                        lemma_account_index_unique(s0, account_id, j as int);
                    }
                    let applied = match &table[j].details {
                        None => None,
                        Some(prev_enc) => Some(apply_account_delta(prev_enc, d)),
                    };
                    match applied {
                        None => {
                            proof {
                                assert(account_at(s0, account_id).details is None);
                                assert(upsert_one_spec(s0, u@, block_num) == Err::<
                                    Seq<AccountInfoView>,
                                    _,
                                >(DatabaseError::AccountNotOnChain(account_id)));
                            }
                            Err(DatabaseError::AccountNotOnChain(account_id))
                        },
                        Some(None) => {
                            proof {
                                assert(upsert_one_spec(s0, u@, block_num) == Err::<
                                    Seq<AccountInfoView>,
                                    _,
                                >(DatabaseError::ApplyDeltaFailed));
                            }
                            Err(DatabaseError::ApplyDeltaFailed)
                        },
                        Some(Some((new_enc, h))) => {
                            if h != final_state_hash {
                                let e = DatabaseError::ApplyBlockFailedAccountHashesMismatch {
                                    calculated: h,
                                    expected: final_state_hash,
                                };
                                proof {
                                    assert(upsert_one_spec(s0, u@, block_num) == Err::<
                                        Seq<AccountInfoView>,
                                        _,
                                    >(e));
                                }
                                Err(e)
                            } else {
                                let ghost new_encv = new_enc@;
                                let row = AccountInfo {
                                    summary: AccountSummary {
                                        account_id,
                                        account_hash: final_state_hash,
                                        block_num,
                                    },
                                    details: Some(new_enc),
                                };
                                proof {
                                    assert(row@ == new_row_spec(u@, block_num, Some(new_encv)));
                                }
                                apply_row(table, row);
                                proof {
                                    assert(upsert_one_spec(s0, u@, block_num) == Ok::<
                                        _,
                                        DatabaseError,
                                    >(upsert_row(s0, new_row_spec(u@, block_num, Some(new_encv)))));
                                }
                                Ok(())
                            }
                        },
                    }
                },
            }
        },
    }
}

/// An owned copy of the account table.
pub(crate) fn clone_accounts(v: &Vec<AccountInfo>) -> (r: Vec<AccountInfo>)
    ensures
        r.deep_view() == v.deep_view(),
{
    let mut out: Vec<AccountInfo> = Vec::new();
    let mut i: usize = 0;
    while i < v.len()
        invariant
            i <= v@.len(),
            out.deep_view() == v.deep_view().take(i as int),
        decreases v@.len() - i,
    {
        let ghost prev = out.deep_view();
        let row = &v[i];
        out.push(AccountInfo { summary: row.summary, details: clone_opt_bytes(&row.details) });
        proof {
            assert(out.deep_view() =~= prev.push(v.deep_view()[i as int]));
            assert(v.deep_view().take(i + 1) =~= v.deep_view().take(i as int).push(
                v.deep_view()[i as int],
            ));
        }
        i += 1;
    }
    proof {
        lemma_take_all(v.deep_view());
    }
    out
}

/// Applies a batch of updates to a working table, in order, stopping at the
/// first failing update and leaving the table as it was.
#[verifier::rlimit(60)]
pub(crate) fn upsert_into_table(
    table: &mut Vec<AccountInfo>,
    accounts: &Vec<AccountUpdateDetails>,
    block_num: u32,
) -> (r: Result<(), DatabaseError>)
    requires
        account_ids_unique(old(table).deep_view()),
        accounts_sorted(old(table).deep_view()),
        account_details_consistent(old(table).deep_view()),
        forall|i: int|
            0 <= i < old(table).deep_view().len() ==> 1 <= (#[trigger] old(
                table,
            ).deep_view()[i]).summary.block_num <= block_num,
        1 <= block_num,
    ensures
        r is Ok <==> upsert_batch_spec(
            old(table).deep_view(),
            accounts.deep_view(),
            block_num,
        ) is Ok,
        r is Ok ==> upsert_batch_spec(old(table).deep_view(), accounts.deep_view(), block_num)
            == Ok::<_, DatabaseError>(final(table).deep_view()),
        r matches Err(e) ==> upsert_batch_spec(
            old(table).deep_view(),
            accounts.deep_view(),
            block_num,
        ) == Err::<Seq<AccountInfoView>, _>(e),
        account_ids_unique(final(table).deep_view()),
        accounts_sorted(final(table).deep_view()),
        account_details_consistent(final(table).deep_view()),
        forall|i: int|
            0 <= i < final(table).deep_view().len() ==> 1 <= (#[trigger] final(table).deep_view()[i]).summary.block_num <= block_num,
{
    let ghost orig = table.deep_view();
    let ghost us = accounts.deep_view();
    proof {
        assert(us.skip(0) =~= us);
    }
    let mut k: usize = 0;
    while k < accounts.len()
        invariant
            k <= us.len(),
            us == accounts.deep_view(),
            accounts@.len() == us.len(),
            1 <= block_num,
            orig == old(table).deep_view(),
            upsert_batch_spec(orig, us, block_num) == upsert_batch_spec(
                table.deep_view(),
                us.skip(k as int),
                block_num,
            ),
            account_ids_unique(table.deep_view()),
            accounts_sorted(table.deep_view()),
            account_details_consistent(table.deep_view()),
            forall|i: int|
                0 <= i < table.deep_view().len() ==> 1 <= (#[trigger] table.deep_view()[i]).summary.block_num
                    <= block_num,
        decreases us.len() - k,
    {
        let ghost pre = table.deep_view();
        let u = &accounts[k];
        proof {
            assert(us.skip(k as int)[0] == us[k as int]);
            assert(us[k as int] == u@);
        }
        match upsert_one(table, u, block_num) {
            Err(e) => {
                proof {
                    assert(upsert_batch_spec(pre, us.skip(k as int), block_num) == Err::<
                        Seq<AccountInfoView>,
                        _,
                    >(e));
                }
                return Err(e);
            },
            Ok(unit) => {
                proof {
                    assert(us.skip(k as int).drop_first() =~= us.skip(k as int + 1));
                    assert(upsert_batch_spec(pre, us.skip(k as int), block_num)
                        == upsert_batch_spec(table.deep_view(), us.skip(k as int + 1), block_num));
                    let uv = u@;
                    match uv.details {
                        None => {
                            lemma_upsert_row_preserves(
                                pre,
                                new_row_spec(uv, block_num, None),
                                block_num as nat,
                            );
                        },
                        Some(AccountDetailsView::Full(enc)) => {
                            lemma_upsert_row_preserves(
                                pre,
                                new_row_spec(uv, block_num, Some(enc)),
                                block_num as nat,
                            );
                        },
                        Some(AccountDetailsView::Delta(d)) => {
                            match account_at(pre, uv.account_id).details {
                                Some(prev) => {
                                    match delta_applied(prev, d) {
                                        Some(new_enc) => {
                                            lemma_upsert_row_preserves(
                                                pre,
                                                new_row_spec(uv, block_num, Some(new_enc)),
                                                block_num as nat,
                                            );
                                        },
                                        None => {
                                            assert(false);
                                        },
                                    }
                                },
                                None => {
                                    assert(false);
                                },
                            }
                        },
                    }
                }
            },
        }
        k += 1;
    }
    proof {
        assert(us.skip(us.len() as int) =~= Seq::<AccountUpdateView>::empty());
        assert(upsert_batch_spec(orig, us, block_num) == Ok::<_, DatabaseError>(table.deep_view()));
    }
    Ok(())
}

/// Inserts or updates the accounts touched by the block at height
/// `block_num`, each update verified as `upsert_one_spec` describes, in batch
/// order.  All-or-nothing: on the first failing update the store is left
/// unchanged and that update's error is returned; on success the count of
/// stored rows (one per update) is returned.
pub fn upsert_accounts(db: &mut Db, accounts: &Vec<AccountUpdateDetails>, block_num: u32) -> (r:
    Result<usize, DatabaseError>)
    requires
        old(db).wf(),
        1 <= block_num <= old(db).block_headers@.len(),
        forall|i: int|
            0 <= i < old(db).accounts_view().len() ==> (#[trigger] old(
                db,
            ).accounts_view()[i]).summary.block_num <= block_num,
    ensures
        final(db).wf(),
        final(db).nullifiers@ == old(db).nullifiers@,
        final(db).notes@ == old(db).notes@,
        final(db).block_headers@ == old(db).block_headers@,
        r is Ok <==> upsert_batch_spec(
            old(db).accounts_view(),
            accounts.deep_view(),
            block_num,
        ) is Ok,
        r matches Ok(count) ==> count == accounts@.len() && upsert_batch_spec(
            old(db).accounts_view(),
            accounts.deep_view(),
            block_num,
        ) == Ok::<_, DatabaseError>(final(db).accounts_view()),
        r matches Err(e) ==> upsert_batch_spec(
            old(db).accounts_view(),
            accounts.deep_view(),
            block_num,
        ) == Err::<Seq<AccountInfoView>, _>(e) && final(db).accounts_view() == old(
            db,
        ).accounts_view(),
        forall|i: int|
            0 <= i < final(db).accounts_view().len() ==> (#[trigger] final(db).accounts_view()[i]).summary.block_num <= block_num,
{
    let mut table = clone_accounts(&db.accounts);
    match upsert_into_table(&mut table, accounts, block_num) {
        Err(e) => Err(e),
        Ok(unit) => {
            db.accounts = table;
            Ok(accounts.len())
        },
    }
}

/// All account rows, in storage order (ascending height of last update).
pub fn select_accounts(db: &Db) -> (r: Vec<AccountInfo>)
    ensures
        r.deep_view() == db.accounts_view(),
{
    clone_accounts(&db.accounts)
}

/// The latest stored state of one account, or `AccountNotFoundInDb`.
pub fn select_account(db: &Db, account_id: u64) -> (r: Result<AccountInfo, DatabaseError>)
    requires
        db.wf(),
    ensures
        r is Ok <==> has_account(db.accounts_view(), account_id),
        r matches Ok(a) ==> a@ == account_at(db.accounts_view(), account_id),
        r matches Err(e) ==> e == DatabaseError::AccountNotFoundInDb(account_id),
{
    match find_account_index(&db.accounts, account_id) {
        None => Err(DatabaseError::AccountNotFoundInDb(account_id)),
        Some(j) => {
            proof {
                lemma_account_index_unique(db.accounts_view(), account_id, j as int);
            }
            let row = &db.accounts[j];
            Ok(AccountInfo { summary: row.summary, details: clone_opt_bytes(&row.details) })
        },
    }
}

/// Projecting a row to its id and hash.
pub open spec fn account_hash_entry_fn() -> spec_fn(AccountInfoView) -> (u64, Digest) {
    |a: AccountInfoView| (a.summary.account_id, a.summary.account_hash)
}

/// The id and current hash of every account, in storage order.
pub fn select_account_hashes(db: &Db) -> (r: Vec<(u64, Digest)>)
    ensures
        r@ == db.accounts_view().map_values(account_hash_entry_fn()),
{
    let mut out: Vec<(u64, Digest)> = Vec::new();
    let mut i: usize = 0;
    while i < db.accounts.len()
        invariant
            i <= db.accounts@.len(),
            out@ == db.accounts_view().take(i as int).map_values(account_hash_entry_fn()),
        decreases db.accounts@.len() - i,
    {
        let row = &db.accounts[i];
        out.push((row.summary.account_id, row.summary.account_hash));
        proof {
            assert(db.accounts_view().take(i + 1).map_values(account_hash_entry_fn())
                =~= db.accounts_view().take(i as int).map_values(account_hash_entry_fn()).push(
                account_hash_entry_fn()(db.accounts_view()[i as int]),
            ));
        }
        i += 1;
    }
    proof {
        lemma_take_all(db.accounts_view());
    }
    out
}

/// The range filter of the state-sync query: updated strictly after
/// `block_start`, at or before `block_end`, with a requested id.
pub open spec fn summary_in_range(a: AccountInfoView, bs: u32, be: u32, ids: Seq<u64>) -> bool {
    bs < a.summary.block_num <= be && ids.contains(a.summary.account_id)
}

/// The range filter as a function value, for use with `Seq::filter`.
pub open spec fn summary_range_pred(bs: u32, be: u32, ids: Seq<u64>) -> spec_fn(
    AccountInfoView,
) -> bool {
    |a: AccountInfoView| summary_in_range(a, bs, be, ids)
}

/// Projecting a row to its summary.
pub open spec fn summary_fn() -> spec_fn(AccountInfoView) -> AccountSummary {
    |a: AccountInfoView| a.summary
}

/// The summaries the range query returns, in storage order.
pub open spec fn summaries_in_range_spec(
    s: Seq<AccountInfoView>,
    bs: u32,
    be: u32,
    ids: Seq<u64>,
) -> Seq<AccountSummary> {
    s.filter(summary_range_pred(bs, be, ids)).map_values(summary_fn())
}

/// True when `v` holds `x`.
fn contains_u64(v: &Vec<u64>, x: u64) -> (r: bool)
    ensures
        r == v@.contains(x),
{
    let mut i: usize = 0;
    while i < v.len()
        invariant
            i <= v@.len(),
            forall|j: int| 0 <= j < i ==> v@[j] != x,
        decreases v@.len() - i,
    {
        if v[i] == x {
            return true;
        }
        i += 1;
    }
    false
}

/// Summaries of the requested accounts whose last update lies in
/// `(block_start, block_end]`, in ascending height order.
pub fn select_accounts_by_block_range(
    db: &Db,
    block_start: u32,
    block_end: u32,
    account_ids: &Vec<u64>,
) -> (r: Vec<AccountSummary>)
    ensures
        r@ == summaries_in_range_spec(db.accounts_view(), block_start, block_end, account_ids@),
{
    let ghost pred = summary_range_pred(block_start, block_end, account_ids@);
    let mut out: Vec<AccountSummary> = Vec::new();
    let mut i: usize = 0;
    while i < db.accounts.len()
        invariant
            i <= db.accounts@.len(),
            out@ == db.accounts_view().take(i as int).filter(
                summary_range_pred(block_start, block_end, account_ids@),
            ).map_values(summary_fn()),
        decreases db.accounts@.len() - i,
    {
        let ghost pred = summary_range_pred(block_start, block_end, account_ids@);
        let row = &db.accounts[i];
        let matched = block_start < row.summary.block_num && row.summary.block_num <= block_end
            && contains_u64(account_ids, row.summary.account_id);
        if matched {
            out.push(row.summary);
            proof {
                lemma_filter_take_push(db.accounts_view(), pred, i as int);
                assert(db.accounts_view().take(i + 1).filter(pred).map_values(summary_fn())
                    =~= out@);
            }
        } else {
            proof {
                lemma_filter_take_skip(db.accounts_view(), pred, i as int);
            }
        }
        i += 1;
    }
    proof {
        lemma_take_all(db.accounts_view());
    }
    out
}

/// The range query returns only rows updated strictly after `block_start`
/// and at or before `block_end`: the lower bound is exclusive, the upper
/// inclusive.
pub proof fn lemma_summary_range_bounds(s: Seq<AccountInfoView>, bs: u32, be: u32, ids: Seq<u64>)
    ensures
        forall|j: int|
            0 <= j < summaries_in_range_spec(s, bs, be, ids).len() ==> bs < (
            #[trigger] summaries_in_range_spec(s, bs, be, ids)[j]).block_num <= be,
{
    let pred = summary_range_pred(bs, be, ids);
    assert forall|j: int|
        0 <= j < summaries_in_range_spec(s, bs, be, ids).len() implies bs < (
    #[trigger] summaries_in_range_spec(s, bs, be, ids)[j]).block_num <= be by {
        s.lemma_filter_pred(pred, j);
    }
}

/// Completeness of the range query: a requested account updated within the
/// range — the upper bound included — is always returned.
pub proof fn lemma_summary_range_covers(
    s: Seq<AccountInfoView>,
    bs: u32,
    be: u32,
    ids: Seq<u64>,
    i: int,
)
    requires
        0 <= i < s.len(),
        bs < s[i].summary.block_num <= be,
        ids.contains(s[i].summary.account_id),
    ensures
        summaries_in_range_spec(s, bs, be, ids).contains(s[i].summary),
{
    let pred = summary_range_pred(bs, be, ids);
    assert(pred(s[i]));
    s.lemma_filter_contains(pred, i);
    let filtered = s.filter(pred);
    let j = choose|j: int| 0 <= j < filtered.len() && filtered[j] == s[i];
    assert(summaries_in_range_spec(s, bs, be, ids)[j] == s[i].summary);
}

/// Replace-by-id on a table with unique ids keeps ids unique and puts the
/// new row last.
proof fn lemma_upsert_row_unique(s: Seq<AccountInfoView>, row: AccountInfoView)
    requires
        account_ids_unique(s),
    ensures
        account_ids_unique(upsert_row(s, row)),
        upsert_row(s, row).len() >= 1,
        upsert_row(s, row).last() == row,
{
    let id = row.summary.account_id;
    let t = upsert_row(s, row);
    if has_account(s, id) {
        let j = account_index(s, id);
        assert(0 <= j < s.len() && s[j].summary.account_id == id);
        let s2 = s.remove(j);
        assert forall|k: int| 0 <= k < s2.len() implies #[trigger] s2[k] == (if k < j {
            s[k]
        } else {
            s[k + 1]
        }) by {}
        assert(t == s2.push(row));
        assert forall|a: int, b: int| 0 <= a < b < t.len() implies (
        #[trigger] t[a]).summary.account_id != (#[trigger] t[b]).summary.account_id by {
            if b < t.len() - 1 {
                assert(t[a] == s2[a] && t[b] == s2[b]);
            } else {
                assert(t[b] == row && t[a] == s2[a]);
                if a < j {
                    assert(s2[a] == s[a]);
                } else {
                    assert(s2[a] == s[a + 1]);
                }
            }
        }
    } else {
        assert(t == s.push(row));
        assert forall|a: int, b: int| 0 <= a < b < t.len() implies (
        #[trigger] t[a]).summary.account_id != (#[trigger] t[b]).summary.account_id by {
            if b == t.len() - 1 {
                assert(t[a] == s[a]);
                assert(s[a].summary.account_id != id);
            }
        }
    }
}

/// Replace-by-id is idempotent: storing the same row twice leaves the table
/// as after the first store.
proof fn lemma_upsert_row_idempotent(s: Seq<AccountInfoView>, row: AccountInfoView)
    requires
        account_ids_unique(s),
    ensures
        upsert_row(upsert_row(s, row), row) == upsert_row(s, row),
{
    let id = row.summary.account_id;
    let t = upsert_row(s, row);
    lemma_upsert_row_unique(s, row);
    assert(t.last() == row);
    assert(t[t.len() - 1].summary.account_id == id);
    assert(has_account(t, id));
    lemma_account_index_unique(t, id, t.len() - 1);
    assert(account_index(t, id) == t.len() - 1);
    assert(t.remove(t.len() - 1) =~= t.drop_last());
    if has_account(s, id) {
        let j = account_index(s, id);
        assert(t.drop_last() =~= s.remove(j));
    } else {
        assert(t.drop_last() =~= s);
    }
    assert(upsert_row(t, row) =~= t);
}

/// Upserts are idempotent for hash-only and full-snapshot updates: applying
/// the same update twice yields the same stored table (and each application
/// succeeds, counting one affected row both times).
pub proof fn lemma_upsert_idempotent(s: Seq<AccountInfoView>, u: AccountUpdateView, block_num: u32)
    requires
        account_ids_unique(s),
        !(u.details matches Some(AccountDetailsView::Delta(d))),
        upsert_one_spec(s, u, block_num) is Ok,
    ensures
        upsert_one_spec(upsert_one_spec(s, u, block_num)->Ok_0, u, block_num) == upsert_one_spec(
            s,
            u,
            block_num,
        ),
{
    match u.details {
        None => {
            lemma_upsert_row_idempotent(s, new_row_spec(u, block_num, None));
        },
        Some(AccountDetailsView::Full(enc)) => {
            lemma_upsert_row_idempotent(s, new_row_spec(u, block_num, Some(enc)));
        },
        Some(AccountDetailsView::Delta(d)) => {
        },
    }
}

/// An integrity violation is never skipped: if the first `i` updates of a
/// batch succeed and update `i` fails its checks, the whole batch — and so
/// the whole block — fails with exactly that update's error.
pub proof fn lemma_batch_error_propagates(
    s: Seq<AccountInfoView>,
    us: Seq<AccountUpdateView>,
    block_num: u32,
    i: int,
    t: Seq<AccountInfoView>,
    e: DatabaseError,
)
    requires
        0 <= i < us.len(),
        upsert_batch_spec(s, us.take(i), block_num) == Ok::<_, DatabaseError>(t),
        upsert_one_spec(t, us[i], block_num) == Err::<Seq<AccountInfoView>, _>(e),
    ensures
        upsert_batch_spec(s, us, block_num) == Err::<Seq<AccountInfoView>, _>(e),
    decreases i,
{
    if i == 0 {
        assert(us.take(0) =~= Seq::<AccountUpdateView>::empty());
        assert(t == s);
    } else {
        assert(us.take(i)[0] == us[0]);
        match upsert_one_spec(s, us[0], block_num) {
            Err(e0) => {
                assert(false);
            },
            Ok(s1) => {
                assert(us.take(i).drop_first() =~= us.drop_first().take(i - 1));
                assert(upsert_batch_spec(s1, us.drop_first().take(i - 1), block_num) == Ok::<
                    _,
                    DatabaseError,
                >(t));
                assert(us.drop_first()[i - 1] == us[i]);
                lemma_batch_error_propagates(s1, us.drop_first(), block_num, i - 1, t, e);
            },
        }
    }
}

/// A full snapshot whose hash differs from the declared final hash is
/// rejected with a hash-mismatch error; together with
/// `lemma_batch_error_propagates` this makes the violation fatal to the
/// whole block, wherever in the batch the update stands.
pub proof fn lemma_hash_mismatch_rejected(
    s: Seq<AccountInfoView>,
    u: AccountUpdateView,
    block_num: u32,
    enc: Seq<u8>,
    h: Digest,
)
    requires
        u.details == Some(AccountDetailsView::Full(enc)),
        account_hash_of(enc) == Some(h),
        h != u.final_state_hash,
    ensures
        upsert_one_spec(s, u, block_num) == Err::<Seq<AccountInfoView>, _>(
            DatabaseError::ApplyBlockFailedAccountHashesMismatch {
                calculated: h,
                expected: u.final_state_hash,
            },
        ),
{
}

} // verus!
