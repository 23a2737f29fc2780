//! The block header ledger: an append-only, gap-free log of headers,
//! queryable by height or by "latest".

use vstd::prelude::*;

use crate::db::{clone_bytes, lemma_take_all, Db};
use crate::types::{BlockHeaderRecord, BlockHeaderView};

verus! {

/// What the header lookup returns: the header at the given height, or the
/// latest header when no height is given; `None` when the height is not
/// committed or the table is empty.
pub open spec fn header_lookup_spec(
    headers: Seq<BlockHeaderView>,
    block_number: Option<u32>,
) -> Option<BlockHeaderView> {
    match block_number {
        Some(n) => if 1 <= n && n <= headers.len() {
            Some(headers[n - 1])
        } else {
            None
        },
        None => if headers.len() == 0 {
            None
        } else {
            Some(headers.last())
        },
    }
}

/// Appends the header of a newly committed block and returns the number of
/// rows added.  The chain is gap-free: the header's height must be exactly
/// one past the current tip.
pub fn insert_block_header(db: &mut Db, block_header: BlockHeaderRecord) -> (r: usize)
    requires
        old(db).wf(),
        old(db).block_headers@.len() < u32::MAX,
        block_header.block_num == old(db).block_headers@.len() + 1,
    ensures
        final(db).wf(),
        final(db).accounts@ == old(db).accounts@,
        final(db).nullifiers@ == old(db).nullifiers@,
        final(db).notes@ == old(db).notes@,
        final(db).headers_view() == old(db).headers_view().push(block_header@),
        r == 1,
{
    let ghost prev = db.headers_view();
    let ghost row = block_header@;
    db.block_headers.push(block_header);
    proof {
        assert(db.headers_view() =~= prev.push(row));
        assert(db.accounts_view() =~= old(db).accounts_view());
        assert(db.notes_view() =~= old(db).notes_view());
    }
    1
}

/// The header at the given height, or the latest header when `block_number`
/// is `None`; `None` when that block is not committed (or the chain is empty).
pub fn select_block_header_by_block_num(db: &Db, block_number: Option<u32>) -> (r: Option<
    BlockHeaderRecord,
>)
    ensures
        r.deep_view() == header_lookup_spec(db.headers_view(), block_number),
{
    match block_number {
        Option::Some(n) => {
            if 1 <= n && (n as usize) <= db.block_headers.len() {
                let row = &db.block_headers[(n as usize) - 1];
                Option::Some(
                    BlockHeaderRecord { block_num: row.block_num, header: clone_bytes(&row.header) },
                )
            } else {
                Option::None
            }
        },
        Option::None => {
            let len = db.block_headers.len();
            if len == 0 {
                Option::None
            } else {
                let row = &db.block_headers[len - 1];
                Option::Some(
                    BlockHeaderRecord { block_num: row.block_num, header: clone_bytes(&row.header) },
                )
            }
        },
    }
}

/// All stored headers, in ascending height order.
pub fn select_block_headers(db: &Db) -> (r: Vec<BlockHeaderRecord>)
    ensures
        r.deep_view() == db.headers_view(),
{
    let mut out: Vec<BlockHeaderRecord> = Vec::new();
    let mut i: usize = 0;
    while i < db.block_headers.len()
        invariant
            i <= db.block_headers@.len(),
            out.deep_view() == db.headers_view().take(i as int),
        decreases db.block_headers@.len() - i,
    {
        let ghost prev = out.deep_view();
        let row = &db.block_headers[i];
        out.push(BlockHeaderRecord { block_num: row.block_num, header: clone_bytes(&row.header) });
        proof {
            assert(out.deep_view() =~= prev.push(db.headers_view()[i as int]));
            assert(db.headers_view().take(i + 1) =~= db.headers_view().take(i as int).push(
                db.headers_view()[i as int],
            ));
        }
        i += 1;
    }
    proof {
        lemma_take_all(db.headers_view());
    }
    out
}

} // verus!
