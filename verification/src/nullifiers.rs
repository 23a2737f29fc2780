//! The nullifier ledger: an append-only log of spent-note markers, indexed by
//! a truncated 16-bit prefix so clients can poll privately.

use vstd::prelude::*;

use crate::db::{
    lemma_filter_take_push, lemma_filter_take_skip, lemma_take_all, nullifier_prefixes_consistent,
    nullifiers_sorted, nullifiers_unique, Db,
};
use crate::types::{DatabaseError, Digest, NullifierInfo, NullifierRecord};

verus! {

/// The indexed bucket of a nullifier: the top 16 bits of the digest's most
/// significant element.
pub open spec fn nullifier_prefix_spec(d: Digest) -> u32 {
    (d.w3 >> 48) as u32
}

/// Returns the high 16 bits of the provided nullifier.
pub fn get_nullifier_prefix(nullifier: &Digest) -> (r: u32)
    ensures
        r == nullifier_prefix_spec(*nullifier),
{
    (nullifier.w3 >> 48) as u32
}

/// The prefix is exactly the top 16 bits of the most significant element:
/// it equals the element shifted down by 48, and so is below `2^16`.
pub proof fn lemma_nullifier_prefix_is_top_bits(d: Digest)
    ensures
        nullifier_prefix_spec(d) == d.w3 / 0x1000000000000,
        nullifier_prefix_spec(d) < 0x10000,
{
    let w = d.w3;
    assert(w >> 48 == w / 0x1000000000000 && w >> 48 < 0x10000) by (bit_vector);
}

/// The record a spend at height `block_num` appends for digest `d`.
pub open spec fn nullifier_record_spec(d: Digest, block_num: u32) -> NullifierRecord {
    NullifierRecord {
        nullifier: d,
        nullifier_prefix: nullifier_prefix_spec(d),
        block_num,
    }
}

/// Digest `i` of the batch collides: it is already stored, or it repeats an
/// earlier digest of the same batch.
pub open spec fn dup_at(stored: Seq<NullifierRecord>, batch: Seq<Digest>, i: int) -> bool {
    (exists|k: int| 0 <= k < stored.len() && (#[trigger] stored[k]).nullifier == batch[i])
        || (exists|j: int| 0 <= j < i && batch[j] == batch[i])
}

/// Some digest of the batch collides with the stored log or with the batch
/// itself.
pub open spec fn batch_has_dup(stored: Seq<NullifierRecord>, batch: Seq<Digest>) -> bool {
    exists|i: int| 0 <= i < batch.len() && #[trigger] dup_at(stored, batch, i)
}

/// True when the stored log holds `d`.
pub(crate) fn log_contains(log: &Vec<NullifierRecord>, d: &Digest) -> (r: bool)
    ensures
        r == exists|k: int| 0 <= k < log@.len() && (#[trigger] log@[k]).nullifier == *d,
{
    let mut k: usize = 0;
    while k < log.len()
        invariant
            k <= log@.len(),
            forall|j: int| 0 <= j < k ==> (#[trigger] log@[j]).nullifier != *d,
        decreases log@.len() - k,
    {
        if log[k].nullifier == *d {
            return true;
        }
        k += 1;
    }
    false
}

/// True when `batch[..upto]` holds `d`.
fn batch_prefix_contains(batch: &Vec<Digest>, upto: usize, d: &Digest) -> (r: bool)
    requires
        upto <= batch@.len(),
    ensures
        r == exists|j: int| 0 <= j < upto && batch@[j] == *d,
{
    let mut j: usize = 0;
    while j < upto
        invariant
            j <= upto <= batch@.len(),
            forall|i: int| 0 <= i < j ==> batch@[i] != *d,
        decreases upto - j,
    {
        if batch[j] == *d {
            return true;
        }
        j += 1;
    }
    false
}

/// Finds the first digest of the batch that is already spent or repeats an
/// earlier digest of the batch, if any.
pub(crate) fn find_batch_dup(log: &Vec<NullifierRecord>, batch: &Vec<Digest>) -> (r: Option<Digest>)
    ensures
        r is None <==> !batch_has_dup(log@, batch@),
        r matches Some(d) ==> exists|i: int|
            0 <= i < batch@.len() && #[trigger] dup_at(log@, batch@, i) && d == batch@[i] && forall|
                j: int,
            | 0 <= j < i ==> !dup_at(log@, batch@, j),
{
    let mut k: usize = 0;
    while k < batch.len()
        invariant
            k <= batch@.len(),
            forall|j: int| 0 <= j < k ==> !#[trigger] dup_at(log@, batch@, j),
        decreases batch@.len() - k,
    {
        let d = batch[k];
        if log_contains(log, &d) || batch_prefix_contains(batch, k, &d) {
            proof {
                assert(dup_at(log@, batch@, k as int));
            }
            return Some(d);
        }
        k += 1;
    }
    None
}

/// Appends the batch of spent nullifiers at height `block_num`.
///
/// Fails with `DuplicateNullifier` — leaving the store unchanged — exactly
/// when a digest of the batch is already spent or repeats within the batch;
/// otherwise appends one record per digest, in batch order, and returns the
/// number of rows added.
pub fn insert_nullifiers_for_block(db: &mut Db, nullifiers: &Vec<Digest>, block_num: u32) -> (r:
    Result<usize, DatabaseError>)
    requires
        old(db).wf(),
        1 <= block_num <= old(db).block_headers@.len(),
        forall|i: int|
            0 <= i < old(db).nullifiers@.len() ==> (#[trigger] old(
                db,
            ).nullifiers@[i]).block_num <= block_num,
    ensures
        final(db).wf(),
        final(db).accounts@ == old(db).accounts@,
        final(db).notes@ == old(db).notes@,
        final(db).block_headers@ == old(db).block_headers@,
        r is Ok <==> !batch_has_dup(old(db).nullifiers@, nullifiers@),
        r matches Ok(count) ==> count == nullifiers@.len() && final(db).nullifiers@ == old(
            db,
        ).nullifiers@ + nullifiers@.map_values(|d: Digest| nullifier_record_spec(d, block_num)),
        r matches Err(e) ==> final(db).nullifiers@ == old(db).nullifiers@ && exists|i: int|
            0 <= i < nullifiers@.len() && #[trigger] dup_at(old(db).nullifiers@, nullifiers@, i)
                && e == DatabaseError::DuplicateNullifier(nullifiers@[i]) && forall|j: int|
                0 <= j < i ==> !dup_at(old(db).nullifiers@, nullifiers@, j),
{
    let mut k: usize = 0;
    while k < nullifiers.len()
        invariant
            k <= nullifiers@.len(),
            forall|j: int| 0 <= j < k ==> !#[trigger] dup_at(db.nullifiers@, nullifiers@, j),
            *db == *old(db),
            old(db).wf(),
        decreases nullifiers@.len() - k,
    {
        let d = nullifiers[k];
        if log_contains(&db.nullifiers, &d) || batch_prefix_contains(nullifiers, k, &d) {
            assert(dup_at(db.nullifiers@, nullifiers@, k as int));
            return Err(DatabaseError::DuplicateNullifier(d));
        }
        k += 1;
    }
    let mut n: usize = 0;
    while n < nullifiers.len()
        invariant
            n <= nullifiers@.len(),
            db.accounts@ == old(db).accounts@,
            db.notes@ == old(db).notes@,
            db.block_headers@ == old(db).block_headers@,
            db.nullifiers@ == old(db).nullifiers@ + nullifiers@.take(n as int).map_values(
                |d: Digest| nullifier_record_spec(d, block_num),
            ),
            old(db).wf(),
            1 <= block_num <= old(db).block_headers@.len(),
            forall|i: int|
                0 <= i < old(db).nullifiers@.len() ==> (#[trigger] old(
                    db,
                ).nullifiers@[i]).block_num <= block_num,
            forall|j: int| 0 <= j < nullifiers@.len() ==> !#[trigger] dup_at(
                old(db).nullifiers@,
                nullifiers@,
                j,
            ),
        decreases nullifiers@.len() - n,
    {
        let d = nullifiers[n];
        let prefix = get_nullifier_prefix(&d);
        db.nullifiers.push(NullifierRecord { nullifier: d, nullifier_prefix: prefix, block_num });
        proof {
            assert(nullifiers@.take(n + 1).map_values(
                |d: Digest| nullifier_record_spec(d, block_num),
            ) =~= nullifiers@.take(n as int).map_values(
                |d: Digest| nullifier_record_spec(d, block_num),
            ).push(nullifier_record_spec(nullifiers@[n as int], block_num)));
        }
        n += 1;
    }
    proof {
        assert(nullifiers@.take(nullifiers@.len() as int) =~= nullifiers@);
        lemma_insert_preserves_wf(old(db).nullifiers@, nullifiers@, block_num, db.nullifiers@);
        assert forall|i: int|
            0 <= i < db.nullifiers@.len() implies 1 <= (#[trigger] db.nullifiers@[i]).block_num
            <= db.block_headers@.len() by {}
    }
    Ok(nullifiers.len())
}

/// Appending a collision-free batch keeps the log unique, sorted, prefix
/// consistent and covered.
proof fn lemma_insert_preserves_wf(
    stored: Seq<NullifierRecord>,
    batch: Seq<Digest>,
    block_num: u32,
    result: Seq<NullifierRecord>,
)
    requires
        nullifiers_unique(stored),
        nullifiers_sorted(stored),
        nullifier_prefixes_consistent(stored),
        forall|i: int| 0 <= i < stored.len() ==> (#[trigger] stored[i]).block_num <= block_num,
        1 <= block_num,
        forall|j: int| 0 <= j < batch.len() ==> !#[trigger] dup_at(stored, batch, j),
        result == stored + batch.map_values(|d: Digest| nullifier_record_spec(d, block_num)),
    ensures
        nullifiers_unique(result),
        nullifiers_sorted(result),
        nullifier_prefixes_consistent(result),
        forall|i: int|
            stored.len() <= i < result.len() ==> (#[trigger] result[i]).block_num == block_num,
{
    assert forall|i: int, j: int| 0 <= i < j < result.len() implies (
    #[trigger] result[i]).nullifier != (#[trigger] result[j]).nullifier by {
        if j >= stored.len() {
            let bj = j - stored.len();
            assert(!dup_at(stored, batch, bj));
            if i >= stored.len() {
                let bi = i - stored.len();
                assert(batch[bi] != batch[bj]);
            } else {
                assert(stored[i].nullifier != batch[bj]);
            }
        }
    }
    assert forall|i: int, j: int| 0 <= i < j < result.len() implies (
    #[trigger] result[i]).block_num <= (#[trigger] result[j]).block_num by {}
    assert forall|i: int|
        0 <= i < result.len() implies (#[trigger] result[i]).nullifier_prefix
        == nullifier_prefix_spec(result[i].nullifier) by {}
}

/// All stored nullifiers with the height at which each was spent, in storage
/// order (ascending height).
pub fn select_nullifiers(db: &Db) -> (r: Vec<(Digest, u32)>)
    ensures
        r@ == db.nullifiers@.map_values(|n: NullifierRecord| (n.nullifier, n.block_num)),
{
    let mut out: Vec<(Digest, u32)> = Vec::new();
    let mut i: usize = 0;
    while i < db.nullifiers.len()
        invariant
            i <= db.nullifiers@.len(),
            out@ == db.nullifiers@.take(i as int).map_values(
                |n: NullifierRecord| (n.nullifier, n.block_num),
            ),
        decreases db.nullifiers@.len() - i,
    {
        let n = &db.nullifiers[i];
        out.push((n.nullifier, n.block_num));
        proof {
            assert(db.nullifiers@.take(i + 1).map_values(
                |n: NullifierRecord| (n.nullifier, n.block_num),
            ) =~= db.nullifiers@.take(i as int).map_values(
                |n: NullifierRecord| (n.nullifier, n.block_num),
            ).push((db.nullifiers@[i as int].nullifier, db.nullifiers@[i as int].block_num)));
        }
        i += 1;
    }
    proof {
        assert(db.nullifiers@.take(db.nullifiers@.len() as int) =~= db.nullifiers@);
    }
    out
}

/// The range filter of the private polling query: spent strictly after
/// `block_start`, at or before `block_end`, in one of the requested buckets.
pub open spec fn nullifier_in_range(n: NullifierRecord, bs: u32, be: u32, prefixes: Seq<u32>) -> bool {
    bs < n.block_num <= be && prefixes.contains(n.nullifier_prefix)
}

/// The range filter as a function value, for use with `Seq::filter`.
pub open spec fn nullifier_range_pred(bs: u32, be: u32, prefixes: Seq<u32>) -> spec_fn(
    NullifierRecord,
) -> bool {
    |n: NullifierRecord| nullifier_in_range(n, bs, be, prefixes)
}

/// Projecting a stored row to what the range query returns.
pub open spec fn nullifier_info_fn() -> spec_fn(NullifierRecord) -> NullifierInfo {
    |n: NullifierRecord| NullifierInfo { nullifier: n.nullifier, block_num: n.block_num }
}

/// The rows the range query returns, in storage order.
pub open spec fn nullifiers_in_range_spec(
    s: Seq<NullifierRecord>,
    bs: u32,
    be: u32,
    prefixes: Seq<u32>,
) -> Seq<NullifierInfo> {
    s.filter(nullifier_range_pred(bs, be, prefixes)).map_values(nullifier_info_fn())
}

/// True when `v` holds `x`.
fn contains_u32(v: &Vec<u32>, x: u32) -> (r: bool)
    ensures
        r == v@.contains(x),
{
    let mut i: usize = 0;
    while i < v.len()
        invariant
            i <= v@.len(),
            forall|j: int| 0 <= j < i ==> v@[j] != x,
        decreases v@.len() - i,
    {
        if v[i] == x {
            return true;
        }
        i += 1;
    }
    false
}

/// Nullifiers spent in `(block_start, block_end]` whose prefix is one of
/// `nullifier_prefixes`, with their spend heights, in ascending height order.
pub fn select_nullifiers_by_block_range(
    db: &Db,
    block_start: u32,
    block_end: u32,
    nullifier_prefixes: &Vec<u32>,
) -> (r: Vec<NullifierInfo>)
    ensures
        r@ == nullifiers_in_range_spec(
            db.nullifiers@,
            block_start,
            block_end,
            nullifier_prefixes@,
        ),
{
    let ghost pred = nullifier_range_pred(block_start, block_end, nullifier_prefixes@);
    let mut out: Vec<NullifierInfo> = Vec::new();
    let mut i: usize = 0;
    while i < db.nullifiers.len()
        invariant
            i <= db.nullifiers@.len(),
            out@ == db.nullifiers@.take(i as int).filter(
                nullifier_range_pred(block_start, block_end, nullifier_prefixes@),
            ).map_values(nullifier_info_fn()),
        decreases db.nullifiers@.len() - i,
    {
        let n = &db.nullifiers[i];
        let matched = block_start < n.block_num && n.block_num <= block_end && contains_u32(
            nullifier_prefixes,
            n.nullifier_prefix,
        );
        let ghost pred = nullifier_range_pred(block_start, block_end, nullifier_prefixes@);
        if matched {
            out.push(NullifierInfo { nullifier: n.nullifier, block_num: n.block_num });
            proof {
                lemma_filter_take_push(db.nullifiers@, pred, i as int);
                assert(db.nullifiers@.take(i + 1).filter(pred).map_values(nullifier_info_fn())
                    =~= out@);
            }
        } else {
            proof {
                lemma_filter_take_skip(db.nullifiers@, pred, i as int);
            }
        }
        i += 1;
    }
    proof {
        lemma_take_all(db.nullifiers@);
    }
    out
}

/// The range query returns only rows strictly after `block_start` and at or
/// before `block_end`: the lower bound is exclusive, the upper inclusive.
pub proof fn lemma_nullifier_range_bounds(
    s: Seq<NullifierRecord>,
    bs: u32,
    be: u32,
    prefixes: Seq<u32>,
)
    ensures
        forall|j: int|
            0 <= j < nullifiers_in_range_spec(s, bs, be, prefixes).len() ==> bs < (
            #[trigger] nullifiers_in_range_spec(s, bs, be, prefixes)[j]).block_num <= be,
{
    let pred = nullifier_range_pred(bs, be, prefixes);
    assert forall|j: int|
        0 <= j < nullifiers_in_range_spec(s, bs, be, prefixes).len() implies bs < (
    #[trigger] nullifiers_in_range_spec(s, bs, be, prefixes)[j]).block_num <= be by {
        s.lemma_filter_pred(pred, j);
    }
}

/// Completeness of the private polling query: a stored nullifier `d` spent in
/// the covered range is always returned when its own prefix is requested.
pub proof fn lemma_prefix_query_covers(
    s: Seq<NullifierRecord>,
    bs: u32,
    be: u32,
    prefixes: Seq<u32>,
    i: int,
)
    requires
        nullifier_prefixes_consistent(s),
        0 <= i < s.len(),
        bs < s[i].block_num <= be,
        prefixes.contains(nullifier_prefix_spec(s[i].nullifier)),
    ensures
        nullifiers_in_range_spec(s, bs, be, prefixes).contains(
            NullifierInfo { nullifier: s[i].nullifier, block_num: s[i].block_num },
        ),
{
    let pred = nullifier_range_pred(bs, be, prefixes);
    assert(pred(s[i]));
    s.lemma_filter_contains(pred, i);
    let filtered = s.filter(pred);
    let j = choose|j: int| 0 <= j < filtered.len() && filtered[j] == s[i];
    assert(nullifiers_in_range_spec(s, bs, be, prefixes)[j] == NullifierInfo {
        nullifier: s[i].nullifier,
        block_num: s[i].block_num,
    });
}

} // verus!
