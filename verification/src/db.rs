//! The table model of the store: four append/upsert tables and the invariant
//! every operation preserves.
//!
//! Blocks are applied strictly serially, so each table is kept ordered by
//! block height; the header table is gap-free starting at height 1.

use vstd::prelude::*;

use crate::crypto::account_hash_of;
use crate::nullifiers::nullifier_prefix_spec;
use crate::types::{
    opt_bytes_view, AccountInfo, AccountInfoView, BlockHeaderRecord, BlockHeaderView, Note,
    NoteView, NullifierRecord,
};

verus! {

/// The durable state: the four tables.
pub struct Db {
    pub accounts: Vec<AccountInfo>,
    pub nullifiers: Vec<NullifierRecord>,
    pub notes: Vec<Note>,
    pub block_headers: Vec<BlockHeaderRecord>,
}

/// No two account rows share an id: accounts are replaced, never duplicated.
pub open spec fn account_ids_unique(s: Seq<AccountInfoView>) -> bool {
    forall|i: int, j: int|
        0 <= i < j < s.len() ==> (#[trigger] s[i]).summary.account_id != (
        #[trigger] s[j]).summary.account_id
}

/// Account rows are ordered by the height of their last update.
pub open spec fn accounts_sorted(s: Seq<AccountInfoView>) -> bool {
    forall|i: int, j: int|
        0 <= i < j < s.len() ==> (#[trigger] s[i]).summary.block_num <= (
        #[trigger] s[j]).summary.block_num
}

/// When a row carries a full snapshot, the stored hash is the hash of that
/// snapshot.
pub open spec fn account_details_consistent(s: Seq<AccountInfoView>) -> bool {
    forall|i: int|
        0 <= i < s.len() ==> ((#[trigger] s[i]).details matches Some(enc) ==> account_hash_of(enc)
            == Some(s[i].summary.account_hash))
}

/// Every account row was last touched by a committed block.
pub open spec fn accounts_covered(s: Seq<AccountInfoView>, headers_len: nat) -> bool {
    forall|i: int| 0 <= i < s.len() ==> 1 <= (#[trigger] s[i]).summary.block_num <= headers_len
}

/// Spending is final: a nullifier appears at most once.
pub open spec fn nullifiers_unique(s: Seq<NullifierRecord>) -> bool {
    forall|i: int, j: int|
        0 <= i < j < s.len() ==> (#[trigger] s[i]).nullifier != (#[trigger] s[j]).nullifier
}

/// Nullifier rows are ordered by the height at which they were spent.
pub open spec fn nullifiers_sorted(s: Seq<NullifierRecord>) -> bool {
    forall|i: int, j: int|
        0 <= i < j < s.len() ==> (#[trigger] s[i]).block_num <= (#[trigger] s[j]).block_num
}

/// Each stored prefix is derived from its nullifier.
pub open spec fn nullifier_prefixes_consistent(s: Seq<NullifierRecord>) -> bool {
    forall|i: int|
        0 <= i < s.len() ==> (#[trigger] s[i]).nullifier_prefix == nullifier_prefix_spec(
            s[i].nullifier,
        )
}

/// Every nullifier was spent by a committed block.
pub open spec fn nullifiers_covered(s: Seq<NullifierRecord>, headers_len: nat) -> bool {
    forall|i: int| 0 <= i < s.len() ==> 1 <= (#[trigger] s[i]).block_num <= headers_len
}

/// Note rows are ordered by the height at which they were created.
pub open spec fn notes_sorted(s: Seq<NoteView>) -> bool {
    forall|i: int, j: int|
        0 <= i < j < s.len() ==> (#[trigger] s[i]).block_num <= (#[trigger] s[j]).block_num
}

/// Every note belongs to a committed block.
pub open spec fn notes_covered(s: Seq<NoteView>, headers_len: nat) -> bool {
    forall|i: int| 0 <= i < s.len() ==> 1 <= (#[trigger] s[i]).block_num <= headers_len
}

/// Headers are append-only, strictly increasing and gap-free from height 1.
pub open spec fn headers_contiguous(s: Seq<BlockHeaderView>) -> bool {
    forall|i: int| 0 <= i < s.len() ==> (#[trigger] s[i]).block_num == i + 1
}

impl Db {
    /// The mathematical contents of the account table.
    pub open spec fn accounts_view(self) -> Seq<AccountInfoView> {
        self.accounts.deep_view()
    }

    /// The mathematical contents of the note table.
    pub open spec fn notes_view(self) -> Seq<NoteView> {
        self.notes.deep_view()
    }

    /// The mathematical contents of the header table.
    pub open spec fn headers_view(self) -> Seq<BlockHeaderView> {
        self.block_headers.deep_view()
    }

    /// The invariant of the store, established empty and preserved by every
    /// mutation.
    pub open spec fn wf(self) -> bool {
        &&& account_ids_unique(self.accounts_view())
        &&& accounts_sorted(self.accounts_view())
        &&& account_details_consistent(self.accounts_view())
        &&& accounts_covered(self.accounts_view(), self.block_headers@.len())
        &&& nullifiers_unique(self.nullifiers@)
        &&& nullifiers_sorted(self.nullifiers@)
        &&& nullifier_prefixes_consistent(self.nullifiers@)
        &&& nullifiers_covered(self.nullifiers@, self.block_headers@.len())
        &&& notes_sorted(self.notes_view())
        &&& notes_covered(self.notes_view(), self.block_headers@.len())
        &&& headers_contiguous(self.headers_view())
    }


    /// An empty store.
    pub fn new() -> (r: Db)
        ensures
            r.wf(),
            r.accounts_view() =~= Seq::<AccountInfoView>::empty(),
            r.nullifiers@ =~= Seq::<NullifierRecord>::empty(),
            r.notes_view() =~= Seq::<NoteView>::empty(),
            r.headers_view() =~= Seq::<BlockHeaderView>::empty(),
            r.accounts@.len() == 0,
            r.notes@.len() == 0,
            r.block_headers@.len() == 0,
    {
        Db {
            accounts: Vec::new(),
            nullifiers: Vec::new(),
            notes: Vec::new(),
            block_headers: Vec::new(),
        }
    }
}

/// Stepping a forward filter loop past a matching element appends it to the
/// filtered prefix.
pub proof fn lemma_filter_take_push<A>(s: Seq<A>, pred: spec_fn(A) -> bool, i: int)
    requires
        0 <= i < s.len(),
        pred(s[i]),
    ensures
        s.take(i + 1).filter(pred) == s.take(i).filter(pred).push(s[i]),
{
    reveal(Seq::filter);
    assert(s.take(i + 1).drop_last() =~= s.take(i));
    assert(s.take(i + 1).last() == s[i]);
}

/// Stepping a forward filter loop past a non-matching element leaves the
/// filtered prefix unchanged.
pub proof fn lemma_filter_take_skip<A>(s: Seq<A>, pred: spec_fn(A) -> bool, i: int)
    requires
        0 <= i < s.len(),
        !pred(s[i]),
    ensures
        s.take(i + 1).filter(pred) == s.take(i).filter(pred),
{
    reveal(Seq::filter);
    assert(s.take(i + 1).drop_last() =~= s.take(i));
    assert(s.take(i + 1).last() == s[i]);
}

/// Every element of a filtered sequence is an element of the original.
pub proof fn lemma_filter_elem_in<A>(s: Seq<A>, pred: spec_fn(A) -> bool, i: int)
    requires
        0 <= i < s.filter(pred).len(),
    ensures
        s.contains(s.filter(pred)[i]),
    decreases s.len(),
{
    reveal(Seq::filter);
    broadcast use Seq::lemma_filter_len;

    if s.len() > 0 {
        let sub = s.drop_last();
        if pred(s.last()) {
            if i < s.filter(pred).len() - 1 {
                lemma_filter_elem_in(sub, pred, i);
                let j = choose|j: int| 0 <= j < sub.len() && sub[j] == s.filter(pred)[i];
                assert(s[j] == s.filter(pred)[i]);
            } else {
                assert(s[s.len() - 1] == s.filter(pred)[i]);
            }
        } else {
            lemma_filter_elem_in(sub, pred, i);
            let j = choose|j: int| 0 <= j < sub.len() && sub[j] == s.filter(pred)[i];
            assert(s[j] == s.filter(pred)[i]);
        }
    }
}

/// A full take is the sequence itself, so a finished filter loop has filtered
/// the whole sequence.
pub proof fn lemma_take_all<A>(s: Seq<A>)
    ensures
        s.take(s.len() as int) == s,
{
    assert(s.take(s.len() as int) =~= s);
}

/// An owned copy of a byte string.
pub fn clone_bytes(v: &Vec<u8>) -> (r: Vec<u8>)
    ensures
        r@ == v@,
{
    let mut out: Vec<u8> = Vec::new();
    let mut i: usize = 0;
    while i < v.len()
        invariant
            i <= v@.len(),
            out@ == v@.take(i as int),
        decreases v@.len() - i,
    {
        out.push(v[i]);
        proof {
            assert(v@.take(i + 1) =~= v@.take(i as int).push(v@[i as int]));
        }
        i += 1;
    }
    proof {
        lemma_take_all(v@);
    }
    out
}

/// An owned copy of an optional byte string.
pub fn clone_opt_bytes(v: &Option<Vec<u8>>) -> (r: Option<Vec<u8>>)
    ensures
        opt_bytes_view(r) == opt_bytes_view(*v),
{
    match v {
        Option::None => Option::None,
        Option::Some(b) => Option::Some(clone_bytes(b)),
    }
}

} // verus!
