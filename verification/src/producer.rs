//! The store contract the external block producer consumes: transaction
//! verification inputs, block building inputs, and block commitment.

use vstd::prelude::*;

use crate::accounts::{account_at, find_account_index, has_account, upsert_batch_spec};
use crate::db::Db;
use crate::types::Note;
use crate::headers::select_block_header_by_block_num;
use crate::nullifiers::{batch_has_dup, log_contains, nullifier_record_spec};
use crate::types::{
    AccountInfoView, AccountSummary, AccountUpdateDetails, BlockHeaderRecord, DatabaseError,
    Digest, NullifierRecord,
};

verus! {

/// What fetching transaction inputs can surface.  Transport failures belong
/// to the out-of-scope network layer; this store itself never raises them.
#[derive(Clone, Copy, PartialEq, Eq, Structural, Debug)]
pub enum TxInputsError {
    GrpcClientError,
    MalformedResponse,
    ParseError,
    Dummy,
}

/// What fetching block inputs can surface.
#[derive(Clone, Copy, PartialEq, Eq, Structural, Debug)]
pub enum BlockInputsError {
    ParseError,
    GrpcClientError,
    /// The chain is empty: no header to build on.
    EmptyChain,
}

/// What committing a block through the contract can surface.
#[derive(Clone, Copy, PartialEq, Eq, Structural, Debug)]
pub enum ApplyBlockError {
    GrpcClientError,
}

/// A fully assembled block, as the producer hands it to the store.
pub struct Block {
    pub header: BlockHeaderRecord,
    pub notes: Vec<Note>,
    pub updated_accounts: Vec<AccountUpdateDetails>,
    pub produced_nullifiers: Vec<Digest>,
}

/// Information needed from the store to verify a transaction.
pub struct TxInputs {
    /// The hash stored for the transaction's account, absent when the
    /// account is unknown.
    pub account_hash: Option<Digest>,
    /// For each nullifier the transaction would produce, whether it is
    /// already recorded as spent.
    pub nullifiers: Vec<(Digest, bool)>,
}

/// Information needed from the store to build a new block.
pub struct BlockInputs {
    /// The current chain tip's header.
    pub block_header: BlockHeaderRecord,
    /// The current summary of each requested account that is known.
    pub account_states: Vec<AccountSummary>,
    /// For each produced nullifier, the height at which it was spent, or 0
    /// when it is unspent.
    pub nullifiers: Vec<(Digest, u32)>,
}

/// Commits fully assembled blocks.  The store side of the producer boundary:
/// production and test implementations are interchangeable behind it.
pub trait ApplyBlock {
    fn apply_block(&mut self, block: &Block) -> Result<(), ApplyBlockError>;
}

/// The read side of the producer boundary: inputs for transaction
/// verification and block building.
pub trait Store: ApplyBlock {
    fn get_tx_inputs(&self, account_id: u64, nullifiers: &Vec<Digest>) -> Result<
        TxInputs,
        TxInputsError,
    >;

    fn get_block_inputs(&self, updated_accounts: &Vec<u64>, produced_nullifiers: &Vec<Digest>)
        -> Result<BlockInputs, BlockInputsError>;
}

/// Requested ids that the store knows, as a filter function value.
pub open spec fn known_account_pred(s: Seq<crate::types::AccountInfoView>) -> spec_fn(u64) -> bool {
    |id: u64| has_account(s, id)
}

/// Projecting a known id to its stored summary.
pub open spec fn summary_of_fn(s: Seq<crate::types::AccountInfoView>) -> spec_fn(
    u64,
) -> AccountSummary {
    |id: u64| account_at(s, id).summary
}

/// The log holds a record for digest `d`.
pub open spec fn log_has(log: Seq<NullifierRecord>, d: Digest) -> bool {
    exists|k: int| 0 <= k < log.len() && (#[trigger] log[k]).nullifier == d
}

/// The height at which `d` was spent, or 0 when it is unspent.
pub open spec fn spent_height_spec(log: Seq<NullifierRecord>, d: Digest) -> u32 {
    if log_has(log, d) {
        log[choose|k: int| 0 <= k < log.len() && (#[trigger] log[k]).nullifier == d].block_num
    } else {
        0
    }
}

/// Pairing each digest with whether it is spent.
pub open spec fn spent_flag_fn(log: Seq<NullifierRecord>) -> spec_fn(Digest) -> (Digest, bool) {
    |d: Digest| (d, log_has(log, d))
}

/// Pairing each digest with its spend height.
pub open spec fn spent_height_fn(log: Seq<NullifierRecord>) -> spec_fn(Digest) -> (Digest, u32) {
    |d: Digest| (d, spent_height_spec(log, d))
}

/// The height at which `d` was spent, or 0 when unspent.  Exact when
/// spending is final (each digest spent at most once).
fn spent_height(log: &Vec<NullifierRecord>, d: &Digest) -> (r: u32)
    requires
        forall|i: int, j: int|
            0 <= i < j < log@.len() ==> (#[trigger] log@[i]).nullifier != (
            #[trigger] log@[j]).nullifier,
    ensures
        r == spent_height_spec(log@, *d),
{
    let mut k: usize = 0;
    while k < log.len()
        invariant
            k <= log@.len(),
            forall|j: int| 0 <= j < k ==> (#[trigger] log@[j]).nullifier != *d,
            forall|i: int, j: int|
                0 <= i < j < log@.len() ==> (#[trigger] log@[i]).nullifier != (
                #[trigger] log@[j]).nullifier,
        decreases log@.len() - k,
    {
        if log[k].nullifier == *d {
            proof {
                assert(log_has(log@, *d));
                let c = choose|c: int| 0 <= c < log@.len() && (#[trigger] log@[c]).nullifier == *d;
                assert(log@[c].nullifier == *d);
            }
            return log[k].block_num;
        }
        k += 1;
    }
    0
}

impl Db {
    /// Transaction verification inputs: the current hash of the target
    /// account (absent when unknown), and for each produced nullifier
    /// whether it is already spent — so double spends are rejected before a
    /// transaction enters a block.
    pub fn get_tx_inputs(&self, account_id: u64, nullifiers: &Vec<Digest>) -> (r: Result<
        TxInputs,
        TxInputsError,
    >)
        requires
            self.wf(),
        ensures
            r is Ok,
            r matches Ok(t) ==> ({
                &&& t.account_hash == (if has_account(self.accounts_view(), account_id) {
                    Some(account_at(self.accounts_view(), account_id).summary.account_hash)
                } else {
                    None::<Digest>
                })
                &&& t.nullifiers@ == nullifiers@.map_values(spent_flag_fn(self.nullifiers@))
            }),
    {
        let account_hash = match find_account_index(&self.accounts, account_id) {
            Some(j) => {
                proof {
                    crate::accounts::lemma_account_index_unique(self.accounts_view(), account_id, j as int);
                }
                Some(self.accounts[j].summary.account_hash)
            },
            None => None,
        };
        let mut spent: Vec<(Digest, bool)> = Vec::new();
        let mut i: usize = 0;
        while i < nullifiers.len()
            invariant
                i <= nullifiers@.len(),
                spent@ == nullifiers@.take(i as int).map_values(spent_flag_fn(self.nullifiers@)),
            decreases nullifiers@.len() - i,
        {
            let d = nullifiers[i];
            let seen = log_contains(&self.nullifiers, &d);
            proof {
                assert(seen == log_has(self.nullifiers@, d));
            }
            spent.push((d, seen));
            proof {
                assert(nullifiers@.take(i + 1).map_values(spent_flag_fn(self.nullifiers@))
                    =~= spent@);
            }
            i += 1;
        }
        proof {
            assert(nullifiers@.take(nullifiers@.len() as int) =~= nullifiers@);
        }
        Ok(TxInputs { account_hash, nullifiers: spent })
    }

    /// Block building inputs: the chain tip's header, the current summaries
    /// of the requested accounts that are known, and each produced
    /// nullifier's spend height (0 when unspent).  Fails only on an empty
    /// chain.
    pub fn get_block_inputs(&self, updated_accounts: &Vec<u64>, produced_nullifiers: &Vec<Digest>)
        -> (r: Result<BlockInputs, BlockInputsError>)
        requires
            self.wf(),
        ensures
            r is Ok <==> self.block_headers@.len() > 0,
            r matches Err(e) ==> e == BlockInputsError::EmptyChain,
            r matches Ok(b) ==> ({
                &&& b.block_header@ == self.headers_view().last()
                &&& b.account_states@ == updated_accounts@.filter(
                    known_account_pred(self.accounts_view()),
                ).map_values(summary_of_fn(self.accounts_view()))
                &&& b.nullifiers@ == produced_nullifiers@.map_values(
                    spent_height_fn(self.nullifiers@),
                )
            }),
    {
        let block_header = match select_block_header_by_block_num(self, None) {
            Some(h) => h,
            None => {
                return Err(BlockInputsError::EmptyChain);
            },
        };
        let mut account_states: Vec<AccountSummary> = Vec::new();
        let mut i: usize = 0;
        while i < updated_accounts.len()
            invariant
                i <= updated_accounts@.len(),
                self.wf(),
                account_states@ == updated_accounts@.take(i as int).filter(
                    known_account_pred(self.accounts_view()),
                ).map_values(summary_of_fn(self.accounts_view())),
            decreases updated_accounts@.len() - i,
        {
            let ghost idpred = known_account_pred(self.accounts_view());
            let ghost proj = summary_of_fn(self.accounts_view());
            let id = updated_accounts[i];
            match find_account_index(&self.accounts, id) {
                Some(j) => {
                    proof {
                        crate::accounts::lemma_account_index_unique(self.accounts_view(), id, j as int);
                        crate::db::lemma_filter_take_push(updated_accounts@, idpred, i as int);
                    }
                    account_states.push(self.accounts[j].summary);
                    proof {
                        assert(updated_accounts@.take(i + 1).filter(idpred).map_values(proj)
                            =~= account_states@);
                    }
                },
                None => {
                    proof {
                        crate::db::lemma_filter_take_skip(updated_accounts@, idpred, i as int);
                    }
                },
            }
            i += 1;
        }
        proof {
            crate::db::lemma_take_all(updated_accounts@);
        }
        let mut spent: Vec<(Digest, u32)> = Vec::new();
        let mut k: usize = 0;
        while k < produced_nullifiers.len()
            invariant
                k <= produced_nullifiers@.len(),
                self.wf(),
                spent@ == produced_nullifiers@.take(k as int).map_values(
                    spent_height_fn(self.nullifiers@),
                ),
            decreases produced_nullifiers@.len() - k,
        {
            let d = produced_nullifiers[k];
            let h = spent_height(&self.nullifiers, &d);
            spent.push((d, h));
            proof {
                assert(produced_nullifiers@.take(k + 1).map_values(
                    spent_height_fn(self.nullifiers@),
                ) =~= spent@);
            }
            k += 1;
        }
        proof {
            assert(produced_nullifiers@.take(produced_nullifiers@.len() as int)
                =~= produced_nullifiers@);
        }
        Ok(BlockInputs { block_header, account_states, nullifiers: spent })
    }
}

/// True when every note of the batch was created at height `b`.
fn notes_all_at(notes: &Vec<Note>, b: u32) -> (r: bool)
    ensures
        r == forall|i: int|
            0 <= i < notes@.len() ==> (#[trigger] notes.deep_view()[i]).block_num == b,
{
    let mut i: usize = 0;
    while i < notes.len()
        invariant
            i <= notes@.len(),
            forall|k: int| 0 <= k < i ==> (#[trigger] notes.deep_view()[k]).block_num == b,
        decreases notes@.len() - i,
    {
        if notes[i].block_num != b {
            proof {
                assert(notes.deep_view()[i as int].block_num != b);
            }
            return false;
        }
        i += 1;
    }
    true
}

/// Relies on `core::mem::replace`: moves `src` into `dest` and returns the
/// previous value.
pub assume_specification<T>[ core::mem::replace ](dest: &mut T, src: T) -> (r: T)
    ensures
        *final(dest) == src,
        r == *old(dest),
;

/// The store contract over the verified in-memory table model: the test
/// variant of the boundary, interchangeable with a store that persists the
/// same model through its substrate.  The tables stay well formed by type
/// invariant, so every call runs against a valid state.
pub struct InMemoryStore {
    db: Db,
}

impl InMemoryStore {
    /// The tables this store currently holds.
    pub closed spec fn db_spec(self) -> Db {
        self.db
    }

    #[verifier::type_invariant]
    closed spec fn store_inv(self) -> bool {
        self.db.wf()
    }

    /// An empty store.
    pub fn new() -> (r: InMemoryStore)
        ensures
            r.db_spec().wf(),
            r.db_spec().block_headers@.len() == 0,
            r.db_spec().accounts@.len() == 0,
            r.db_spec().nullifiers@.len() == 0,
            r.db_spec().notes@.len() == 0,
    {
        InMemoryStore { db: Db::new() }
    }

    /// Read access to the tables, for the query surface.
    pub fn database(&self) -> (r: &Db)
        ensures
            *r == self.db_spec(),
            r.wf(),
    {
        proof {
            use_type_invariant(self);
        }
        &self.db
    }
}

impl ApplyBlock for InMemoryStore {
    /// Commits the block through the verified applier.  Fails — leaving the
    /// tables untouched — when the block does not sit exactly one past the
    /// tip, when a note of the batch carries another height, when the block
    /// is too large to count, or when the applier itself rejects it (a hash
    /// mismatch, a duplicate nullifier); succeeds in every other case, and
    /// then the tables transition exactly as `apply::apply_block` says.
    fn apply_block(&mut self, block: &Block) -> (r: Result<(), ApplyBlockError>)
        ensures
            ({
                let db0 = old(self).db_spec();
                let bn = block.header.block_num;
                &&& (r is Ok <==> db0.block_headers@.len() < u32::MAX && bn
                    == db0.block_headers@.len() + 1 && (forall|i: int|
                    0 <= i < block.notes@.len() ==> (
                    #[trigger] block.notes.deep_view()[i]).block_num == bn)
                    && block.notes@.len() + block.updated_accounts@.len()
                    + block.produced_nullifiers@.len() + 1 <= usize::MAX && upsert_batch_spec(
                    db0.accounts_view(),
                    block.updated_accounts.deep_view(),
                    bn,
                ) is Ok && !batch_has_dup(db0.nullifiers@, block.produced_nullifiers@))
                &&& r is Ok ==> final(self).db_spec().headers_view() == db0.headers_view().push(
                    block.header@,
                ) && final(self).db_spec().notes_view() == db0.notes_view()
                    + block.notes.deep_view() && upsert_batch_spec(
                    db0.accounts_view(),
                    block.updated_accounts.deep_view(),
                    bn,
                ) == Ok::<_, DatabaseError>(final(self).db_spec().accounts_view()) && final(self).db_spec().nullifiers@ == db0.nullifiers@
                    + block.produced_nullifiers@.map_values(
                    |d: Digest| nullifier_record_spec(d, bn),
                )
                &&& r is Err ==> final(self).db_spec().accounts_view() == db0.accounts_view()
                    && final(self).db_spec().nullifiers@ == db0.nullifiers@ && final(self).db_spec().notes_view() == db0.notes_view() && final(self).db_spec().headers_view() == db0.headers_view()
                &&& r matches Err(e) ==> e == ApplyBlockError::GrpcClientError
            }),
    {
        proof {
            use_type_invariant(&*self);
        }
        let tip = self.db.block_headers.len();
        if tip >= (u32::MAX as usize) {
            return Err(ApplyBlockError::GrpcClientError);
        }
        if (block.header.block_num as usize) != tip + 1 {
            return Err(ApplyBlockError::GrpcClientError);
        }
        if !notes_all_at(&block.notes, block.header.block_num) {
            return Err(ApplyBlockError::GrpcClientError);
        }
        let total: u128 = (block.notes.len() as u128) + (block.updated_accounts.len() as u128)
            + (block.produced_nullifiers.len() as u128) + 1;
        if total > (usize::MAX as u128) {
            return Err(ApplyBlockError::GrpcClientError);
        }
        let this = core::mem::replace(self, InMemoryStore { db: Db::new() });
        let InMemoryStore { db: mut db } = this;
        let r = crate::apply::apply_block(
            &mut db,
            &block.header,
            &block.notes,
            &block.produced_nullifiers,
            &block.updated_accounts,
        );
        *self = InMemoryStore { db };
        match r {
            Ok(count) => Ok(()),
            Err(e) => Err(ApplyBlockError::GrpcClientError),
        }
    }
}

impl Store for InMemoryStore {
    /// As `Db::get_tx_inputs`, over this store's tables.
    fn get_tx_inputs(&self, account_id: u64, nullifiers: &Vec<Digest>) -> (r: Result<
        TxInputs,
        TxInputsError,
    >)
        ensures
            r is Ok,
            r matches Ok(t) ==> ({
                &&& t.account_hash == (if has_account(
                    self.db_spec().accounts_view(),
                    account_id,
                ) {
                    Some(
                        account_at(
                            self.db_spec().accounts_view(),
                            account_id,
                        ).summary.account_hash,
                    )
                } else {
                    None::<Digest>
                })
                &&& t.nullifiers@ == nullifiers@.map_values(
                    spent_flag_fn(self.db_spec().nullifiers@),
                )
            }),
    {
        proof {
            use_type_invariant(self);
        }
        self.db.get_tx_inputs(account_id, nullifiers)
    }

    /// As `Db::get_block_inputs`, over this store's tables.
    fn get_block_inputs(&self, updated_accounts: &Vec<u64>, produced_nullifiers: &Vec<Digest>)
        -> (r: Result<BlockInputs, BlockInputsError>)
        ensures
            r is Ok <==> self.db_spec().block_headers@.len() > 0,
            r matches Err(e) ==> e == BlockInputsError::EmptyChain,
            r matches Ok(b) ==> ({
                &&& b.block_header@ == self.db_spec().headers_view().last()
                &&& b.account_states@ == updated_accounts@.filter(
                    known_account_pred(self.db_spec().accounts_view()),
                ).map_values(summary_of_fn(self.db_spec().accounts_view()))
                &&& b.nullifiers@ == produced_nullifiers@.map_values(
                    spent_height_fn(self.db_spec().nullifiers@),
                )
            }),
    {
        proof {
            use_type_invariant(self);
        }
        self.db.get_block_inputs(updated_accounts, produced_nullifiers)
    }
}

} // verus!
