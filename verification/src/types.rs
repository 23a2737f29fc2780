//! Value types stored in the tables, and the error kinds the store surfaces.

use vstd::prelude::*;

verus! {

/// A 256-bit digest, held as the integer values of its four field elements.
/// `w3` is the most significant element.
#[derive(Clone, Copy, PartialEq, Eq, Structural, Debug)]
pub struct Digest {
    pub w0: u64,
    pub w1: u64,
    pub w2: u64,
    pub w3: u64,
}

/// Hash and height of an account at its last update.
#[derive(Clone, Copy, PartialEq, Eq, Structural, Debug)]
pub struct AccountSummary {
    pub account_id: u64,
    pub account_hash: Digest,
    pub block_num: u32,
}

/// A stored account row: its summary plus, when the account is public, the
/// canonical byte encoding of its full state.
#[derive(Clone, PartialEq, Eq, Debug)]
pub struct AccountInfo {
    pub summary: AccountSummary,
    pub details: Option<Vec<u8>>,
}

/// One account mutation carried by a block.
#[derive(Clone, PartialEq, Eq, Debug)]
pub struct AccountUpdateDetails {
    pub account_id: u64,
    /// Hash the account must have after this update is applied.
    pub final_state_hash: Digest,
    pub details: Option<AccountDetails>,
}

/// How an account update describes the new state: a full canonical snapshot,
/// or a delta against the snapshot already stored.  Both are canonical byte
/// encodings of the respective outside objects.
#[derive(Clone, PartialEq, Eq, Debug)]
pub enum AccountDetails {
    Full(Vec<u8>),
    Delta(Vec<u8>),
}

/// A stored nullifier row.  The invariant of the store ties `nullifier_prefix`
/// to the top 16 bits of the digest's most significant element.
#[derive(Clone, Copy, PartialEq, Eq, Structural, Debug)]
pub struct NullifierRecord {
    pub nullifier: Digest,
    pub nullifier_prefix: u32,
    pub block_num: u32,
}

/// A nullifier together with the height at which it was spent.
#[derive(Clone, Copy, PartialEq, Eq, Structural, Debug)]
pub struct NullifierInfo {
    pub nullifier: Digest,
    pub block_num: u32,
}

/// The per-note data committed by a block, without the block height.
#[derive(Clone, PartialEq, Eq, Debug)]
pub struct NoteCreated {
    pub batch_index: u32,
    pub note_index: u32,
    pub note_id: Digest,
    pub note_type: u8,
    pub sender: u64,
    pub tag: u32,
    pub details: Option<Vec<u8>>,
}

/// A stored note row: where it was created, and its inclusion proof in that
/// block's note tree (an opaque canonical encoding).
#[derive(Clone, PartialEq, Eq, Debug)]
pub struct Note {
    pub block_num: u32,
    pub note_created: NoteCreated,
    pub merkle_path: Vec<u8>,
}

/// A stored block header row: the height and the header's canonical encoding.
#[derive(Clone, PartialEq, Eq, Debug)]
pub struct BlockHeaderRecord {
    pub block_num: u32,
    pub header: Vec<u8>,
}

/// The bytes held by an optional byte string.
pub open spec fn opt_bytes_view(v: Option<Vec<u8>>) -> Option<Seq<u8>> {
    match v {
        Some(b) => Some(b@),
        None => None,
    }
}

/// The mathematical value of a stored account row.
pub ghost struct AccountInfoView {
    pub summary: AccountSummary,
    pub details: Option<Seq<u8>>,
}

impl View for AccountInfo {
    type V = AccountInfoView;

    open spec fn view(&self) -> AccountInfoView {
        AccountInfoView { summary: self.summary, details: opt_bytes_view(self.details) }
    }
}

impl DeepView for AccountInfo {
    type V = AccountInfoView;

    open spec fn deep_view(&self) -> AccountInfoView {
        self.view()
    }
}

/// The mathematical value of an account update's payload.
pub ghost enum AccountDetailsView {
    Full(Seq<u8>),
    Delta(Seq<u8>),
}

impl View for AccountDetails {
    type V = AccountDetailsView;

    open spec fn view(&self) -> AccountDetailsView {
        match self {
            AccountDetails::Full(enc) => AccountDetailsView::Full(enc@),
            AccountDetails::Delta(enc) => AccountDetailsView::Delta(enc@),
        }
    }
}

impl DeepView for AccountDetails {
    type V = AccountDetailsView;

    open spec fn deep_view(&self) -> AccountDetailsView {
        self.view()
    }
}

/// The mathematical value of one account mutation.
pub ghost struct AccountUpdateView {
    pub account_id: u64,
    pub final_state_hash: Digest,
    pub details: Option<AccountDetailsView>,
}

impl View for AccountUpdateDetails {
    type V = AccountUpdateView;

    open spec fn view(&self) -> AccountUpdateView {
        AccountUpdateView {
            account_id: self.account_id,
            final_state_hash: self.final_state_hash,
            details: match self.details {
                Some(d) => Some(d@),
                None => None,
            },
        }
    }
}

impl DeepView for AccountUpdateDetails {
    type V = AccountUpdateView;

    open spec fn deep_view(&self) -> AccountUpdateView {
        self.view()
    }
}

/// The mathematical value of a stored note row.
pub ghost struct NoteView {
    pub block_num: u32,
    pub batch_index: u32,
    pub note_index: u32,
    pub note_id: Digest,
    pub note_type: u8,
    pub sender: u64,
    pub tag: u32,
    pub merkle_path: Seq<u8>,
    pub details: Option<Seq<u8>>,
}

impl View for Note {
    type V = NoteView;

    open spec fn view(&self) -> NoteView {
        NoteView {
            block_num: self.block_num,
            batch_index: self.note_created.batch_index,
            note_index: self.note_created.note_index,
            note_id: self.note_created.note_id,
            note_type: self.note_created.note_type,
            sender: self.note_created.sender,
            tag: self.note_created.tag,
            merkle_path: self.merkle_path@,
            details: opt_bytes_view(self.note_created.details),
        }
    }
}

impl DeepView for Note {
    type V = NoteView;

    open spec fn deep_view(&self) -> NoteView {
        self.view()
    }
}

/// The mathematical value of a stored block header row.
pub ghost struct BlockHeaderView {
    pub block_num: u32,
    pub header: Seq<u8>,
}

impl View for BlockHeaderRecord {
    type V = BlockHeaderView;

    open spec fn view(&self) -> BlockHeaderView {
        BlockHeaderView { block_num: self.block_num, header: self.header@ }
    }
}

impl DeepView for BlockHeaderRecord {
    type V = BlockHeaderView;

    open spec fn deep_view(&self) -> BlockHeaderView {
        self.view()
    }
}

/// Error kinds surfaced by the table operations.
#[derive(Clone, Copy, PartialEq, Eq, Structural, Debug)]
pub enum DatabaseError {
    /// The queried account id has no row.
    AccountNotFoundInDb(u64),
    /// A delta arrived for an account whose row has no full snapshot.
    AccountNotOnChain(u64),
    /// The hash of the (reconstructed) account state does not equal the hash
    /// the update declared.
    ApplyBlockFailedAccountHashesMismatch { calculated: Digest, expected: Digest },
    /// A full account snapshot could not be decoded.
    AccountDeserializationFailed,
    /// A delta could not be decoded or could not be applied to the stored
    /// snapshot.
    ApplyDeltaFailed,
    /// The nullifier was already recorded as spent: spending is final.
    DuplicateNullifier(Digest),
}

/// Error kinds of the state-sync query.
#[derive(Clone, Copy, PartialEq, Eq, Structural, Debug)]
pub enum StateSyncError {
    /// The header table is empty: the chain has not been initialized.
    EmptyBlockHeadersTable,
}

} // verus!
