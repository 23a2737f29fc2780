//! The trusted boundary to the outside cryptography library.
//!
//! The store treats accounts, deltas and headers as canonical byte encodings
//! of the outside library's objects.  What only that library can compute — the
//! hash of an account, the application of a delta, Merkle tree roots — is
//! reached through the wrappers below.  Each result that is a pure function of
//! the arguments is given an uninterpreted name, and the wrappers' contracts
//! speak of those names.

use vstd::prelude::*;

use miden_objects::accounts::{Account, AccountDelta};
use miden_objects::crypto::merkle::{EmptySubtreeRoots, MmrPeaks, SimpleSmt, Smt};
use miden_objects::notes::NOTE_LEAF_DEPTH;
use miden_objects::utils::serde::{Deserializable, Serializable};
use miden_objects::{BlockHeader, Digest as RpoDigest, Felt, StarkField, ACCOUNT_TREE_DEPTH};

use crate::types::Digest;

verus! {

/// The hash of the account whose canonical encoding is `enc`, or `None` when
/// `enc` is not a canonical account encoding.
pub uninterp spec fn account_hash_of(enc: Seq<u8>) -> Option<Digest>;

/// The id of the account whose canonical encoding is `enc`, or `None` when
/// `enc` is not a canonical account encoding.
pub uninterp spec fn account_id_of(enc: Seq<u8>) -> Option<u64>;

/// The canonical encoding of the account obtained by applying the delta
/// encoded by `delta` to the account encoded by `enc`; `None` when either
/// encoding is malformed or the delta cannot be applied.
pub uninterp spec fn delta_applied(enc: Seq<u8>, delta: Seq<u8>) -> Option<Seq<u8>>;

/// The canonical encoding of the account read from the head of the byte
/// stream `s`, or `None` when no account can be read there.
pub uninterp spec fn account_head_enc(s: Seq<u8>) -> Option<Seq<u8>>;

/// The root of the depth-64 sparse Merkle tree whose leaf at each `key` holds
/// the paired digest; `None` when a key occurs twice.
pub uninterp spec fn smt_root_of(entries: Seq<(u64, Digest)>) -> Option<Digest>;

/// The canonical encoding of the genesis block header built over the given
/// account tree root, protocol version and timestamp.
pub uninterp spec fn genesis_header_of(account_root: Digest, version: u64, timestamp: u64) -> Seq<u8>;

/// Relies on `Account::read_from_bytes` and `Account::hash`: decoding the
/// canonical encoding and hashing the result depend on the bytes alone.
#[verifier::external_body]
pub(crate) fn compute_account_hash(enc: &Vec<u8>) -> (r: Option<Digest>)
    ensures
        r == account_hash_of(enc@),
{
    let account = Account::read_from_bytes(enc.as_slice()).ok()?;
    let e = account.hash();
    let e = e.as_elements();
    Some(Digest { w0: e[0].as_int(), w1: e[1].as_int(), w2: e[2].as_int(), w3: e[3].as_int() })
}

/// Relies on `Account::read_from_bytes` and `AccountId::into`: the id read
/// from the canonical encoding depends on the bytes alone.
#[verifier::external_body]
pub(crate) fn read_account_id(enc: &Vec<u8>) -> (r: Option<u64>)
    ensures
        r == account_id_of(enc@),
{
    let account = Account::read_from_bytes(enc.as_slice()).ok()?;
    Some(account.id().into())
}

/// Relies on `Account::apply_delta`, together with the account and delta
/// codecs: the applied account, its canonical re-encoding and its hash are
/// functions of the two encodings alone.  The hash of the result is the hash
/// of the encoding the call returns.
#[verifier::external_body]
pub(crate) fn apply_account_delta(enc: &Vec<u8>, delta: &Vec<u8>) -> (r: Option<(Vec<u8>, Digest)>)
    ensures
        r matches Some(p) ==> delta_applied(enc@, delta@) == Some(p.0@)
            && account_hash_of(p.0@) == Some(p.1),
        r is None ==> delta_applied(enc@, delta@) is None,
{
    let mut account = Account::read_from_bytes(enc.as_slice()).ok()?;
    let d = AccountDelta::read_from_bytes(delta.as_slice()).ok()?;
    account.apply_delta(&d).ok()?;
    let e = account.hash();
    let e = e.as_elements();
    let hash = Digest { w0: e[0].as_int(), w1: e[1].as_int(), w2: e[2].as_int(), w3: e[3].as_int() };
    Some((account.to_bytes(), hash))
}

/// Relies on `Account::read_from_bytes`, which reads one account from the
/// head of the slice and ignores what follows, and on the canonicity of the
/// account codec: re-encoding the account read reproduces exactly the bytes
/// consumed, so the returned encoding is the consumed prefix of the stream.
/// An account encoding is never empty (it begins with the account's id).
#[verifier::external_body]
pub(crate) fn read_account_at(bytes: &Vec<u8>, pos: usize) -> (r: Option<Vec<u8>>)
    requires
        pos <= bytes@.len(),
    ensures
        r matches Some(enc) ==> account_head_enc(bytes@.skip(pos as int)) == Some(enc@)
            && enc@.len() > 0,
        r is None ==> account_head_enc(bytes@.skip(pos as int)) is None,
{
    let account = Account::read_from_bytes(&bytes[pos..]).ok()?;
    Some(account.to_bytes())
}

/// The leaf keys are pairwise distinct.
pub open spec fn leaf_keys_unique(entries: Seq<(u64, Digest)>) -> bool {
    forall|i: int, j: int|
        0 <= i < j < entries.len() ==> (#[trigger] entries[i]).0 != (#[trigger] entries[j]).0
}

/// Relies on `SimpleSmt::with_leaves` at the account tree depth and on
/// `SimpleSmt::root`: the root is a function of the leaf entries alone, and
/// construction fails exactly on a duplicated key, or on more entries than
/// the tree can hold.
#[verifier::external_body]
pub(crate) fn account_tree_root(entries: &Vec<(u64, Digest)>) -> (r: Option<Digest>)
    ensures
        r == smt_root_of(entries@),
        leaf_keys_unique(entries@) && entries@.len() < 0x8000000000000000 ==> r is Some,
        r is Some ==> leaf_keys_unique(entries@),
{
    let leaves = entries
        .iter()
        .map(|e| (e.0, [Felt::new(e.1.w0), Felt::new(e.1.w1), Felt::new(e.1.w2), Felt::new(e.1.w3)]));
    let smt = SimpleSmt::<ACCOUNT_TREE_DEPTH>::with_leaves(leaves).ok()?;
    let e = smt.root();
    let e = e.as_elements();
    Some(Digest { w0: e[0].as_int(), w1: e[1].as_int(), w2: e[2].as_int(), w3: e[3].as_int() })
}

/// Relies on `BlockHeader::new` and its codec: the genesis header commits to
/// a zero previous hash, block number 1, the empty peak set's hash, the given
/// account tree root, the empty nullifier tree's root, the note tree's empty
/// subtree root, zero batch and proof commitments, and the given version and
/// timestamp; its encoding is a function of root, version and timestamp alone.
#[verifier::external_body]
pub(crate) fn build_genesis_header(account_root: &Digest, version: u64, timestamp: u64) -> (r: Vec<u8>)
    ensures
        r@ == genesis_header_of(*account_root, version, timestamp),
{
    let root = RpoDigest::new([Felt::new(account_root.w0), Felt::new(account_root.w1), Felt::new(account_root.w2), Felt::new(account_root.w3)]);
    let header = BlockHeader::new(
        RpoDigest::default(), 1_u32,
        MmrPeaks::new(0, Vec::new()).unwrap().hash_peaks(), root,
        Smt::default().root(), *EmptySubtreeRoots::entry(NOTE_LEAF_DEPTH, 0),
        RpoDigest::default(), RpoDigest::default(),
        Felt::new(version), Felt::new(timestamp),
    );
    header.to_bytes()
}

} // verus!
