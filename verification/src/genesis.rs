//! The genesis builder: the state the chain starts from, its commitment
//! tree and first header, and the canonical on-disk serialization.

use vstd::prelude::*;

use crate::crypto::{
    account_hash_of, account_head_enc, account_id_of, account_tree_root, build_genesis_header,
    compute_account_hash, genesis_header_of, leaf_keys_unique, read_account_at, read_account_id,
    smt_root_of,
};
use crate::db::lemma_take_all;
use crate::types::{BlockHeaderRecord, Digest};

verus! {

/// What genesis building and serialization can reject.
#[derive(Clone, Copy, PartialEq, Eq, Structural, Debug)]
pub enum GenesisError {
    /// Two genesis accounts share an id: the commitment tree has no root.
    DuplicateAccountId,
    /// The serialized genesis state is malformed, truncated, or carries
    /// trailing bytes.
    DeserializationFailed,
}

/// One genesis account: the plain values the builder reads (id and hash),
/// together with the account's canonical byte encoding.
#[derive(Clone, PartialEq, Eq, Debug)]
pub struct GenesisAccount {
    pub id: u64,
    pub hash: Digest,
    pub encoded: Vec<u8>,
}

/// The mathematical value of a genesis account.
pub ghost struct GenesisAccountView {
    pub id: u64,
    pub hash: Digest,
    pub encoded: Seq<u8>,
}

impl View for GenesisAccount {
    type V = GenesisAccountView;

    open spec fn view(&self) -> GenesisAccountView {
        GenesisAccountView { id: self.id, hash: self.hash, encoded: self.encoded@ }
    }
}

impl DeepView for GenesisAccount {
    type V = GenesisAccountView;

    open spec fn deep_view(&self) -> GenesisAccountView {
        self.view()
    }
}

/// The id and hash of a genesis account agree with its encoding.
pub open spec fn genesis_account_wf(a: GenesisAccountView) -> bool {
    &&& account_id_of(a.encoded) == Some(a.id)
    &&& account_hash_of(a.encoded) == Some(a.hash)
}

impl GenesisAccount {
    /// Builds a genesis account from a canonical account encoding, reading
    /// its id and hash; rejects bytes that do not decode.
    pub fn from_encoded(encoded: Vec<u8>) -> (r: Option<GenesisAccount>)
        ensures
            r is Some <==> account_id_of(encoded@) is Some && account_hash_of(encoded@) is Some,
            r matches Some(a) ==> a@ == (GenesisAccountView {
                id: account_id_of(encoded@)->0,
                hash: account_hash_of(encoded@)->0,
                encoded: encoded@,
            }) && genesis_account_wf(a@),
    {
        let id = match read_account_id(&encoded) {
            Some(id) => id,
            None => {
                return None;
            },
        };
        let hash = match compute_account_hash(&encoded) {
            Some(h) => h,
            None => {
                return None;
            },
        };
        Some(GenesisAccount { id, hash, encoded })
    }
}

/// The state at genesis, from which the first block is derived.
#[derive(Clone, PartialEq, Eq, Debug)]
pub struct GenesisState {
    pub accounts: Vec<GenesisAccount>,
    pub version: u64,
    pub timestamp: u64,
}

/// The mathematical value of a genesis state.
pub ghost struct GenesisStateView {
    pub accounts: Seq<GenesisAccountView>,
    pub version: u64,
    pub timestamp: u64,
}

impl View for GenesisState {
    type V = GenesisStateView;

    open spec fn view(&self) -> GenesisStateView {
        GenesisStateView {
            accounts: self.accounts.deep_view(),
            version: self.version,
            timestamp: self.timestamp,
        }
    }
}

impl GenesisState {
    /// Every account's id and hash agree with its encoding.
    pub open spec fn wf(self) -> bool {
        forall|i: int|
            0 <= i < self@.accounts.len() ==> genesis_account_wf(#[trigger] self@.accounts[i])
    }

    pub fn new(accounts: Vec<GenesisAccount>, version: u64, timestamp: u64) -> (r: GenesisState)
        ensures
            r@ == (GenesisStateView {
                accounts: accounts.deep_view(),
                version,
                timestamp,
            }),
    {
        GenesisState { accounts, version, timestamp }
    }
}

/// The commitment tree leaves of a genesis state: each account's id paired
/// with its hash.
pub open spec fn genesis_leaves_spec(accounts: Seq<GenesisAccountView>) -> Seq<(u64, Digest)> {
    accounts.map_values(|a: GenesisAccountView| (a.id, a.hash))
}

impl GenesisState {
    /// Derives the first block from the genesis state: the depth-64 account
    /// commitment tree's root, and the genesis header committing to it.
    /// Fails exactly when two accounts share an id.
    pub fn into_block_parts(&self) -> (r: Result<(BlockHeaderRecord, Digest), GenesisError>)
        ensures
            r is Ok <==> smt_root_of(genesis_leaves_spec(self@.accounts)) is Some,
            leaf_keys_unique(genesis_leaves_spec(self@.accounts)) && self.accounts@.len()
                < 0x8000000000000000 ==> r is Ok,
            r is Ok ==> leaf_keys_unique(genesis_leaves_spec(self@.accounts)),
            r matches Ok(p) ==> Some(p.1) == smt_root_of(genesis_leaves_spec(self@.accounts))
                && p.0.block_num == 1 && p.0.header@ == genesis_header_of(
                p.1,
                self.version,
                self.timestamp,
            ),
            r matches Err(e) ==> e == GenesisError::DuplicateAccountId,
    {
        let mut leaves: Vec<(u64, Digest)> = Vec::new();
        let mut i: usize = 0;
        while i < self.accounts.len()
            invariant
                i <= self.accounts@.len(),
                leaves@ == genesis_leaves_spec(self@.accounts.take(i as int)),
            decreases self.accounts@.len() - i,
        {
            let a = &self.accounts[i];
            leaves.push((a.id, a.hash));
            proof {
                assert(genesis_leaves_spec(self@.accounts.take(i + 1)) =~= genesis_leaves_spec(
                    self@.accounts.take(i as int),
                ).push((self@.accounts[i as int].id, self@.accounts[i as int].hash)));
            }
            i += 1;
        }
        proof {
            lemma_take_all(self@.accounts);
            assert(genesis_leaves_spec(self@.accounts.take(self@.accounts.len() as int))
                == genesis_leaves_spec(self@.accounts));
        }
        let root = match account_tree_root(&leaves) {
            Some(root) => root,
            None => {
                return Err(GenesisError::DuplicateAccountId);
            },
        };
        let header = build_genesis_header(&root, self.version, self.timestamp);
        Ok((BlockHeaderRecord { block_num: 1, header }, root))
    }
}

/// The little-endian encoding of a 64-bit integer.
pub open spec fn u64_le_bytes(x: u64) -> Seq<u8> {
    seq![
        (x & 0xFF) as u8,
        ((x >> 8) & 0xFF) as u8,
        ((x >> 16) & 0xFF) as u8,
        ((x >> 24) & 0xFF) as u8,
        ((x >> 32) & 0xFF) as u8,
        ((x >> 40) & 0xFF) as u8,
        ((x >> 48) & 0xFF) as u8,
        ((x >> 56) & 0xFF) as u8,
    ]
}

/// The 64-bit integer read from eight little-endian bytes.
pub open spec fn le_u64(b: Seq<u8>) -> u64
    recommends
        b.len() == 8,
{
    (b[0] as u64) | ((b[1] as u64) << 8) | ((b[2] as u64) << 16) | ((b[3] as u64) << 24) | ((
    b[4] as u64) << 32) | ((b[5] as u64) << 40) | ((b[6] as u64) << 48) | ((b[7] as u64) << 56)
}

/// Reading back the little-endian encoding recovers the integer.
pub proof fn lemma_le_u64_round_trip(x: u64)
    ensures
        le_u64(u64_le_bytes(x)) == x,
{
    let b = u64_le_bytes(x);
    assert(b[0] == (x & 0xFF) as u8 && b[1] == ((x >> 8) & 0xFF) as u8 && b[2] == ((x >> 16)
        & 0xFF) as u8 && b[3] == ((x >> 24) & 0xFF) as u8 && b[4] == ((x >> 32) & 0xFF) as u8
        && b[5] == ((x >> 40) & 0xFF) as u8 && b[6] == ((x >> 48) & 0xFF) as u8 && b[7] == ((x
        >> 56) & 0xFF) as u8);
    assert((((x & 0xFF) as u8) as u64) | ((((x >> 8) & 0xFF) as u8) as u64) << 8 | ((((x >> 16)
        & 0xFF) as u8) as u64) << 16 | ((((x >> 24) & 0xFF) as u8) as u64) << 24 | ((((x >> 32)
        & 0xFF) as u8) as u64) << 32 | ((((x >> 40) & 0xFF) as u8) as u64) << 40 | ((((x >> 48)
        & 0xFF) as u8) as u64) << 48 | ((((x >> 56) & 0xFF) as u8) as u64) << 56 == x)
        by (bit_vector);
}

/// Appends the little-endian encoding of `x`.
fn write_u64_le(out: &mut Vec<u8>, x: u64)
    ensures
        final(out)@ == old(out)@ + u64_le_bytes(x),
{
    out.push((x & 0xFF) as u8);
    out.push(((x >> 8) & 0xFF) as u8);
    out.push(((x >> 16) & 0xFF) as u8);
    out.push(((x >> 24) & 0xFF) as u8);
    out.push(((x >> 32) & 0xFF) as u8);
    out.push(((x >> 40) & 0xFF) as u8);
    out.push(((x >> 48) & 0xFF) as u8);
    out.push(((x >> 56) & 0xFF) as u8);
    proof {
        assert(out@ =~= old(out)@ + u64_le_bytes(x));
    }
}

/// Reads the little-endian integer at `pos`.
fn read_u64_le(b: &Vec<u8>, pos: usize) -> (r: u64)
    requires
        pos + 8 <= b@.len(),
    ensures
        r == le_u64(b@.subrange(pos as int, pos + 8)),
{
    let n = b.len();
    let r = (b[pos] as u64) | ((b[pos + 1] as u64) << 8) | ((b[pos + 2] as u64) << 16) | ((b[pos
        + 3] as u64) << 24) | ((b[pos + 4] as u64) << 32) | ((b[pos + 5] as u64) << 40) | ((b[pos
        + 6] as u64) << 48) | ((b[pos + 7] as u64) << 56);
    proof {
        let s = b@.subrange(pos as int, pos + 8);
        assert(s[0] == b@[pos as int] && s[1] == b@[pos + 1] && s[2] == b@[pos + 2] && s[3] == b@[
            pos + 3] && s[4] == b@[pos + 4] && s[5] == b@[pos + 5] && s[6] == b@[pos + 6] && s[7]
            == b@[pos + 7]);
    }
    r
}

/// The concatenation of the accounts' canonical encodings, in order.
pub open spec fn concat_accounts(accounts: Seq<GenesisAccountView>) -> Seq<u8>
    decreases accounts.len(),
{
    if accounts.len() == 0 {
        Seq::<u8>::empty()
    } else {
        accounts[0].encoded + concat_accounts(accounts.drop_first())
    }
}

/// Appending one more account extends the concatenation by its encoding.
pub proof fn lemma_concat_take_step(accounts: Seq<GenesisAccountView>, i: int)
    requires
        0 <= i < accounts.len(),
    ensures
        concat_accounts(accounts.take(i + 1)) == concat_accounts(accounts.take(i))
            + accounts[i].encoded,
    decreases i,
{
    if i == 0 {
        assert(accounts.take(1).drop_first() =~= Seq::<GenesisAccountView>::empty());
        assert(accounts.take(0) =~= Seq::<GenesisAccountView>::empty());
        assert(accounts.take(1)[0] == accounts[0]);
        assert(concat_accounts(Seq::<GenesisAccountView>::empty()) =~= Seq::<u8>::empty());
        assert(concat_accounts(accounts.take(1)) == accounts.take(1)[0].encoded + concat_accounts(
            accounts.take(1).drop_first(),
        ));
        assert(concat_accounts(accounts.take(1)) =~= accounts[0].encoded);
        assert(concat_accounts(accounts.take(0)) + accounts[0].encoded =~= accounts[0].encoded);
    } else {
        let sub = accounts.drop_first();
        lemma_concat_take_step(sub, i - 1);
        assert(accounts.take(i + 1).drop_first() =~= sub.take(i));
        assert(accounts.take(i).drop_first() =~= sub.take(i - 1));
        assert(concat_accounts(accounts.take(i + 1)) == accounts[0].encoded + concat_accounts(
            sub.take(i),
        ));
        assert(concat_accounts(accounts.take(i)) == accounts[0].encoded + concat_accounts(
            sub.take(i - 1),
        ));
        assert(accounts[0].encoded + (concat_accounts(sub.take(i - 1)) + sub[i - 1].encoded) =~= (
        accounts[0].encoded + concat_accounts(sub.take(i - 1))) + sub[i - 1].encoded);
        assert(sub[i - 1] == accounts[i]);
    }
}

/// The canonical genesis serialization: the number of accounts, each
/// account's canonical encoding in order, the version, the timestamp.
pub open spec fn serialize_spec(g: GenesisStateView) -> Seq<u8> {
    u64_le_bytes(g.accounts.len() as u64) + concat_accounts(g.accounts) + u64_le_bytes(g.version)
        + u64_le_bytes(g.timestamp)
}

impl GenesisState {
    /// Appends the canonical serialization of this genesis state.
    pub fn write_into(&self, target: &mut Vec<u8>)
        ensures
            final(target)@ == old(target)@ + serialize_spec(self@),
    {
        let ghost base = target@;
        write_u64_le(target, self.accounts.len() as u64);
        let ghost accs = self@.accounts;
        let mut i: usize = 0;
        while i < self.accounts.len()
            invariant
                i <= self.accounts@.len(),
                accs == self@.accounts,
                target@ == base + u64_le_bytes(accs.len() as u64) + concat_accounts(
                    accs.take(i as int),
                ),
            decreases self.accounts@.len() - i,
        {
            let ghost before = target@;
            append_bytes(target, &self.accounts[i].encoded);
            proof {
                lemma_concat_take_step(accs, i as int);
                assert(target@ =~= base + u64_le_bytes(accs.len() as u64) + concat_accounts(
                    accs.take(i + 1),
                ));
            }
            i += 1;
        }
        proof {
            assert(accs.take(accs.len() as int) =~= accs);
        }
        write_u64_le(target, self.version);
        write_u64_le(target, self.timestamp);
        proof {
            assert(target@ =~= base + serialize_spec(self@));
        }
    }
}

/// Appends a copy of `src`.
fn append_bytes(out: &mut Vec<u8>, src: &Vec<u8>)
    ensures
        final(out)@ == old(out)@ + src@,
{
    let mut i: usize = 0;
    while i < src.len()
        invariant
            i <= src@.len(),
            out@ == old(out)@ + src@.take(i as int),
        decreases src@.len() - i,
    {
        out.push(src[i]);
        proof {
            assert(old(out)@ + src@.take(i + 1) =~= (old(out)@ + src@.take(i as int)).push(
                src@[i as int],
            ));
        }
        i += 1;
    }
    proof {
        assert(src@.take(src@.len() as int) =~= src@);
    }
}

/// Parsing `count` accounts from position `pos`: each must be the canonical
/// encoding found verbatim in the stream, carrying a readable id and hash;
/// yields the accounts and the position after them.
pub open spec fn parse_accounts(s: Seq<u8>, pos: int, count: int) -> Option<
    (Seq<GenesisAccountView>, int),
>
    decreases count,
{
    if count <= 0 {
        Some((Seq::<GenesisAccountView>::empty(), pos))
    } else {
        match account_head_enc(s.skip(pos)) {
            None => None,
            Some(enc) => if enc.len() > 0 && pos + enc.len() <= s.len() && s.subrange(
                pos,
                pos + enc.len(),
            ) == enc {
                match (account_id_of(enc), account_hash_of(enc)) {
                    (Some(id), Some(hash)) => match parse_accounts(s, pos + enc.len(), count - 1) {
                        None => None,
                        Some(p) => Some(
                            (
                                seq![GenesisAccountView { id, hash, encoded: enc }] + p.0,
                                p.1,
                            ),
                        ),
                    },
                    _ => None,
                }
            } else {
                None
            },
        }
    }
}

/// What deserialization yields: the exact inverse of `serialize_spec`,
/// rejecting truncated input and trailing bytes.
pub open spec fn deserialize_spec(s: Seq<u8>) -> Option<GenesisStateView> {
    if s.len() < 24 {
        None
    } else {
        let count = le_u64(s.subrange(0, 8));
        match parse_accounts(s, 8, count as int) {
            None => None,
            Some(p) => if p.1 + 16 == s.len() {
                Some(
                    GenesisStateView {
                        accounts: p.0,
                        version: le_u64(s.subrange(p.1, p.1 + 8)),
                        timestamp: le_u64(s.subrange(p.1 + 8, p.1 + 16)),
                    },
                )
            } else {
                None
            },
        }
    }
}

/// A successful parse of `count` accounts consumes at least one byte per
/// account and never reads past the end of the stream.
pub proof fn lemma_parse_accounts_bounds(s: Seq<u8>, pos: int, count: int)
    requires
        parse_accounts(s, pos, count) is Some,
        count >= 0,
    ensures
        ({
            let p = parse_accounts(s, pos, count)->0;
            &&& p.0.len() == count
            &&& p.1 >= pos + count
            &&& count > 0 ==> p.1 <= s.len()
            &&& count == 0 ==> p.1 == pos
        }),
    decreases count,
{
    if count > 0 {
        match account_head_enc(s.skip(pos)) {
            None => {},
            Some(enc) => {
                lemma_parse_accounts_bounds(s, pos + enc.len(), count - 1);
                if count - 1 == 0 {
                    let q = parse_accounts(s, pos + enc.len(), 0)->0;
                    assert(q.1 == pos + enc.len() <= s.len());
                }
            },
        }
    }
}

/// True when `enc` occurs verbatim in `b` at position `pos`.
fn bytes_match_at(b: &Vec<u8>, pos: usize, enc: &Vec<u8>) -> (r: bool)
    requires
        pos + enc@.len() <= b@.len(),
    ensures
        r == (b@.subrange(pos as int, pos + enc@.len()) == enc@),
{
    let bn = b.len();
    let ghost sub = b@.subrange(pos as int, pos + enc@.len());
    let mut k: usize = 0;
    while k < enc.len()
        invariant
            k <= enc@.len(),
            pos + enc@.len() <= b@.len(),
            b@.len() <= usize::MAX,
            sub == b@.subrange(pos as int, pos + enc@.len()),
            forall|j: int| 0 <= j < k ==> b@[pos + j] == enc@[j],
        decreases enc@.len() - k,
    {
        if b[pos + k] != enc[k] {
            proof {
                assert(sub[k as int] != enc@[k as int]);
            }
            return false;
        }
        k += 1;
    }
    proof {
        assert(sub =~= enc@);
    }
    true
}

impl GenesisState {
    /// Reads a genesis state back from its canonical serialization: the
    /// exact inverse of `write_into`, rejecting malformed, truncated and
    /// trailing input.
    #[verifier::rlimit(60)]
    pub fn read_from(source: &Vec<u8>) -> (r: Result<GenesisState, GenesisError>)
        ensures
            r matches Ok(g) ==> deserialize_spec(source@) == Some(g@) && g.wf(),
            r matches Err(e) ==> deserialize_spec(source@) is None && e
                == GenesisError::DeserializationFailed,
    {
        let ghost sv = source@;
        let n = source.len();
        if n < 24 {
            return Err(GenesisError::DeserializationFailed);
        }
        let count64 = read_u64_le(source, 0);
        let ghost cnt = count64 as int;
        if count64 > (n - 8) as u64 {
            proof {
                if parse_accounts(sv, 8, cnt) is Some {
                    lemma_parse_accounts_bounds(sv, 8, cnt);
                }
            }
            return Err(GenesisError::DeserializationFailed);
        }
        let count = count64 as usize;
        let mut accounts: Vec<GenesisAccount> = Vec::new();
        let mut pos: usize = 8;
        let mut i: usize = 0;
        while i < count
            invariant
                i <= count,
                count == cnt,
                count64 == count,
                cnt == le_u64(sv.subrange(0, 8)) as int,
                8 <= pos <= sv.len(),
                sv == source@,
                sv.len() >= 24,
                accounts.deep_view().len() == i,
                forall|k: int|
                    0 <= k < i ==> genesis_account_wf(#[trigger] accounts.deep_view()[k]),
                parse_accounts(sv, 8, cnt) == (match parse_accounts(sv, pos as int, cnt - i) {
                    None => None::<(Seq<GenesisAccountView>, int)>,
                    Some(p) => Some((accounts.deep_view() + p.0, p.1)),
                }),
            decreases count - i,
        {
            let ghost pos0 = pos as int;
            match read_account_at(source, pos) {
                None => {
                    return Err(GenesisError::DeserializationFailed);
                },
                Some(enc) => {
                    let el = enc.len();
                    let rem = source.len() - pos;
                    if el > rem {
                        return Err(GenesisError::DeserializationFailed);
                    }
                    if !bytes_match_at(source, pos, &enc) {
                        return Err(GenesisError::DeserializationFailed);
                    }
                    let id = match read_account_id(&enc) {
                        Some(id) => id,
                        None => {
                            return Err(GenesisError::DeserializationFailed);
                        },
                    };
                    let hash = match compute_account_hash(&enc) {
                        Some(h) => h,
                        None => {
                            return Err(GenesisError::DeserializationFailed);
                        },
                    };
                    let ghost encv = enc@;
                    let ghost prev = accounts.deep_view();
                    accounts.push(GenesisAccount { id, hash, encoded: enc });
                    proof {
                        let av = GenesisAccountView { id, hash, encoded: encv };
                        assert(accounts.deep_view() =~= prev.push(av));
                        match parse_accounts(sv, pos0 + encv.len(), cnt - i - 1) {
                            None => {},
                            Some(p) => {
                                assert(parse_accounts(sv, pos0, cnt - i) == Some(
                                    (seq![av] + p.0, p.1),
                                ));
                                assert(prev + (seq![av] + p.0) =~= prev.push(av) + p.0);
                            },
                        }
                    }
                    pos += el;
                    i += 1;
                },
            }
        }
        proof {
            assert(parse_accounts(sv, pos as int, 0) == Some(
                (Seq::<GenesisAccountView>::empty(), pos as int),
            ));
            assert(accounts.deep_view() + Seq::<GenesisAccountView>::empty()
                =~= accounts.deep_view());
            assert(parse_accounts(sv, 8, cnt) == Some((accounts.deep_view(), pos as int)));
        }
        let rem = source.len() - pos;
        if rem != 16 {
            return Err(GenesisError::DeserializationFailed);
        }
        let version = read_u64_le(source, pos);
        let timestamp = read_u64_le(source, pos + 8);
        Ok(GenesisState { accounts, version, timestamp })
    }
}

/// What follows account `i` in the serialized stream: the remaining account
/// encodings, then the version and timestamp.
pub open spec fn stream_suffix(g: GenesisStateView, i: int) -> Seq<u8> {
    concat_accounts(g.accounts.skip(i)) + u64_le_bytes(g.version) + u64_le_bytes(g.timestamp)
}

/// The account codec is self-delimiting over this state's stream: at each
/// account's position, reading one account back yields exactly that
/// account's encoding, whatever follows it.  This holds of the canonical
/// account codec, which reads an account without looking past its end.
pub open spec fn accounts_self_delimiting(g: GenesisStateView) -> bool {
    forall|i: int|
        0 <= i < g.accounts.len() ==> account_head_enc(stream_suffix(g, i)) == Some(
            (#[trigger] g.accounts[i]).encoded,
        )
}

/// Every account of the state decodes to its stored id and hash and has a
/// nonempty encoding.
pub open spec fn genesis_accounts_wf(g: GenesisStateView) -> bool {
    forall|i: int|
        0 <= i < g.accounts.len() ==> genesis_account_wf(#[trigger] g.accounts[i])
            && g.accounts[i].encoded.len() > 0
}

/// The length of the first `i` account encodings.
pub open spec fn concat_len(g: GenesisStateView, i: int) -> int {
    concat_accounts(g.accounts.take(i)).len() as int
}

/// The serialized stream after the count and the first `i` accounts is the
/// suffix stream of account `i`.
proof fn lemma_stream_suffix_at(g: GenesisStateView, i: int)
    requires
        0 <= i <= g.accounts.len(),
    ensures
        serialize_spec(g).skip(8 + concat_len(g, i)) =~= stream_suffix(g, i),
        8 + concat_len(g, i) <= serialize_spec(g).len() - 16,
    decreases i,
{
    if i == 0 {
        assert(g.accounts.take(0) =~= Seq::<GenesisAccountView>::empty());
        assert(concat_accounts(Seq::<GenesisAccountView>::empty()) =~= Seq::<u8>::empty());
        assert(g.accounts.skip(0) =~= g.accounts);
        assert(serialize_spec(g).skip(8) =~= stream_suffix(g, 0));
    } else {
        lemma_stream_suffix_at(g, i - 1);
        lemma_concat_take_step(g.accounts, i - 1);
        assert(g.accounts.skip(i - 1) =~= seq![g.accounts[i - 1]] + g.accounts.skip(i));
        assert(concat_accounts(seq![g.accounts[i - 1]] + g.accounts.skip(i)) == g.accounts[i
            - 1].encoded + concat_accounts(
            (seq![g.accounts[i - 1]] + g.accounts.skip(i)).drop_first(),
        ));
        assert((seq![g.accounts[i - 1]] + g.accounts.skip(i)).drop_first() =~= g.accounts.skip(i));
        assert(stream_suffix(g, i - 1) =~= g.accounts[i - 1].encoded + stream_suffix(g, i));
        assert(serialize_spec(g).skip(8 + concat_len(g, i)) =~= serialize_spec(g).skip(
            8 + concat_len(g, i - 1),
        ).skip(g.accounts[i - 1].encoded.len() as int));
        assert(stream_suffix(g, i - 1).skip(g.accounts[i - 1].encoded.len() as int)
            =~= stream_suffix(g, i));
    }
}

/// Parsing the serialized stream from account `i` onward recovers exactly
/// the remaining accounts.
proof fn lemma_parse_serialized_from(g: GenesisStateView, i: int)
    requires
        genesis_accounts_wf(g),
        accounts_self_delimiting(g),
        0 <= i <= g.accounts.len(),
    ensures
        parse_accounts(serialize_spec(g), 8 + concat_len(g, i), g.accounts.len() - i) == Some(
            (g.accounts.skip(i), 8 + concat_len(g, g.accounts.len() as int)),
        ),
    decreases g.accounts.len() - i,
{
    let s = serialize_spec(g);
    let n = g.accounts.len() as int;
    let pos = 8 + concat_len(g, i);
    lemma_stream_suffix_at(g, i);
    if i == n {
        assert(parse_accounts(s, pos, 0) == Some((Seq::<GenesisAccountView>::empty(), pos)));
        assert(g.accounts.skip(n) =~= Seq::<GenesisAccountView>::empty());
    } else {
        let a = g.accounts[i];
        let enc = a.encoded;
        assert(s.skip(pos) =~= stream_suffix(g, i));
        assert(account_head_enc(s.skip(pos)) == Some(enc));
        assert(g.accounts.skip(i).len() > 0);
        assert(g.accounts.skip(i)[0] == g.accounts[i]);
        assert(g.accounts.skip(i).drop_first() =~= g.accounts.skip(i + 1));
        assert(concat_accounts(g.accounts.skip(i)) == enc + concat_accounts(
            g.accounts.skip(i + 1),
        ));
        assert(stream_suffix(g, i) =~= enc + (concat_accounts(g.accounts.skip(i + 1))
            + u64_le_bytes(g.version) + u64_le_bytes(g.timestamp)));
        lemma_stream_suffix_at(g, i + 1);
        lemma_concat_take_step(g.accounts, i);
        assert(pos + enc.len() == 8 + concat_len(g, i + 1));
        assert(pos + enc.len() <= s.len());
        assert(s.subrange(pos, pos + enc.len()) =~= s.skip(pos).take(enc.len() as int));
        assert(s.skip(pos).take(enc.len() as int) =~= enc);
        assert(genesis_account_wf(a));
        lemma_parse_serialized_from(g, i + 1);
        assert(parse_accounts(s, pos + enc.len(), n - i - 1) == Some(
            (g.accounts.skip(i + 1), 8 + concat_len(g, n)),
        ));
        let av = GenesisAccountView { id: a.id, hash: a.hash, encoded: enc };
        assert(av == a);
        assert(parse_accounts(s, pos, n - i) == Some(
            (seq![a] + g.accounts.skip(i + 1), 8 + concat_len(g, n)),
        ));
        assert(seq![a] + g.accounts.skip(i + 1) =~= g.accounts.skip(i));
    }
}

/// Genesis serialization round-trips: reading the canonical serialization
/// back yields the same genesis state, for any number of accounts.
///
/// The premises are the state's own validity — each account's id and hash
/// agree with its nonempty encoding — and the codec's self-delimitation over
/// the stream, which holds of the canonical account codec: it reads one
/// account without looking past its end.
pub proof fn lemma_genesis_round_trip(g: GenesisStateView)
    requires
        genesis_accounts_wf(g),
        accounts_self_delimiting(g),
        g.accounts.len() <= u64::MAX,
    ensures
        deserialize_spec(serialize_spec(g)) == Some(g),
{
    let s = serialize_spec(g);
    let n = g.accounts.len() as int;
    assert(s.len() >= 24);
    let cb = u64_le_bytes(g.accounts.len() as u64);
    assert(s.subrange(0, 8) =~= cb);
    lemma_le_u64_round_trip(g.accounts.len() as u64);
    assert(le_u64(s.subrange(0, 8)) == g.accounts.len() as u64);
    assert(g.accounts.take(0) =~= Seq::<GenesisAccountView>::empty());
    assert(concat_accounts(Seq::<GenesisAccountView>::empty()) =~= Seq::<u8>::empty());
    assert(concat_len(g, 0) == 0);
    lemma_parse_serialized_from(g, 0);
    assert(g.accounts.skip(0) =~= g.accounts);
    let end = 8 + concat_len(g, n);
    assert(parse_accounts(s, 8, n) == Some((g.accounts, end)));
    lemma_stream_suffix_at(g, n);
    assert(g.accounts.skip(n) =~= Seq::<GenesisAccountView>::empty());
    assert(s.skip(end) =~= u64_le_bytes(g.version) + u64_le_bytes(g.timestamp));
    assert(s.len() == end + 16);
    assert(s.subrange(end, end + 8) =~= u64_le_bytes(g.version));
    assert(s.subrange(end + 8, end + 16) =~= u64_le_bytes(g.timestamp));
    lemma_le_u64_round_trip(g.version);
    lemma_le_u64_round_trip(g.timestamp);
    assert(deserialize_spec(s) == Some(
        GenesisStateView { accounts: g.accounts, version: g.version, timestamp: g.timestamp },
    ));
    assert(GenesisStateView { accounts: g.accounts, version: g.version, timestamp: g.timestamp }
        == g);
}

} // verus!
