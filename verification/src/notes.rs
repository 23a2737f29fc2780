//! The note ledger: an append-only log of notes created per block, and the
//! tag/sender-filtered "next interesting block" query that drives state sync.

use vstd::prelude::*;

use crate::db::{
    clone_bytes, clone_opt_bytes, lemma_filter_take_push, lemma_filter_take_skip, lemma_take_all,
    notes_sorted, Db,
};
use crate::types::{Digest, Note, NoteCreated, NoteView};

verus! {

/// An owned copy of a note row.
fn clone_note(n: &Note) -> (r: Note)
    ensures
        r@ == n@,
{
    Note {
        block_num: n.block_num,
        note_created: NoteCreated {
            batch_index: n.note_created.batch_index,
            note_index: n.note_created.note_index,
            note_id: n.note_created.note_id,
            note_type: n.note_created.note_type,
            sender: n.note_created.sender,
            tag: n.note_created.tag,
            details: clone_opt_bytes(&n.note_created.details),
        },
        merkle_path: clone_bytes(&n.merkle_path),
    }
}

/// Appends the notes a block created and returns the number of rows added.
/// Notes arrive in block order: each batch entry's height is committed, not
/// below any stored note's height, and the batch itself is ordered.
pub fn insert_notes(db: &mut Db, notes: &Vec<Note>) -> (r: usize)
    requires
        old(db).wf(),
        forall|i: int|
            0 <= i < notes@.len() ==> 1 <= (#[trigger] notes.deep_view()[i]).block_num <= old(
                db,
            ).block_headers@.len(),
        forall|i: int, j: int|
            0 <= i < j < notes@.len() ==> (#[trigger] notes.deep_view()[i]).block_num <= (
            #[trigger] notes.deep_view()[j]).block_num,
        forall|i: int, j: int|
            0 <= i < old(db).notes_view().len() && 0 <= j < notes@.len() ==> (#[trigger] old(
                db,
            ).notes_view()[i]).block_num <= (#[trigger] notes.deep_view()[j]).block_num,
    ensures
        final(db).wf(),
        final(db).accounts@ == old(db).accounts@,
        final(db).nullifiers@ == old(db).nullifiers@,
        final(db).block_headers@ == old(db).block_headers@,
        final(db).notes_view() == old(db).notes_view() + notes.deep_view(),
        r == notes@.len(),
{
    let ghost orig = db.notes.deep_view();
    let ghost batch = notes.deep_view();
    let mut i: usize = 0;
    while i < notes.len()
        invariant
            i <= notes@.len(),
            batch == notes.deep_view(),
            notes@.len() == batch.len(),
            db.accounts@ == old(db).accounts@,
            db.nullifiers@ == old(db).nullifiers@,
            db.block_headers@ == old(db).block_headers@,
            db.notes_view() == orig + batch.take(i as int),
            orig == old(db).notes_view(),
            old(db).wf(),
            forall|k: int|
                0 <= k < batch.len() ==> 1 <= (#[trigger] batch[k]).block_num <= old(
                    db,
                ).block_headers@.len(),
            forall|k: int, j: int|
                0 <= k < j < batch.len() ==> (#[trigger] batch[k]).block_num <= (
                #[trigger] batch[j]).block_num,
            forall|k: int, j: int|
                0 <= k < orig.len() && 0 <= j < batch.len() ==> (#[trigger] orig[k]).block_num <= (
                #[trigger] batch[j]).block_num,
        decreases notes@.len() - i,
    {
        let ghost prev = db.notes.deep_view();
        let row = clone_note(&notes[i]);
        db.notes.push(row);
        proof {
            assert(db.notes.deep_view() =~= prev.push(batch[i as int]));
            assert(orig + batch.take(i + 1) =~= (orig + batch.take(i as int)).push(
                batch[i as int],
            ));
        }
        i += 1;
    }
    proof {
        assert(batch.take(batch.len() as int) =~= batch);
        assert(db.notes_view() == orig + batch);
        let t = db.notes_view();
        assert forall|a: int, b: int| 0 <= a < b < t.len() implies (#[trigger] t[a]).block_num <= (
        #[trigger] t[b]).block_num by {
            if a < orig.len() && b >= orig.len() {
                assert(t[a] == orig[a] && t[b] == batch[b - orig.len()]);
            }
        }
        assert forall|a: int| 0 <= a < t.len() implies 1 <= (#[trigger] t[a]).block_num
            <= db.block_headers@.len() by {
            if a >= orig.len() {
                assert(t[a] == batch[a - orig.len()]);
            }
        }
    }
    notes.len()
}

/// All stored notes, in ascending height order.
pub fn select_notes(db: &Db) -> (r: Vec<Note>)
    ensures
        r.deep_view() == db.notes_view(),
{
    let mut out: Vec<Note> = Vec::new();
    let mut i: usize = 0;
    while i < db.notes.len()
        invariant
            i <= db.notes@.len(),
            out.deep_view() == db.notes_view().take(i as int),
        decreases db.notes@.len() - i,
    {
        let ghost prev = out.deep_view();
        out.push(clone_note(&db.notes[i]));
        proof {
            assert(out.deep_view() =~= prev.push(db.notes_view()[i as int]));
            assert(db.notes_view().take(i + 1) =~= db.notes_view().take(i as int).push(
                db.notes_view()[i as int],
            ));
        }
        i += 1;
    }
    proof {
        lemma_take_all(db.notes_view());
    }
    out
}

/// The id filter as a function value, for use with `Seq::filter`.
pub open spec fn note_id_pred(ids: Seq<Digest>) -> spec_fn(NoteView) -> bool {
    |n: NoteView| ids.contains(n.note_id)
}

/// True when `v` holds `x`.
fn contains_digest(v: &Vec<Digest>, x: &Digest) -> (r: bool)
    ensures
        r == v@.contains(*x),
{
    let mut i: usize = 0;
    while i < v.len()
        invariant
            i <= v@.len(),
            forall|j: int| 0 <= j < i ==> v@[j] != *x,
        decreases v@.len() - i,
    {
        if v[i] == *x {
            return true;
        }
        i += 1;
    }
    false
}

/// The stored notes whose id is one of `note_ids`, in storage order.
pub fn select_notes_by_id(db: &Db, note_ids: &Vec<Digest>) -> (r: Vec<Note>)
    ensures
        r.deep_view() == db.notes_view().filter(note_id_pred(note_ids@)),
{
    let ghost pred = note_id_pred(note_ids@);
    let mut out: Vec<Note> = Vec::new();
    let mut i: usize = 0;
    while i < db.notes.len()
        invariant
            i <= db.notes@.len(),
            out.deep_view() == db.notes_view().take(i as int).filter(note_id_pred(note_ids@)),
        decreases db.notes@.len() - i,
    {
        let ghost pred = note_id_pred(note_ids@);
        let row = &db.notes[i];
        if contains_digest(note_ids, &row.note_created.note_id) {
            let ghost prev = out.deep_view();
            out.push(clone_note(row));
            proof {
                lemma_filter_take_push(db.notes_view(), pred, i as int);
                assert(out.deep_view() =~= prev.push(db.notes_view()[i as int]));
            }
        } else {
            proof {
                lemma_filter_take_skip(db.notes_view(), pred, i as int);
            }
        }
        i += 1;
    }
    proof {
        lemma_take_all(db.notes_view());
    }
    out
}

/// A note of interest to the client: its tag is one of the requested tags,
/// or its sender one of the requested accounts.
pub open spec fn note_matches(n: NoteView, tags: Seq<u32>, ids: Seq<u64>) -> bool {
    tags.contains(n.tag) || ids.contains(n.sender)
}

/// Notes of interest created strictly after `after`.
pub open spec fn since_pred(tags: Seq<u32>, ids: Seq<u64>, after: u32) -> spec_fn(NoteView) -> bool {
    |n: NoteView| note_matches(n, tags, ids) && n.block_num > after
}

/// Notes of interest created exactly at height `b`.
pub open spec fn block_match_pred(tags: Seq<u32>, ids: Seq<u64>, b: u32) -> spec_fn(
    NoteView,
) -> bool {
    |n: NoteView| note_matches(n, tags, ids) && n.block_num == b
}

/// What the sync query returns: all matching notes of the single earliest
/// block after `after` that contains any, or nothing when no block does.
pub open spec fn notes_since_spec(
    s: Seq<NoteView>,
    tags: Seq<u32>,
    ids: Seq<u64>,
    after: u32,
) -> Seq<NoteView> {
    let m = s.filter(since_pred(tags, ids, after));
    if m.len() == 0 {
        Seq::<NoteView>::empty()
    } else {
        s.filter(block_match_pred(tags, ids, m[0].block_num))
    }
}

/// Notes matching the tag or sender filter from a single block: the earliest
/// block after `block_num` that holds any matching note.  Empty when no later
/// block matches; to reach the chain tip, callers repeat the call advancing
/// `block_num`.
#[verifier::rlimit(60)]
pub fn select_notes_since_block_by_tag_and_sender(
    db: &Db,
    tags: &Vec<u32>,
    account_ids: &Vec<u64>,
    block_num: u32,
) -> (r: Vec<Note>)
    requires
        db.wf(),
    ensures
        r.deep_view() == notes_since_spec(db.notes_view(), tags@, account_ids@, block_num),
        forall|i: int, j: int|
            0 <= i < r@.len() && 0 <= j < r@.len() ==> (#[trigger] r.deep_view()[i]).block_num == (
            #[trigger] r.deep_view()[j]).block_num,
{
    let ghost s = db.notes_view();
    let ghost pred = since_pred(tags@, account_ids@, block_num);
    let mut target: Option<u32> = None;
    let mut i: usize = 0;
    while i < db.notes.len()
        invariant
            i <= db.notes@.len(),
            s == db.notes_view(),
            db.wf(),
            target matches Some(b) ==> i < db.notes@.len() && since_pred(
                tags@,
                account_ids@,
                block_num,
            )(s[i as int]) && b == s[i as int].block_num && s.take(i as int).filter(
                since_pred(tags@, account_ids@, block_num),
            ) =~= Seq::<NoteView>::empty(),
            target is None ==> s.take(i as int).filter(since_pred(tags@, account_ids@, block_num))
                =~= Seq::<NoteView>::empty(),
        ensures
            target matches Some(b) ==> i < db.notes@.len() && since_pred(
                tags@,
                account_ids@,
                block_num,
            )(s[i as int]) && b == s[i as int].block_num && s.take(i as int).filter(
                since_pred(tags@, account_ids@, block_num),
            ) =~= Seq::<NoteView>::empty(),
            target is None ==> s.take(s.len() as int).filter(
                since_pred(tags@, account_ids@, block_num),
            ) =~= Seq::<NoteView>::empty(),
        decreases db.notes@.len() - i,
    {
        let ghost pred = since_pred(tags@, account_ids@, block_num);
        let row = &db.notes[i];
        let matched = (contains_u32_list(tags, row.note_created.tag) || contains_u64_list(
            account_ids,
            row.note_created.sender,
        )) && row.block_num > block_num;
        if matched {
            target = Some(row.block_num);
            break;
        } else {
            proof {
                lemma_filter_take_skip(s, pred, i as int);
            }
            i += 1;
        }
    }
    match target {
        None => {
            proof {
                lemma_take_all(s);
                assert(s.filter(since_pred(tags@, account_ids@, block_num)) =~= Seq::<
                    NoteView,
                >::empty());
            }
            Vec::new()
        },
        Some(b) => {
            proof {
                let m = s.filter(pred);
                assert(s =~= s.take(i as int) + s.skip(i as int));
                Seq::filter_distributes_over_add(s.take(i as int), s.skip(i as int), pred);
                assert(s.skip(i as int)[0] == s[i as int]);
                assert(s.skip(i as int).take(1) =~= seq![s[i as int]]);
                assert(s.skip(i as int) =~= s.skip(i as int).take(1) + s.skip(i as int).skip(1));
                Seq::filter_distributes_over_add(
                    s.skip(i as int).take(1),
                    s.skip(i as int).skip(1),
                    pred,
                );
                reveal(Seq::filter);
                assert(seq![s[i as int]].drop_last() =~= Seq::<NoteView>::empty());
                assert(seq![s[i as int]].filter(pred) =~= seq![s[i as int]]);
                assert(m[0] == s[i as int]);
                assert(m.len() > 0);
            }
            collect_block_matches(db, tags, account_ids, b)
        },
    }
}

/// True when `v` holds `x`.
fn contains_u32_list(v: &Vec<u32>, x: u32) -> (r: bool)
    ensures
        r == v@.contains(x),
{
    let mut i: usize = 0;
    while i < v.len()
        invariant
            i <= v@.len(),
            forall|j: int| 0 <= j < i ==> v@[j] != x,
        decreases v@.len() - i,
    {
        if v[i] == x {
            return true;
        }
        i += 1;
    }
    false
}

/// True when `v` holds `x`.
fn contains_u64_list(v: &Vec<u64>, x: u64) -> (r: bool)
    ensures
        r == v@.contains(x),
{
    let mut i: usize = 0;
    while i < v.len()
        invariant
            i <= v@.len(),
            forall|j: int| 0 <= j < i ==> v@[j] != x,
        decreases v@.len() - i,
    {
        if v[i] == x {
            return true;
        }
        i += 1;
    }
    false
}

/// All matching notes created exactly at height `b`, in storage order.
fn collect_block_matches(db: &Db, tags: &Vec<u32>, account_ids: &Vec<u64>, b: u32) -> (r: Vec<Note>)
    ensures
        r.deep_view() == db.notes_view().filter(block_match_pred(tags@, account_ids@, b)),
        forall|i: int|
            0 <= i < r@.len() ==> (#[trigger] r.deep_view()[i]).block_num == b,
{
    let ghost s = db.notes_view();
    let mut out: Vec<Note> = Vec::new();
    let mut i: usize = 0;
    while i < db.notes.len()
        invariant
            i <= db.notes@.len(),
            s == db.notes_view(),
            out.deep_view() == s.take(i as int).filter(block_match_pred(tags@, account_ids@, b)),
            forall|k: int| 0 <= k < out@.len() ==> (#[trigger] out.deep_view()[k]).block_num == b,
        decreases db.notes@.len() - i,
    {
        let ghost pred = block_match_pred(tags@, account_ids@, b);
        let row = &db.notes[i];
        let matched = (contains_u32_list(tags, row.note_created.tag) || contains_u64_list(
            account_ids,
            row.note_created.sender,
        )) && row.block_num == b;
        if matched {
            let ghost prev = out.deep_view();
            out.push(clone_note(row));
            proof {
                lemma_filter_take_push(s, pred, i as int);
                assert(out.deep_view() =~= prev.push(s[i as int]));
            }
        } else {
            proof {
                lemma_filter_take_skip(s, pred, i as int);
            }
        }
        i += 1;
    }
    proof {
        lemma_take_all(s);
    }
    out
}

/// Filtering a height-ordered log keeps it height-ordered.
proof fn lemma_filter_keeps_sorted(s: Seq<NoteView>, pred: spec_fn(NoteView) -> bool)
    requires
        notes_sorted(s),
    ensures
        notes_sorted(s.filter(pred)),
    decreases s.len(),
{
    reveal(Seq::filter);
    if s.len() > 0 {
        let sub = s.drop_last();
        assert(notes_sorted(sub));
        lemma_filter_keeps_sorted(sub, pred);
        if pred(s.last()) {
            let f = sub.filter(pred);
            assert forall|i: int| 0 <= i < f.len() implies (#[trigger] f[i]).block_num
                <= s.last().block_num by {
                crate::db::lemma_filter_elem_in(sub, pred, i);
                let w = choose|w: int| 0 <= w < sub.len() && sub[w] == f[i];
                assert(sub[w] == s[w]);
            }
            assert(s.filter(pred) == f.push(s.last()));
            assert forall|a: int, b: int| 0 <= a < b < s.filter(pred).len() implies (
            #[trigger] s.filter(pred)[a]).block_num <= (#[trigger] s.filter(pred)[b]).block_num by {
                if b < f.len() {
                    assert(s.filter(pred)[a] == f[a] && s.filter(pred)[b] == f[b]);
                } else {
                    assert(s.filter(pred)[b] == s.last() && s.filter(pred)[a] == f[a]);
                }
            }
        }
    }
}

/// The sync query's block is the earliest one: no note of interest created
/// after the watermark lives in an earlier block than the one returned.
pub proof fn lemma_sync_block_is_earliest(
    s: Seq<NoteView>,
    tags: Seq<u32>,
    ids: Seq<u64>,
    after: u32,
    k: int,
)
    requires
        notes_sorted(s),
        0 <= k < s.len(),
        note_matches(s[k], tags, ids),
        s[k].block_num > after,
    ensures
        notes_since_spec(s, tags, ids, after).len() > 0,
        notes_since_spec(s, tags, ids, after)[0].block_num <= s[k].block_num,
{
    let pred = since_pred(tags, ids, after);
    let m = s.filter(pred);
    assert(pred(s[k]));
    s.lemma_filter_contains(pred, k);
    assert(m.len() > 0);
    lemma_filter_keeps_sorted(s, pred);
    let j = choose|j: int| 0 <= j < m.len() && m[j] == s[k];
    assert(m[0].block_num <= m[j].block_num);
    let b = m[0].block_num;
    let bmp = block_match_pred(tags, ids, b);
    s.lemma_filter_pred(pred, 0);
    crate::db::lemma_filter_elem_in(s, pred, 0);
    let w = choose|w: int| 0 <= w < s.len() && s[w] == m[0];
    assert(bmp(s[w]));
    s.lemma_filter_contains(bmp, w);
    let ns = notes_since_spec(s, tags, ids, after);
    assert(ns.len() > 0);
    assert(ns[0].block_num == b) by {
        s.lemma_filter_pred(bmp, 0);
    }
}

/// The sync query is complete for its block: every note of interest created
/// at the returned height is part of the answer.
pub proof fn lemma_sync_block_complete(
    s: Seq<NoteView>,
    tags: Seq<u32>,
    ids: Seq<u64>,
    after: u32,
    k: int,
)
    requires
        0 <= k < s.len(),
        note_matches(s[k], tags, ids),
        notes_since_spec(s, tags, ids, after).len() > 0,
        s[k].block_num == notes_since_spec(s, tags, ids, after)[0].block_num,
    ensures
        notes_since_spec(s, tags, ids, after).contains(s[k]),
{
    let pred = since_pred(tags, ids, after);
    let m = s.filter(pred);
    assert(m.len() > 0) by {
        if m.len() == 0 {
            assert(notes_since_spec(s, tags, ids, after) =~= Seq::<NoteView>::empty());
        }
    }
    let bmp = block_match_pred(tags, ids, m[0].block_num);
    assert(notes_since_spec(s, tags, ids, after)[0].block_num == m[0].block_num) by {
        s.lemma_filter_pred(bmp, 0);
    }
    assert(bmp(s[k]));
    s.lemma_filter_contains(bmp, k);
}

/// The single-block sync invariant: one call never returns notes from two
/// different blocks.
pub proof fn lemma_single_block_sync(s: Seq<NoteView>, tags: Seq<u32>, ids: Seq<u64>, after: u32)
    ensures
        forall|i: int, j: int|
            0 <= i < notes_since_spec(s, tags, ids, after).len() && 0 <= j < notes_since_spec(
                s,
                tags,
                ids,
                after,
            ).len() ==> (#[trigger] notes_since_spec(s, tags, ids, after)[i]).block_num == (
            #[trigger] notes_since_spec(s, tags, ids, after)[j]).block_num,
{
    let m = s.filter(since_pred(tags, ids, after));
    if m.len() > 0 {
        let pred = block_match_pred(tags, ids, m[0].block_num);
        assert forall|i: int, j: int|
            0 <= i < notes_since_spec(s, tags, ids, after).len() && 0 <= j < notes_since_spec(
                s,
                tags,
                ids,
                after,
            ).len() implies (#[trigger] notes_since_spec(s, tags, ids, after)[i]).block_num == (
        #[trigger] notes_since_spec(s, tags, ids, after)[j]).block_num by {
            s.lemma_filter_pred(pred, i);
            s.lemma_filter_pred(pred, j);
        }
    }
}

} // verus!
