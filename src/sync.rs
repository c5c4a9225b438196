//! The sync protocol's values and the reconciliation of a batch.
use vstd::prelude::*;
use crate::codec::{base64_decoded, decode_base64};
use crate::crdt::{extract_fields, extracted_text, resolve_state, resolved, time_from};
use crate::store::{
    apply_ops, copy_bytes, copy_strings, deletion_recorded, lemma_apply_ops_push, note_deleted,
    snapshot_notes, NoteView, Store, StoreOp, StoreView,
};
use crate::text::{normalize_tags, normalized_tags};

verus! {

/// One replicated note on the wire: its id and its document state in base64.
pub struct SyncNote {
    pub id: String,
    pub crdt_state: String,
}

/// One tombstone on the wire.
pub struct SyncDeletion {
    pub note_id: String,
    pub deleted_at: String,
}

impl View for SyncNote {
    type V = (Seq<char>, Seq<char>);

    open spec fn view(&self) -> (Seq<char>, Seq<char>) {
        (self.id@, self.crdt_state@)
    }
}

impl View for SyncDeletion {
    type V = (Seq<char>, Seq<char>);

    open spec fn view(&self) -> (Seq<char>, Seq<char>) {
        (self.note_id@, self.deleted_at@)
    }
}

/// A batch sent by the remote peer: its notes and its deletions.
pub struct SyncRequest {
    pub notes: Vec<SyncNote>,
    pub deletions: Vec<SyncDeletion>,
}

/// The full state of the store after a batch: every note that has a
/// document state, and every tombstone.
pub struct SyncResponse {
    pub notes: Vec<SyncNote>,
    pub deletions: Vec<SyncDeletion>,
}

/// The answer to a liveness query.
pub struct StatusResponse {
    pub status: String,
    pub version: String,
}

/// Why a batch was refused.
#[derive(PartialEq, Eq, Structural, Clone, Copy, Debug)]
pub enum SyncError {
    /// A note's state is no valid base64 text.
    Decode,
}

/// A reconciled batch: the response for the peer, and the writes that make
/// the new state of the store durable, in order.
pub struct Reconciled {
    pub response: SyncResponse,
    pub ops: Vec<StoreOp>,
}

/// The liveness answer for a server of version `version`.
pub fn status_response(version: &str) -> (r: StatusResponse)
    ensures
        r.status@ == seq!['r', 'e', 'a', 'd', 'y'],
        r.version@ == version@,
{
    let status = "ready".to_string();
    proof {
        reveal_strlit("ready");
    }
    StatusResponse { status, version: version.to_string() }
}

/// `m` with the tombstones `b` recorded in order; a later one for an id
/// replaces an earlier one.
pub open spec fn apply_deletions(
    m: Map<Seq<char>, Seq<char>>,
    b: Seq<(Seq<char>, Seq<char>)>,
) -> Map<Seq<char>, Seq<char>>
    decreases b.len(),
{
    if b.len() == 0 {
        m
    } else {
        apply_deletions(m, b.drop_last()).insert(b.last().0, b.last().1)
    }
}

/// The tombstones of a batch as entries.
pub open spec fn batch_deletions(req: SyncRequest) -> Seq<(Seq<char>, Seq<char>)> {
    req.deletions@.map_values(|d: SyncDeletion| d@)
}

/// One of the first `k` notes of the batch has id `id`.
pub open spec fn submitted_upto(req: SyncRequest, k: int, id: Seq<char>) -> bool {
    exists|i: int| 0 <= i < k && #[trigger] req.notes@[i].id@ == id
}

/// The batch holds a note with id `id`.
pub open spec fn submitted(req: SyncRequest, id: Seq<char>) -> bool {
    submitted_upto(req, req.notes@.len() as int, id)
}

/// One of the first `k` deletions of the batch is for `id`.
pub open spec fn deleted_upto(req: SyncRequest, k: int, id: Seq<char>) -> bool {
    exists|i: int| 0 <= i < k && #[trigger] req.deletions@[i].note_id@ == id
}

/// The batch holds a deletion of `id`.
pub open spec fn deleted_in(req: SyncRequest, id: Seq<char>) -> bool {
    deleted_upto(req, req.deletions@.len() as int, id)
}

/// Note `i` of the batch is the only one with its id.
pub open spec fn submitted_once(req: SyncRequest, i: int) -> bool {
    forall|j: int| 0 <= j < req.notes@.len() && j != i ==> req.notes@[j].id@ != req.notes@[i].id@
}

/// Every note state of the batch is valid base64.
pub open spec fn all_decode(req: SyncRequest) -> bool {
    forall|i: int| 0 <= i < req.notes@.len() ==> (#[trigger] base64_decoded(req.notes@[i].crdt_state@)) is Some
}

/// The bytes that note `i` of the batch carries.
pub open spec fn decoded_state(req: SyncRequest, i: int) -> Seq<u8> {
    base64_decoded(req.notes@[i].crdt_state@)->Some_0
}

/// Notes `a` and `b` agree on `id`: both lack it, or both hold the same note.
pub open spec fn note_unchanged(a: Map<Seq<char>, NoteView>, b: Map<Seq<char>, NoteView>, id: Seq<char>) -> bool {
    a.contains_key(id) == b.contains_key(id) && (a.contains_key(id) ==> a[id] == b[id])
}

/// The plain fields and tags of note `v` are those read from the document
/// state `st` that it holds.
pub open spec fn derived_from(v: NoteView, st: Seq<u8>) -> bool {
    &&& v.crdt_state == Some(st)
    &&& v.title == extracted_text(st, "title"@)
    &&& v.body == extracted_text(st, "body"@)
    &&& v.tags == normalized_tags(extracted_text(st, "tags"@))
    &&& time_from(st, "updated_at"@, v.updated_at)
}

/// `m` holds note `id` with a document state, and the note's fields and tags
/// are read from that state.
pub open spec fn live_with_state(m: Map<Seq<char>, NoteView>, id: Seq<char>) -> bool {
    &&& m.contains_key(id)
    &&& m[id].crdt_state is Some
    &&& derived_from(m[id], m[id].crdt_state->Some_0)
}

/// The document state that `s` holds for note `id`, if any.
pub open spec fn stored_state(s: StoreView, id: Seq<char>) -> Option<Seq<u8>> {
    if s.notes.contains_key(id) {
        s.notes[id].crdt_state
    } else {
        None
    }
}

/// Note `v` is what note `id` of `s0` became when the state `remote`
/// arrived: it holds the resolved state, and keeps the creation time of a
/// note that `s0` held, or else reads it from the resolved state.
pub open spec fn merged_into(s0: StoreView, id: Seq<char>, remote: Seq<u8>, v: NoteView) -> bool {
    &&& v.crdt_state == Some(resolved(stored_state(s0, id), remote))
    &&& if s0.notes.contains_key(id) {
        v.created_at == s0.notes[id].created_at
    } else {
        time_from(resolved(stored_state(s0, id), remote), "created_at"@, v.created_at)
    }
}

/// No id has both a tombstone and a live note.
pub open spec fn exclusive(s: StoreView) -> bool {
    forall|id: Seq<char>| #[trigger] s.deletions.contains_key(id) ==> !s.notes.contains_key(id)
}

/// `s1` is the store `s0` after the batch `req` was reconciled:
/// - the tombstones are those of `s0` with those of the batch recorded;
/// - no id that the batch names is both tombstoned and live;
/// - a note that the batch does not name is as it was;
/// - a submitted note that is not tombstoned is live, its fields and tags
///   read from its document state;
/// - a note submitted once holds the resolution of its stored state with
///   the submitted one, and keeps its creation time if it existed.
pub open spec fn reconciled(s0: StoreView, s1: StoreView, req: SyncRequest) -> bool {
    &&& s1.deletions == apply_deletions(s0.deletions, batch_deletions(req))
    &&& forall|id: Seq<char>|
        (deleted_in(req, id) || submitted(req, id)) && #[trigger] s1.deletions.contains_key(id)
            ==> !s1.notes.contains_key(id)
    &&& forall|id: Seq<char>|
        !deleted_in(req, id) && !submitted(req, id) ==> #[trigger] note_unchanged(s1.notes, s0.notes, id)
    &&& forall|id: Seq<char>|
        submitted(req, id) && !s1.deletions.contains_key(id) ==> #[trigger] live_with_state(s1.notes, id)
    &&& forall|i: int|
        0 <= i < req.notes@.len() && submitted_once(req, i) && !s1.deletions.contains_key(
            #[trigger] req.notes@[i].id@,
        ) ==> merged_into(s0, req.notes@[i].id@, decoded_state(req, i), s1.notes[req.notes@[i].id@])
}

/// Records the tombstone `del` and removes its note, logging both writes.
fn apply_deletion(store: &mut Store, del: &SyncDeletion, ops: &mut Vec<StoreOp>, Ghost(base): Ghost<StoreView>)
    requires
        old(store).wf(),
        apply_ops(base, old(ops)@) == old(store)@,
    ensures
        final(store).wf(),
        apply_ops(base, final(ops)@) == final(store)@,
        final(store)@ == note_deleted(deletion_recorded(old(store)@, del.note_id@, del.deleted_at@), del.note_id@),
{
    let op1 = StoreOp::RecordDeletion { note_id: del.note_id.clone(), deleted_at: del.deleted_at.clone() };
    store.record_deletion(del.note_id.clone(), del.deleted_at.clone());
    proof {
        lemma_apply_ops_push(base, ops@, op1);
    }
    ops.push(op1);
    let op2 = StoreOp::DeleteNote { note_id: del.note_id.clone() };
    store.delete_note(&del.note_id);
    proof {
        lemma_apply_ops_push(base, ops@, op2);
    }
    ops.push(op2);
}

/// Brings the remote state `remote` of note `id` into the store, logging the
/// writes. A tombstoned id stays absent; otherwise the note takes the
/// resolved state, the fields read from it and the tags normalised from its
/// tags field.
fn merge_note(store: &mut Store, id: &String, remote: &Vec<u8>, ops: &mut Vec<StoreOp>, Ghost(base): Ghost<StoreView>)
    requires
        old(store).wf(),
        apply_ops(base, old(ops)@) == old(store)@,
    ensures
        final(store).wf(),
        apply_ops(base, final(ops)@) == final(store)@,
        final(store)@.deletions == old(store)@.deletions,
        forall|k: Seq<char>| k != id@ ==> #[trigger] note_unchanged(final(store)@.notes, old(store)@.notes, k),
        old(store)@.deletions.contains_key(id@) ==> !final(store)@.notes.contains_key(id@),
        !old(store)@.deletions.contains_key(id@) ==> live_with_state(final(store)@.notes, id@)
            && merged_into(old(store)@, id@, remote@, final(store)@.notes[id@]),
{
    let ghost s = store@;
    if store.is_deleted(id) {
        if store.note(id).is_some() {
            let op = StoreOp::DeleteNote { note_id: id.clone() };
            store.delete_note(id);
            proof {
                lemma_apply_ops_push(base, ops@, op);
            }
            ops.push(op);
        }
        return;
    }
    let merged = match store.note(id) {
        Some(row) => match &row.crdt_state {
            Some(b) => resolve_state(Some(b), remote),
            None => resolve_state(None, remote),
        },
        None => resolve_state(None, remote),
    };
    let fields = extract_fields(&merged);
    let tags = normalize_tags(fields.tags.as_str());
    let op1 = StoreOp::UpsertNote {
        id: id.clone(),
        title: fields.title.clone(),
        body: fields.body.clone(),
        created_at: fields.created_at.clone(),
        updated_at: fields.updated_at.clone(),
        crdt_state: Some(copy_bytes(&merged)),
    };
    store.upsert_note(
        id.clone(),
        fields.title,
        fields.body,
        fields.created_at,
        fields.updated_at,
        Some(merged),
    );
    proof {
        lemma_apply_ops_push(base, ops@, op1);
    }
    ops.push(op1);
    let op2 = StoreOp::ReplaceTags { note_id: id.clone(), tags: copy_strings(&tags) };
    store.replace_tags(id, tags);
    proof {
        lemma_apply_ops_push(base, ops@, op2);
        assert forall|k: Seq<char>| k != id@ implies #[trigger] note_unchanged(store@.notes, s.notes, k) by {}
    }
    ops.push(op2);
}

/// Reconciles the batch `request` with `store`: records its deletions, then
/// merges its notes, and answers with the full state of the store.
///
/// Every state is decoded before anything is written, so a batch with a
/// state that is no valid base64 is refused as a whole and leaves the store
/// as it was. A note whose id is tombstoned is never brought back.
pub fn reconcile(store: &mut Store, request: &SyncRequest) -> (r: Result<Reconciled, SyncError>)
    requires
        old(store).wf(),
    ensures
        final(store).wf(),
        r is Err <==> !all_decode(*request),
        r is Err ==> r == Err::<Reconciled, SyncError>(SyncError::Decode) && final(store)@ == old(store)@,
        r is Ok ==> reconciled(old(store)@, final(store)@, *request),
        r is Ok && exclusive(old(store)@) ==> exclusive(final(store)@),
        r is Ok ==> apply_ops(old(store)@, r->Ok_0.ops@) == final(store)@,
        r is Ok ==> r->Ok_0.response.notes@.map_values(|n: SyncNote| n@) == snapshot_notes(
            final(store).notes@,
        ),
        r is Ok ==> r->Ok_0.response.deletions@.map_values(|d: SyncDeletion| d@)
            == final(store).deletion_entries(),
{
    let n = request.notes.len();
    let mut decoded: Vec<Vec<u8>> = Vec::new();
    let mut i: usize = 0;
    while i < n
        invariant
            0 <= i <= n,
            n == request.notes@.len(),
            decoded@.len() == i,
            store.wf(),
            store@ == old(store)@,
            forall|k: int| 0 <= k < i ==> (#[trigger] base64_decoded(request.notes@[k].crdt_state@)) is Some,
            forall|k: int| 0 <= k < i ==> #[trigger] decoded@[k]@ == decoded_state(*request, k),
        decreases n - i,
    {
        match decode_base64(&request.notes[i].crdt_state) {
            Ok(b) => decoded.push(b),
            Err(_) => {
                assert(base64_decoded(request.notes@[i as int].crdt_state@) is None);
                return Err(SyncError::Decode);
            },
        }
        i = i + 1;
    }
    let ghost s0 = store@;
    let mut ops: Vec<StoreOp> = Vec::new();
    let m = request.deletions.len();
    let mut j: usize = 0;
    while j < m
        invariant
            0 <= j <= m,
            m == request.deletions@.len(),
            store.wf(),
            apply_ops(s0, ops@) == store@,
            store@.deletions == apply_deletions(s0.deletions, batch_deletions(*request).take(j as int)),
            forall|id: Seq<char>| deleted_upto(*request, j as int, id) ==> #[trigger] store@.deletions.contains_key(id),
            forall|id: Seq<char>| deleted_upto(*request, j as int, id) ==> !(#[trigger] store@.notes.contains_key(id)),
            forall|id: Seq<char>| !deleted_upto(*request, j as int, id) ==> #[trigger] note_unchanged(store@.notes, s0.notes, id),
        decreases m - j,
    {
        let ghost before = store@;
        apply_deletion(store, &request.deletions[j], &mut ops, Ghost(s0));
        proof {
            let d = request.deletions@[j as int];
            assert(batch_deletions(*request).take(j as int + 1).drop_last() =~= batch_deletions(*request).take(j as int));
            assert forall|id: Seq<char>| deleted_upto(*request, j as int + 1, id) implies #[trigger] store@.deletions.contains_key(id) by {
                if id != d.note_id@ {
                    assert(deleted_upto(*request, j as int, id));
                }
            }
            assert forall|id: Seq<char>| deleted_upto(*request, j as int + 1, id) implies !(#[trigger] store@.notes.contains_key(id)) by {
                if id != d.note_id@ {
                    assert(deleted_upto(*request, j as int, id));
                }
            }
            assert forall|id: Seq<char>| !deleted_upto(*request, j as int + 1, id) implies #[trigger] note_unchanged(store@.notes, s0.notes, id) by {
                assert(!deleted_upto(*request, j as int, id));
                assert(request.deletions@[j as int].note_id@ != id);
                assert(note_unchanged(before.notes, s0.notes, id));
            }
        }
        j = j + 1;
    }
    assert(batch_deletions(*request).take(m as int) =~= batch_deletions(*request));
    let ghost sd = store@;
    let mut k: usize = 0;
    while k < n
        invariant
            0 <= k <= n,
            n == request.notes@.len(),
            decoded@.len() == n,
            forall|q: int| 0 <= q < n ==> #[trigger] decoded@[q]@ == decoded_state(*request, q),
            store.wf(),
            apply_ops(s0, ops@) == store@,
            store@.deletions == sd.deletions,
            forall|id: Seq<char>| !submitted_upto(*request, k as int, id) ==> #[trigger] note_unchanged(store@.notes, sd.notes, id),
            forall|id: Seq<char>| submitted_upto(*request, k as int, id) && sd.deletions.contains_key(id) ==> !(#[trigger] store@.notes.contains_key(id)),
            forall|id: Seq<char>| submitted_upto(*request, k as int, id) && !sd.deletions.contains_key(id) ==> #[trigger] live_with_state(store@.notes, id),
            forall|q: int|
                0 <= q < k && submitted_once(*request, q) && !sd.deletions.contains_key(#[trigger] request.notes@[q].id@)
                    ==> merged_into(sd, request.notes@[q].id@, decoded_state(*request, q), store@.notes[request.notes@[q].id@]),
        decreases n - k,
    {
        let ghost before = store@;
        let ghost x = request.notes@[k as int].id@;
        assert(decoded@[k as int]@ == decoded_state(*request, k as int));
        merge_note(store, &request.notes[k].id, &decoded[k], &mut ops, Ghost(s0));
        proof {
            assert forall|id: Seq<char>| !submitted_upto(*request, k as int + 1, id) implies #[trigger] note_unchanged(store@.notes, sd.notes, id) by {
                assert(!submitted_upto(*request, k as int, id));
                assert(x != id);
                assert(note_unchanged(store@.notes, before.notes, id));
                assert(note_unchanged(before.notes, sd.notes, id));
            }
            assert forall|id: Seq<char>| submitted_upto(*request, k as int + 1, id) && sd.deletions.contains_key(id) implies !(#[trigger] store@.notes.contains_key(id)) by {
                if id != x {
                    assert(submitted_upto(*request, k as int, id));
                    assert(note_unchanged(store@.notes, before.notes, id));
                }
            }
            assert forall|id: Seq<char>| submitted_upto(*request, k as int + 1, id) && !sd.deletions.contains_key(id) implies #[trigger] live_with_state(store@.notes, id) by {
                if id != x {
                    assert(submitted_upto(*request, k as int, id));
                    assert(note_unchanged(store@.notes, before.notes, id));
                    assert(live_with_state(before.notes, id));
                }
            }
            assert forall|q: int|
                0 <= q < k + 1 && submitted_once(*request, q) && !sd.deletions.contains_key(#[trigger] request.notes@[q].id@)
                    implies merged_into(sd, request.notes@[q].id@, decoded_state(*request, q), store@.notes[request.notes@[q].id@]) by {
                let y = request.notes@[q].id@;
                if q < k {
                    assert(y != x);
                    assert(submitted_upto(*request, k as int, y));
                    assert(live_with_state(before.notes, y));
                    assert(note_unchanged(store@.notes, before.notes, y));
                } else {
                    assert(!submitted_upto(*request, k as int, x));
                    assert(note_unchanged(before.notes, sd.notes, x));
                    assert(stored_state(before, x) == stored_state(sd, x));
                }
            }
        }
        k = k + 1;
    }
    proof {
        assert forall|id: Seq<char>| !deleted_in(*request, id) && !submitted(*request, id)
            implies #[trigger] note_unchanged(store@.notes, s0.notes, id) by {
            assert(note_unchanged(store@.notes, sd.notes, id));
            assert(note_unchanged(sd.notes, s0.notes, id));
        }
        assert forall|id: Seq<char>| (deleted_in(*request, id) || submitted(*request, id)) && #[trigger] store@.deletions.contains_key(id)
            implies !store@.notes.contains_key(id) by {
            if !submitted(*request, id) {
                assert(note_unchanged(store@.notes, sd.notes, id));
            }
        }
        assert forall|q: int|
            0 <= q < request.notes@.len() && submitted_once(*request, q) && !store@.deletions.contains_key(
                #[trigger] request.notes@[q].id@,
            ) implies merged_into(s0, request.notes@[q].id@, decoded_state(*request, q), store@.notes[request.notes@[q].id@]) by {
            let y = request.notes@[q].id@;
            if deleted_in(*request, y) {
                assert(sd.deletions.contains_key(y));
            }
            assert(note_unchanged(sd.notes, s0.notes, y));
            assert(stored_state(sd, y) == stored_state(s0, y));
        }
    }
    proof {
        if exclusive(s0) {
            lemma_reconcile_keeps_exclusive(s0, store@, *request);
        }
    }
    let response = SyncResponse { notes: store.all_notes_with_state(), deletions: store.all_deletions() };
    Ok(Reconciled { response, ops })
}

/// Recording a list of tombstones keeps those already there and adds the
/// listed ids, and nothing else.
pub proof fn lemma_apply_deletions_domain(
    m: Map<Seq<char>, Seq<char>>,
    b: Seq<(Seq<char>, Seq<char>)>,
    k: Seq<char>,
)
    ensures
        apply_deletions(m, b).contains_key(k) <==> m.contains_key(k) || exists|i: int|
            0 <= i < b.len() && b[i].0 == k,
    decreases b.len(),
{
    if b.len() > 0 {
        let d = b.drop_last();
        lemma_apply_deletions_domain(m, d, k);
        if exists|i: int| 0 <= i < d.len() && d[i].0 == k {
            let i = choose|i: int| 0 <= i < d.len() && d[i].0 == k;
            assert(b[i].0 == k);
        }
        if exists|i: int| 0 <= i < b.len() && b[i].0 == k {
            let i = choose|i: int| 0 <= i < b.len() && b[i].0 == k;
            if i < b.len() - 1 {
                assert(d[i].0 == k);
            }
        }
    }
}

/// Recording a list of tombstones over `m` is `m` overridden by the
/// tombstones of the list alone.
pub proof fn lemma_apply_deletions_override(
    m: Map<Seq<char>, Seq<char>>,
    b: Seq<(Seq<char>, Seq<char>)>,
)
    ensures
        apply_deletions(m, b) == m.union_prefer_right(apply_deletions(Map::empty(), b)),
    decreases b.len(),
{
    if b.len() > 0 {
        lemma_apply_deletions_override(m, b.drop_last());
        assert(apply_deletions(m, b) =~= m.union_prefer_right(apply_deletions(Map::empty(), b)));
    } else {
        assert(apply_deletions(m, b) =~= m.union_prefer_right(apply_deletions(Map::empty(), b)));
    }
}

/// Recording the same tombstones twice in a row gives the tombstones that
/// recording them once gave.
pub proof fn lemma_deletions_idempotent(m: Map<Seq<char>, Seq<char>>, b: Seq<(Seq<char>, Seq<char>)>)
    ensures
        apply_deletions(apply_deletions(m, b), b) == apply_deletions(m, b),
{
    let a = apply_deletions(Map::empty(), b);
    lemma_apply_deletions_override(m, b);
    lemma_apply_deletions_override(apply_deletions(m, b), b);
    assert(m.union_prefer_right(a).union_prefer_right(a) =~= m.union_prefer_right(a));
}

/// A note deleted by one batch stays deleted through a later batch, whatever
/// that batch holds (a stale copy of the note included), and its tombstone
/// stays in the store.
pub proof fn lemma_tombstone_precedence(
    s0: StoreView,
    s1: StoreView,
    s2: StoreView,
    first: SyncRequest,
    second: SyncRequest,
    id: Seq<char>,
)
    requires
        reconciled(s0, s1, first),
        reconciled(s1, s2, second),
        deleted_in(first, id),
    ensures
        s1.deletions.contains_key(id),
        !s1.notes.contains_key(id),
        s2.deletions.contains_key(id),
        !s2.notes.contains_key(id),
{
    let i = choose|i: int| 0 <= i < first.deletions@.len() && #[trigger] first.deletions@[i].note_id@ == id;
    assert(batch_deletions(first)[i].0 == id);
    lemma_apply_deletions_domain(s0.deletions, batch_deletions(first), id);
    lemma_apply_deletions_domain(s1.deletions, batch_deletions(second), id);
    assert(s1.deletions.contains_key(id));
    if !deleted_in(second, id) && !submitted(second, id) {
        assert(note_unchanged(s2.notes, s1.notes, id));
    }
}

/// A stored note that a batch does not name comes back, unchanged, in the
/// snapshot that answers it.
pub proof fn lemma_untouched_note_in_snapshot(s0: StoreView, s1: Store, req: SyncRequest, id: Seq<char>)
    requires
        s1.wf(),
        reconciled(s0, s1@, req),
        s0.notes.contains_key(id),
        s0.notes[id].crdt_state is Some,
        !submitted(req, id),
        !deleted_in(req, id),
    ensures
        s1@.notes.contains_key(id),
        s1@.notes[id] == s0.notes[id],
        snapshot_notes(s1.notes@).contains(
            (id, crate::codec::base64_encoded(s0.notes[id].crdt_state->Some_0)),
        ),
{
    assert(note_unchanged(s1@.notes, s0.notes, id));
    crate::keyed::lemma_keyed_domain(s1.note_entries(), id);
    let i = choose|i: int| 0 <= i < s1.note_entries().len() && s1.note_entries()[i].0 == id;
    crate::keyed::lemma_keyed_index(s1.note_entries(), i);
    crate::store::lemma_snapshot_contains(s1.notes@, i);
}

/// A note id that neither the store nor the batch's deletions know, and
/// that the batch submits once, is created with the submitted state as it is.
pub proof fn lemma_new_note_adopted(s0: StoreView, s1: StoreView, req: SyncRequest, i: int)
    requires
        reconciled(s0, s1, req),
        0 <= i < req.notes@.len(),
        submitted_once(req, i),
        !s0.notes.contains_key(req.notes@[i].id@),
        !s0.deletions.contains_key(req.notes@[i].id@),
        !deleted_in(req, req.notes@[i].id@),
    ensures
        s1.notes.contains_key(req.notes@[i].id@),
        s1.notes[req.notes@[i].id@].crdt_state == Some(decoded_state(req, i)),
        derived_from(s1.notes[req.notes@[i].id@], decoded_state(req, i)),
        time_from(decoded_state(req, i), "created_at"@, s1.notes[req.notes@[i].id@].created_at),
{
    let id = req.notes@[i].id@;
    lemma_apply_deletions_domain(s0.deletions, batch_deletions(req), id);
    if s1.deletions.contains_key(id) {
        let j = choose|j: int| 0 <= j < batch_deletions(req).len() && batch_deletions(req)[j].0 == id;
        assert(req.deletions@[j].note_id@ == id);
    }
    assert(submitted(req, id));
    assert(live_with_state(s1.notes, id));
}

/// Reconciling the same batch twice in a row: the second pass leaves the
/// tombstones as the first left them, the same note ids live, and every note
/// that the batch does not name as it was. (That a submitted note's merged
/// state is also unchanged rests on the document type's merge being
/// idempotent, which the library does not prove.)
pub proof fn lemma_batch_twice(s0: StoreView, s1: StoreView, s2: StoreView, req: SyncRequest)
    requires
        reconciled(s0, s1, req),
        reconciled(s1, s2, req),
    ensures
        s2.deletions == s1.deletions,
        forall|id: Seq<char>| #[trigger] s2.notes.contains_key(id) == s1.notes.contains_key(id),
        forall|id: Seq<char>|
            !deleted_in(req, id) && !submitted(req, id) && s1.notes.contains_key(id)
                ==> #[trigger] s2.notes[id] == s1.notes[id],
{
    lemma_deletions_idempotent(s0.deletions, batch_deletions(req));
    assert forall|id: Seq<char>| #[trigger] s2.notes.contains_key(id) == s1.notes.contains_key(id) by {
        if deleted_in(req, id) {
            let i = choose|i: int| 0 <= i < req.deletions@.len() && #[trigger] req.deletions@[i].note_id@ == id;
            assert(batch_deletions(req)[i].0 == id);
            lemma_apply_deletions_domain(s0.deletions, batch_deletions(req), id);
            assert(s1.deletions.contains_key(id));
        } else if submitted(req, id) {
            if !s1.deletions.contains_key(id) {
                assert(live_with_state(s1.notes, id));
                assert(live_with_state(s2.notes, id));
            }
        } else {
            assert(note_unchanged(s2.notes, s1.notes, id));
        }
    }
    assert forall|id: Seq<char>|
        !deleted_in(req, id) && !submitted(req, id) && s1.notes.contains_key(id)
            implies #[trigger] s2.notes[id] == s1.notes[id] by {
        assert(note_unchanged(s2.notes, s1.notes, id));
    }
}

/// A store in which no id is both tombstoned and live stays so through a
/// reconciliation.
pub proof fn lemma_reconcile_keeps_exclusive(s0: StoreView, s1: StoreView, req: SyncRequest)
    requires
        reconciled(s0, s1, req),
        exclusive(s0),
    ensures
        exclusive(s1),
{
    assert forall|id: Seq<char>| #[trigger] s1.deletions.contains_key(id) implies !s1.notes.contains_key(id) by {
        if !deleted_in(req, id) && !submitted(req, id) {
            lemma_apply_deletions_domain(s0.deletions, batch_deletions(req), id);
            if !s0.deletions.contains_key(id) {
                let j = choose|j: int| 0 <= j < batch_deletions(req).len() && batch_deletions(req)[j].0 == id;
                assert(req.deletions@[j].note_id@ == id);
            }
            assert(note_unchanged(s1.notes, s0.notes, id));
        }
    }
}

/// Reconciling the same batch twice in a row leaves the store exactly as
/// the first pass left it, where the batch names each note at most once,
/// each submitted document carries its own update time, and the document
/// type absorbs a state it already holds: resolving the state that the
/// first pass stored with the same submitted state gives it back.
pub proof fn lemma_batch_twice_identical(s0: StoreView, s1: StoreView, s2: StoreView, req: SyncRequest)
    requires
        reconciled(s0, s1, req),
        reconciled(s1, s2, req),
        forall|i: int| 0 <= i < req.notes@.len() ==> #[trigger] submitted_once(req, i),
        forall|i: int|
            0 <= i < req.notes@.len() && s1.notes.contains_key(#[trigger] req.notes@[i].id@)
                && s1.notes[req.notes@[i].id@].crdt_state is Some ==> ({
                let st = s1.notes[req.notes@[i].id@].crdt_state->Some_0;
                resolved(Some(st), decoded_state(req, i)) == st && extracted_text(
                    st,
                    "updated_at"@,
                ).len() > 0
            }),
    ensures
        s2 == s1,
{
    lemma_batch_twice(s0, s1, s2, req);
    assert forall|id: Seq<char>| #[trigger] s2.notes.contains_key(id) implies s2.notes[id] == s1.notes[id] by {
        if submitted(req, id) {
            let i = choose|i: int| 0 <= i < req.notes@.len() && #[trigger] req.notes@[i].id@ == id;
            assert(submitted_once(req, i));
            if s2.deletions.contains_key(id) {
                assert(false);
            }
            assert(live_with_state(s1.notes, id));
            assert(live_with_state(s2.notes, id));
            let st = s1.notes[id].crdt_state->Some_0;
            assert(stored_state(s1, id) == Some(st));
            assert(merged_into(s1, id, decoded_state(req, i), s2.notes[id]));
            assert(s2.notes[id].crdt_state == Some(st));
            let a = s1.notes[id];
            let b = s2.notes[id];
            assert(a.title == b.title && a.body == b.body && a.tags == b.tags && a.updated_at == b.updated_at
                && a.created_at == b.created_at && a.crdt_state == b.crdt_state);
        } else if !deleted_in(req, id) {
            assert(note_unchanged(s2.notes, s1.notes, id));
        } else {
            let j = choose|j: int| 0 <= j < req.deletions@.len() && #[trigger] req.deletions@[j].note_id@ == id;
            assert(batch_deletions(req)[j].0 == id);
            lemma_apply_deletions_domain(s1.deletions, batch_deletions(req), id);
        }
    }
    assert(s2.notes =~= s1.notes);
}

} // verus!
