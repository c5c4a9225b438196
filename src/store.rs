//! The note store: notes with their tags, and deletion tombstones.
use vstd::prelude::*;
use crate::codec::{base64_encoded, encode_base64};
use crate::keyed::{keyed, keys_unique, lemma_keyed_domain, lemma_keyed_index, lemma_keyed_push, lemma_keyed_remove, lemma_keyed_update};
use crate::sync::{SyncDeletion, SyncNote};
use crate::text::string_views;

verus! {

/// One stored note. `crdt_state` is the saved conflict-free document, absent
/// for notes that predate replication; `tags` is the note's tag relation.
pub struct NoteRow {
    pub id: String,
    pub title: String,
    pub body: String,
    pub created_at: String,
    pub updated_at: String,
    pub crdt_state: Option<Vec<u8>>,
    pub tags: Vec<String>,
}

/// A stored note as a value.
pub struct NoteView {
    pub title: Seq<char>,
    pub body: Seq<char>,
    pub created_at: Seq<char>,
    pub updated_at: Seq<char>,
    pub crdt_state: Option<Seq<u8>>,
    pub tags: Seq<Seq<char>>,
}

/// The contents of a document state, if there is one.
pub open spec fn state_view(s: Option<Vec<u8>>) -> Option<Seq<u8>> {
    match s {
        Some(v) => Some(v@),
        None => None,
    }
}

impl NoteRow {
    /// The note's id with the note as a value.
    pub open spec fn entry(self) -> (Seq<char>, NoteView) {
        (
            self.id@,
            NoteView {
                title: self.title@,
                body: self.body@,
                created_at: self.created_at@,
                updated_at: self.updated_at@,
                crdt_state: state_view(self.crdt_state),
                tags: string_views(self.tags@),
            },
        )
    }
}

/// The whole store as a value: notes and tombstones, each keyed by note id.
pub struct StoreView {
    pub notes: Map<Seq<char>, NoteView>,
    pub deletions: Map<Seq<char>, Seq<char>>,
}

/// One write to the store, in the order in which it has to be made durable.
pub enum StoreOp {
    /// Insert a note, or overwrite all but `created_at` of the one with this id.
    UpsertNote {
        id: String,
        title: String,
        body: String,
        created_at: String,
        updated_at: String,
        crdt_state: Option<Vec<u8>>,
    },
    /// Drop the note's tags and store these instead.
    ReplaceTags { note_id: String, tags: Vec<String> },
    /// Insert or replace the tombstone of a note id.
    RecordDeletion { note_id: String, deleted_at: String },
    /// Remove a note together with its tags.
    DeleteNote { note_id: String },
}

/// `s` after an upsert: a new note starts without tags; an existing one
/// keeps its creation time and tags.
pub open spec fn upserted(
    s: StoreView,
    id: Seq<char>,
    title: Seq<char>,
    body: Seq<char>,
    created_at: Seq<char>,
    updated_at: Seq<char>,
    crdt_state: Option<Seq<u8>>,
) -> StoreView {
    let row = if s.notes.contains_key(id) {
        NoteView { title, body, updated_at, crdt_state, ..s.notes[id] }
    } else {
        NoteView { title, body, created_at, updated_at, crdt_state, tags: Seq::empty() }
    };
    StoreView { notes: s.notes.insert(id, row), deletions: s.deletions }
}

/// `s` with the tags of note `id` replaced by `tags`.
pub open spec fn tags_replaced(s: StoreView, id: Seq<char>, tags: Seq<Seq<char>>) -> StoreView {
    if s.notes.contains_key(id) {
        StoreView { notes: s.notes.insert(id, NoteView { tags, ..s.notes[id] }), deletions: s.deletions }
    } else {
        s
    }
}

/// `s` with the tombstone of `id` set to `deleted_at`.
pub open spec fn deletion_recorded(s: StoreView, id: Seq<char>, deleted_at: Seq<char>) -> StoreView {
    StoreView { notes: s.notes, deletions: s.deletions.insert(id, deleted_at) }
}

/// `s` without note `id`.
pub open spec fn note_deleted(s: StoreView, id: Seq<char>) -> StoreView {
    StoreView { notes: s.notes.remove(id), deletions: s.deletions }
}

/// `s` after the write `op`.
pub open spec fn apply_op(s: StoreView, op: StoreOp) -> StoreView {
    match op {
        StoreOp::UpsertNote { id, title, body, created_at, updated_at, crdt_state } => upserted(
            s,
            id@,
            title@,
            body@,
            created_at@,
            updated_at@,
            state_view(crdt_state),
        ),
        StoreOp::ReplaceTags { note_id, tags } => tags_replaced(s, note_id@, string_views(tags@)),
        StoreOp::RecordDeletion { note_id, deleted_at } => deletion_recorded(
            s,
            note_id@,
            deleted_at@,
        ),
        StoreOp::DeleteNote { note_id } => note_deleted(s, note_id@),
    }
}

/// `s` after the writes `ops`, in order.
pub open spec fn apply_ops(s: StoreView, ops: Seq<StoreOp>) -> StoreView
    decreases ops.len(),
{
    if ops.len() == 0 {
        s
    } else {
        apply_op(apply_ops(s, ops.drop_last()), ops.last())
    }
}

pub proof fn lemma_apply_ops_push(s: StoreView, ops: Seq<StoreOp>, op: StoreOp)
    ensures
        apply_ops(s, ops.push(op)) == apply_op(apply_ops(s, ops), op),
{
    assert(ops.push(op).drop_last() =~= ops);
}

/// The snapshot entries of `rows`: id and base64 text of each note that has
/// a document state, in order.
pub open spec fn snapshot_notes(rows: Seq<NoteRow>) -> Seq<(Seq<char>, Seq<char>)>
    decreases rows.len(),
{
    if rows.len() == 0 {
        Seq::empty()
    } else {
        let r = snapshot_notes(rows.drop_last());
        match rows.last().crdt_state {
            Some(b) => r.push((rows.last().id@, base64_encoded(b@))),
            None => r,
        }
    }
}

/// A store of notes and tombstones, each row unique by note id.
pub struct Store {
    pub notes: Vec<NoteRow>,
    pub deletions: Vec<SyncDeletion>,
}

impl View for Store {
    type V = StoreView;

    open spec fn view(&self) -> StoreView {
        StoreView { notes: keyed(self.note_entries()), deletions: keyed(self.deletion_entries()) }
    }
}

impl Store {
    pub open spec fn note_entries(&self) -> Seq<(Seq<char>, NoteView)> {
        self.notes@.map_values(|r: NoteRow| r.entry())
    }

    pub open spec fn deletion_entries(&self) -> Seq<(Seq<char>, Seq<char>)> {
        self.deletions@.map_values(|d: SyncDeletion| d@)
    }

    /// No two notes and no two tombstones share an id.
    pub open spec fn wf(&self) -> bool {
        keys_unique(self.note_entries()) && keys_unique(self.deletion_entries())
    }

    /// An empty store.
    pub fn new() -> (r: Store)
        ensures
            r.wf(),
            r@.notes == Map::<Seq<char>, NoteView>::empty(),
            r@.deletions == Map::<Seq<char>, Seq<char>>::empty(),
    {
        let r = Store { notes: Vec::new(), deletions: Vec::new() };
        assert(r.note_entries() =~= Seq::empty());
        assert(r.deletion_entries() =~= Seq::empty());
        r
    }

    /// The position of note `id`, if the store holds it.
    fn find_note(&self, id: &String) -> (r: Option<usize>)
        requires
            self.wf(),
        ensures
            r is Some <==> self@.notes.contains_key(id@),
            r is Some ==> r->Some_0 < self.notes@.len() && self.notes@[r->Some_0 as int].id@ == id@
                && self@.notes[id@] == self.notes@[r->Some_0 as int].entry().1,
    {
        let mut i: usize = 0;
        while i < self.notes.len()
            invariant
                0 <= i <= self.notes@.len(),
                self.wf(),
                forall|j: int| 0 <= j < i ==> self.notes@[j].id@ != id@,
            decreases self.notes@.len() - i,
        {
            if self.notes[i].id == *id {
                proof {
                    lemma_keyed_index(self.note_entries(), i as int);
                }
                return Some(i);
            }
            i = i + 1;
        }
        proof {
            lemma_keyed_domain(self.note_entries(), id@);
        }
        None
    }

    /// The position of the tombstone of `id`, if the store holds one.
    fn find_deletion(&self, id: &String) -> (r: Option<usize>)
        requires
            self.wf(),
        ensures
            r is Some <==> self@.deletions.contains_key(id@),
            r is Some ==> r->Some_0 < self.deletions@.len() && self.deletions@[r->Some_0 as int].note_id@
                == id@,
    {
        let mut i: usize = 0;
        while i < self.deletions.len()
            invariant
                0 <= i <= self.deletions@.len(),
                self.wf(),
                forall|j: int| 0 <= j < i ==> self.deletions@[j].note_id@ != id@,
            decreases self.deletions@.len() - i,
        {
            if self.deletions[i].note_id == *id {
                proof {
                    lemma_keyed_index(self.deletion_entries(), i as int);
                }
                return Some(i);
            }
            i = i + 1;
        }
        proof {
            lemma_keyed_domain(self.deletion_entries(), id@);
        }
        None
    }

    /// Whether the store holds a tombstone for `id`.
    pub fn is_deleted(&self, id: &String) -> (r: bool)
        requires
            self.wf(),
        ensures
            r == self@.deletions.contains_key(id@),
    {
        self.find_deletion(id).is_some()
    }

    /// The note with id `id`, if the store holds one.
    pub fn note(&self, id: &String) -> (r: Option<&NoteRow>)
        requires
            self.wf(),
        ensures
            r is Some <==> self@.notes.contains_key(id@),
            r is Some ==> r->Some_0.entry() == (id@, self@.notes[id@]),
    {
        match self.find_note(id) {
            Some(i) => Some(&self.notes[i]),
            None => None,
        }
    }
}

/// A copy of `v`.
pub fn copy_bytes(v: &Vec<u8>) -> (r: Vec<u8>)
    ensures
        r@ == v@,
{
    let mut r: Vec<u8> = Vec::new();
    let mut i: usize = 0;
    while i < v.len()
        invariant
            0 <= i <= v@.len(),
            r@ == v@.take(i as int),
        decreases v@.len() - i,
    {
        r.push(v[i]);
        assert(r@ =~= v@.take(i as int + 1));
        i = i + 1;
    }
    assert(v@.take(i as int) =~= v@);
    r
}

/// A copy of `v`.
pub fn copy_strings(v: &Vec<String>) -> (r: Vec<String>)
    ensures
        string_views(r@) == string_views(v@),
{
    let mut r: Vec<String> = Vec::new();
    let mut i: usize = 0;
    while i < v.len()
        invariant
            0 <= i <= v@.len(),
            r@.len() == i,
            forall|k: int| 0 <= k < i ==> r@[k]@ == v@[k]@,
        decreases v@.len() - i,
    {
        r.push(v[i].clone());
        i = i + 1;
    }
    assert(string_views(r@) =~= string_views(v@));
    r
}

impl Store {
    /// Inserts note `id`, or overwrites the title, body, update time and
    /// document state of the note with that id, keeping its creation time
    /// and tags.
    pub fn upsert_note(
        &mut self,
        id: String,
        title: String,
        body: String,
        created_at: String,
        updated_at: String,
        crdt_state: Option<Vec<u8>>,
    )
        requires
            old(self).wf(),
        ensures
            final(self).wf(),
            final(self)@ == upserted(
                old(self)@,
                id@,
                title@,
                body@,
                created_at@,
                updated_at@,
                state_view(crdt_state),
            ),
            final(self).deletions == old(self).deletions,
    {
        let ghost s0 = self@;
        let ghost e0 = self.note_entries();
        let ghost st = state_view(crdt_state);
        match self.find_note(&id) {
            Some(i) => {
                let mut row = self.notes.remove(i);
                row.title = title;
                row.body = body;
                row.updated_at = updated_at;
                row.crdt_state = crdt_state;
                let ghost r = row;
                self.notes.insert(i, row);
                proof {
                    assert(r.entry().1 == NoteView {
                        title: title@,
                        body: body@,
                        updated_at: updated_at@,
                        crdt_state: st,
                        ..s0.notes[id@]
                    });
                    assert(self.note_entries() =~= e0.update(i as int, (e0[i as int].0, r.entry().1)));
                    lemma_keyed_update(e0, i as int, r.entry().1);
                    assert(self@ =~= upserted(s0, id@, title@, body@, created_at@, updated_at@, st));
                }
            },
            None => {
                let row = NoteRow {
                    id,
                    title,
                    body,
                    created_at,
                    updated_at,
                    crdt_state,
                    tags: Vec::new(),
                };
                let ghost r = row;
                self.notes.push(row);
                proof {
                    assert(string_views(r.tags@) =~= Seq::empty());
                    assert(self.note_entries() =~= e0.push(r.entry()));
                    lemma_keyed_push(e0, r.entry());
                    assert(self@ =~= upserted(s0, r.id@, r.title@, r.body@, r.created_at@, r.updated_at@, st));
                }
            },
        }
    }

    /// Replaces the tags of note `note_id` by `tags`.
    pub fn replace_tags(&mut self, note_id: &String, tags: Vec<String>)
        requires
            old(self).wf(),
            old(self)@.notes.contains_key(note_id@),
        ensures
            final(self).wf(),
            final(self)@ == tags_replaced(old(self)@, note_id@, string_views(tags@)),
            final(self).deletions == old(self).deletions,
    {
        let ghost s0 = self@;
        let ghost e0 = self.note_entries();
        let ghost tv = string_views(tags@);
        let i = self.find_note(note_id).unwrap();
        let mut row = self.notes.remove(i);
        row.tags = tags;
        let ghost r = row;
        self.notes.insert(i, row);
        proof {
            assert(r.entry().1 == NoteView { tags: tv, ..s0.notes[note_id@] });
            assert(self.note_entries() =~= e0.update(i as int, (e0[i as int].0, r.entry().1)));
            lemma_keyed_update(e0, i as int, r.entry().1);
            assert(self@ =~= tags_replaced(s0, note_id@, tv));
        }
    }

    /// Sets the tombstone of `note_id` to `deleted_at`, replacing an earlier one.
    pub fn record_deletion(&mut self, note_id: String, deleted_at: String)
        requires
            old(self).wf(),
        ensures
            final(self).wf(),
            final(self)@ == deletion_recorded(old(self)@, note_id@, deleted_at@),
            final(self).notes == old(self).notes,
    {
        let ghost s0 = self@;
        let ghost e0 = self.deletion_entries();
        match self.find_deletion(&note_id) {
            Some(i) => {
                let mut d = self.deletions.remove(i);
                d.deleted_at = deleted_at;
                let ghost r = d;
                self.deletions.insert(i, d);
                proof {
                    assert(self.deletion_entries() =~= e0.update(i as int, (e0[i as int].0, r@.1)));
                    lemma_keyed_update(e0, i as int, r@.1);
                    assert(self@ =~= deletion_recorded(s0, note_id@, r@.1));
                }
            },
            None => {
                let d = SyncDeletion { note_id, deleted_at };
                let ghost r = d;
                self.deletions.push(d);
                proof {
                    assert(self.deletion_entries() =~= e0.push(r@));
                    lemma_keyed_push(e0, r@);
                    assert(self@ =~= deletion_recorded(s0, r@.0, r@.1));
                }
            },
        }
    }

    /// Removes note `note_id`, with its tags, if the store holds it.
    pub fn delete_note(&mut self, note_id: &String)
        requires
            old(self).wf(),
        ensures
            final(self).wf(),
            final(self)@ == note_deleted(old(self)@, note_id@),
            final(self).deletions == old(self).deletions,
    {
        let ghost s0 = self@;
        let ghost e0 = self.note_entries();
        match self.find_note(note_id) {
            Some(i) => {
                self.notes.remove(i);
                proof {
                    assert(self.note_entries() =~= e0.remove(i as int));
                    lemma_keyed_remove(e0, i as int);
                    assert(self@ =~= note_deleted(s0, note_id@));
                }
            },
            None => {
                assert(s0.notes.remove(note_id@) =~= s0.notes);
                assert(self@ =~= note_deleted(s0, note_id@));
            },
        }
    }

    /// Every note that has a document state, as id and base64 text, in store
    /// order.
    pub fn all_notes_with_state(&self) -> (r: Vec<SyncNote>)
        ensures
            r@.map_values(|n: SyncNote| n@) == snapshot_notes(self.notes@),
    {
        let mut r: Vec<SyncNote> = Vec::new();
        let mut i: usize = 0;
        assert(self.notes@.take(0) =~= Seq::<NoteRow>::empty());
        assert(r@.map_values(|n: SyncNote| n@) =~= Seq::empty());
        while i < self.notes.len()
            invariant
                0 <= i <= self.notes@.len(),
                r@.map_values(|n: SyncNote| n@) == snapshot_notes(self.notes@.take(i as int)),
            decreases self.notes@.len() - i,
        {
            let row = &self.notes[i];
            assert(self.notes@.take(i as int + 1).drop_last() =~= self.notes@.take(i as int));
            match &row.crdt_state {
                Some(b) => {
                    let n = SyncNote { id: row.id.clone(), crdt_state: encode_base64(b) };
                    r.push(n);
                    assert(r@.map_values(|n: SyncNote| n@) =~= snapshot_notes(
                        self.notes@.take(i as int + 1),
                    ));
                },
                None => {},
            }
            i = i + 1;
        }
        assert(self.notes@.take(i as int) =~= self.notes@);
        r
    }

    /// Every tombstone, in store order.
    pub fn all_deletions(&self) -> (r: Vec<SyncDeletion>)
        ensures
            r@.map_values(|d: SyncDeletion| d@) == self.deletion_entries(),
    {
        let mut r: Vec<SyncDeletion> = Vec::new();
        let mut i: usize = 0;
        while i < self.deletions.len()
            invariant
                0 <= i <= self.deletions@.len(),
                r@.len() == i,
                forall|k: int| 0 <= k < i ==> r@[k]@ == self.deletions@[k]@,
            decreases self.deletions@.len() - i,
        {
            let d = &self.deletions[i];
            r.push(SyncDeletion { note_id: d.note_id.clone(), deleted_at: d.deleted_at.clone() });
            i = i + 1;
        }
        assert(r@.map_values(|d: SyncDeletion| d@) =~= self.deletion_entries());
        r
    }
}

/// A row with a document state is in the snapshot of the rows.
pub proof fn lemma_snapshot_contains(rows: Seq<NoteRow>, i: int)
    requires
        0 <= i < rows.len(),
        rows[i].crdt_state is Some,
    ensures
        snapshot_notes(rows).contains((rows[i].id@, base64_encoded(rows[i].crdt_state->Some_0@))),
    decreases rows.len(),
{
    let e = (rows[i].id@, base64_encoded(rows[i].crdt_state->Some_0@));
    let d = rows.drop_last();
    if i == rows.len() - 1 {
        assert(snapshot_notes(rows).last() == e);
    } else {
        lemma_snapshot_contains(d, i);
        let k = choose|k: int| 0 <= k < snapshot_notes(d).len() && snapshot_notes(d)[k] == e;
        match rows.last().crdt_state {
            Some(b) => assert(snapshot_notes(rows)[k] == e),
            None => {},
        }
    }
}

} // verus!
