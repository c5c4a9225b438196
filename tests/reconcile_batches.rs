use automerge::transaction::Transactable;
use automerge::AutoCommit;
use base64::Engine;
use bodhi::crdt::{extract_fields, read_note_from_crdt, resolve_state};
use bodhi::store::{Store, StoreOp};
use bodhi::sync::{reconcile, SyncDeletion, SyncError, SyncNote, SyncRequest};

fn s(v: &str) -> String {
    v.to_string()
}

fn b64(bytes: &[u8]) -> String {
    base64::engine::general_purpose::STANDARD.encode(bytes)
}

fn doc(fields: &[(&str, &str)]) -> AutoCommit {
    let mut d = AutoCommit::new();
    for (k, v) in fields {
        d.put(automerge::ROOT, *k, *v).unwrap();
    }
    d
}

fn note(id: &str, bytes: &[u8]) -> SyncNote {
    SyncNote { id: s(id), crdt_state: b64(bytes) }
}

fn deletion(id: &str, at: &str) -> SyncDeletion {
    SyncDeletion { note_id: s(id), deleted_at: s(at) }
}

fn batch(notes: Vec<SyncNote>, deletions: Vec<SyncDeletion>) -> SyncRequest {
    SyncRequest { notes, deletions }
}

type Row = (String, String, String, String, String, Option<Vec<u8>>, Vec<String>);

fn rows(st: &Store) -> (Vec<Row>, Vec<(String, String)>) {
    let n = st
        .notes
        .iter()
        .map(|r| {
            (
                r.id.clone(),
                r.title.clone(),
                r.body.clone(),
                r.created_at.clone(),
                r.updated_at.clone(),
                r.crdt_state.clone(),
                r.tags.clone(),
            )
        })
        .collect();
    let d = st.deletions.iter().map(|d| (d.note_id.clone(), d.deleted_at.clone())).collect();
    (n, d)
}

#[test]
fn new_note_is_adopted_verbatim() {
    let bytes = doc(&[
        ("title", "Groceries"),
        ("body", "milk"),
        ("tags", " Work, URGENT ,work"),
        ("created_at", "100"),
        ("updated_at", "200"),
    ])
    .save();
    let mut st = Store::new();
    let out = reconcile(&mut st, &batch(vec![note("n1", &bytes)], vec![])).unwrap();
    let row = st.note(&s("n1")).unwrap();
    assert_eq!(row.crdt_state, Some(bytes.clone()));
    assert_eq!(row.title, "Groceries");
    assert_eq!(row.body, "milk");
    assert_eq!(row.created_at, "100");
    assert_eq!(row.updated_at, "200");
    assert_eq!(row.tags, vec![s("work"), s("urgent")]);
    assert_eq!(out.response.notes.len(), 1);
    assert_eq!(out.response.notes[0].id, "n1");
    assert_eq!(out.response.notes[0].crdt_state, b64(&bytes));
    assert!(out.response.deletions.is_empty());
    assert_eq!(out.ops.len(), 2);
    assert!(matches!(&out.ops[0], StoreOp::UpsertNote { id, .. } if id == "n1"));
    assert!(matches!(&out.ops[1], StoreOp::ReplaceTags { tags, .. } if tags.len() == 2));
}

#[test]
fn stale_copy_does_not_resurrect_deleted_note() {
    let bytes = doc(&[("title", "Old")]).save();
    let mut st = Store::new();
    reconcile(&mut st, &batch(vec![note("x", &bytes)], vec![])).unwrap();
    assert!(st.note(&s("x")).is_some());
    let out = reconcile(&mut st, &batch(vec![], vec![deletion("x", "500")])).unwrap();
    assert!(st.note(&s("x")).is_none());
    assert!(out.response.notes.is_empty());
    assert_eq!(out.response.deletions.len(), 1);
    let out = reconcile(&mut st, &batch(vec![note("x", &bytes)], vec![])).unwrap();
    assert!(st.note(&s("x")).is_none());
    assert!(out.response.notes.is_empty());
    assert_eq!(out.response.deletions[0].note_id, "x");
    assert_eq!(out.response.deletions[0].deleted_at, "500");
    let out = reconcile(&mut st, &batch(vec![], vec![])).unwrap();
    assert_eq!(out.response.deletions.len(), 1);
}

#[test]
fn deletion_and_copy_in_one_batch_keeps_note_deleted() {
    let bytes = doc(&[("title", "T")]).save();
    let mut st = Store::new();
    let out = reconcile(&mut st, &batch(vec![note("x", &bytes)], vec![deletion("x", "7")])).unwrap();
    assert!(st.note(&s("x")).is_none());
    assert!(out.response.notes.is_empty());
    assert_eq!(out.response.deletions.len(), 1);
}

#[test]
fn snapshot_includes_untouched_notes() {
    let a = doc(&[("title", "A")]).save();
    let b = doc(&[("title", "B")]).save();
    let mut st = Store::new();
    reconcile(&mut st, &batch(vec![note("b", &b)], vec![])).unwrap();
    st.upsert_note(s("legacy"), s("L"), s(""), s("1"), s("1"), None);
    let out = reconcile(&mut st, &batch(vec![note("a", &a)], vec![])).unwrap();
    let ids: Vec<&str> = out.response.notes.iter().map(|n| n.id.as_str()).collect();
    assert_eq!(ids, vec!["b", "a"]);
    assert_eq!(out.response.notes[0].crdt_state, b64(&b));
    assert_eq!(st.note(&s("legacy")).unwrap().title, "L");
}

#[test]
fn same_batch_twice_leaves_same_store() {
    let mut base = doc(&[("title", "Shared"), ("tags", "a,b"), ("created_at", "1"), ("updated_at", "1")]);
    let base_bytes = base.save();
    let mut st = Store::new();
    reconcile(&mut st, &batch(vec![note("n", &base_bytes)], vec![])).unwrap();
    let mut remote = AutoCommit::load(&base_bytes).unwrap();
    remote.put(automerge::ROOT, "body", "remote edit").unwrap();
    let remote_bytes = remote.save();
    let req = batch(
        vec![note("n", &remote_bytes), note("m", &doc(&[("title", "M")]).save())],
        vec![deletion("gone", "3")],
    );
    reconcile(&mut st, &req).unwrap();
    let first = rows(&st);
    reconcile(&mut st, &req).unwrap();
    let second = rows(&st);
    assert_eq!(first, second);
    assert_eq!(st.note(&s("n")).unwrap().body, "remote edit");
}

#[test]
fn malformed_base64_is_refused_without_effect() {
    let good = doc(&[("title", "G")]).save();
    let mut st = Store::new();
    st.record_deletion(s("d"), s("1"));
    let req = batch(
        vec![note("g", &good), SyncNote { id: s("bad"), crdt_state: s("not base64!") }],
        vec![deletion("z", "2")],
    );
    let r = reconcile(&mut st, &req);
    assert!(matches!(r, Err(SyncError::Decode)));
    assert!(st.notes.is_empty());
    assert_eq!(st.deletions.len(), 1);
}

#[test]
fn undecodable_document_still_stored_with_empty_fields() {
    let junk = vec![1u8, 2, 3, 4];
    let mut st = Store::new();
    let out = reconcile(&mut st, &batch(vec![note("j", &junk)], vec![])).unwrap();
    let row = st.note(&s("j")).unwrap();
    assert_eq!(row.crdt_state, Some(junk.clone()));
    assert_eq!(row.title, "");
    assert!(row.tags.is_empty());
    assert!(row.created_at.chars().all(|c| c.is_ascii_digit()));
    assert_eq!(out.response.notes[0].crdt_state, b64(&junk));
}

#[test]
fn empty_local_state_takes_remote() {
    let remote = doc(&[("title", "R")]).save();
    let mut st = Store::new();
    st.upsert_note(s("e"), s("old"), s(""), s("5"), s("5"), Some(vec![]));
    reconcile(&mut st, &batch(vec![note("e", &remote)], vec![])).unwrap();
    let row = st.note(&s("e")).unwrap();
    assert_eq!(row.crdt_state, Some(remote));
    assert_eq!(row.title, "R");
    assert_eq!(row.created_at, "5");
}

#[test]
fn divergent_edits_are_merged() {
    let mut base = doc(&[("title", "T"), ("body", "B"), ("tags", "x")]);
    let base_bytes = base.save();
    let mut mine = AutoCommit::load(&base_bytes).unwrap();
    mine.put(automerge::ROOT, "title", "Mine").unwrap();
    let mut theirs = AutoCommit::load(&base_bytes).unwrap();
    theirs.put(automerge::ROOT, "tags", "y, Z").unwrap();
    let mut st = Store::new();
    reconcile(&mut st, &batch(vec![note("n", &mine.save())], vec![])).unwrap();
    reconcile(&mut st, &batch(vec![note("n", &theirs.save())], vec![])).unwrap();
    let row = st.note(&s("n")).unwrap();
    assert_eq!(row.title, "Mine");
    assert_eq!(row.body, "B");
    assert_eq!(row.tags, vec![s("y"), s("z")]);
}

#[test]
fn merge_is_commutative_on_fields() {
    let mut base = doc(&[("title", "T"), ("body", "B"), ("tags", "x")]);
    let base_bytes = base.save();
    let mut a = AutoCommit::load(&base_bytes).unwrap();
    a.put(automerge::ROOT, "title", "From A").unwrap();
    a.put(automerge::ROOT, "body", "A body").unwrap();
    let mut b = AutoCommit::load(&base_bytes).unwrap();
    b.put(automerge::ROOT, "title", "From B").unwrap();
    b.put(automerge::ROOT, "tags", "b-tag").unwrap();
    let a_bytes = a.save();
    let b_bytes = b.save();
    let ab = resolve_state(Some(&a_bytes), &b_bytes);
    let ba = resolve_state(Some(&b_bytes), &a_bytes);
    let fa = read_note_from_crdt(&ab).unwrap();
    let fb = read_note_from_crdt(&ba).unwrap();
    assert_eq!(fa.title, fb.title);
    assert_eq!(fa.body, fb.body);
    assert_eq!(fa.tags, fb.tags);
    assert_eq!(fa.body, "A body");
    assert_eq!(fa.tags, "b-tag");
}

#[test]
fn saved_document_round_trips_byte_identical() {
    let mut d = doc(&[("title", "Round"), ("body", "trip")]);
    let bytes = d.save();
    let mut loaded = AutoCommit::load(&bytes).unwrap();
    assert_eq!(loaded.save(), bytes);
    assert_eq!(resolve_state(Some(&bytes), &bytes), bytes);
}

#[test]
fn unloadable_side_degrades_to_remote() {
    let good = doc(&[("title", "G")]).save();
    let junk = vec![9u8, 9, 9];
    assert_eq!(resolve_state(Some(&junk), &good), good);
    assert_eq!(resolve_state(Some(&good), &junk), junk);
    assert_eq!(resolve_state(None, &good), good);
}

#[test]
fn fields_of_undecodable_bytes() {
    assert!(read_note_from_crdt(&vec![1, 2, 3]).is_none());
    let f = extract_fields(&vec![1, 2, 3]);
    assert_eq!(f.title, "");
    assert_eq!(f.body, "");
    assert_eq!(f.tags, "");
    assert!(!f.created_at.is_empty());
    assert!(!f.updated_at.is_empty());
}

#[test]
fn missing_times_are_synthesized() {
    let bytes = doc(&[("title", "No times"), ("created_at", "")]).save();
    let f = read_note_from_crdt(&bytes).unwrap();
    assert_eq!(f.title, "No times");
    assert!(f.created_at.chars().all(|c| c.is_ascii_digit()) && !f.created_at.is_empty());
    assert!(f.updated_at.chars().all(|c| c.is_ascii_digit()) && !f.updated_at.is_empty());
}

fn replay(st: &mut Store, ops: Vec<StoreOp>) {
    for op in ops {
        match op {
            StoreOp::UpsertNote { id, title, body, created_at, updated_at, crdt_state } => {
                st.upsert_note(id, title, body, created_at, updated_at, crdt_state)
            }
            StoreOp::ReplaceTags { note_id, tags } => st.replace_tags(&note_id, tags),
            StoreOp::RecordDeletion { note_id, deleted_at } => st.record_deletion(note_id, deleted_at),
            StoreOp::DeleteNote { note_id } => st.delete_note(&note_id),
        }
    }
}

#[test]
fn write_log_replays_to_the_reconciled_store() {
    let a = doc(&[("title", "A"), ("tags", "One, two"), ("created_at", "1"), ("updated_at", "2")]).save();
    let b = doc(&[("title", "B")]).save();
    let mut st = Store::new();
    st.upsert_note(s("b"), s("old"), s(""), s("0"), s("0"), Some(vec![]));
    st.upsert_note(s("gone"), s("G"), s(""), s("0"), s("0"), None);
    let mut copy = Store::new();
    copy.upsert_note(s("b"), s("old"), s(""), s("0"), s("0"), Some(vec![]));
    copy.upsert_note(s("gone"), s("G"), s(""), s("0"), s("0"), None);
    let req = batch(vec![note("a", &a), note("b", &b)], vec![deletion("gone", "9")]);
    let out = reconcile(&mut st, &req).unwrap();
    replay(&mut copy, out.ops);
    assert_eq!(rows(&st), rows(&copy));
    assert!(st.note(&s("gone")).is_none());
    assert_eq!(st.note(&s("a")).unwrap().tags, vec![s("one"), s("two")]);
}
