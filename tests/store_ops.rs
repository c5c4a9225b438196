use bodhi::store::{copy_bytes, copy_strings, Store};
use bodhi::sync::SyncDeletion;

fn s(v: &str) -> String {
    v.to_string()
}

#[test]
fn upsert_inserts_a_new_note_without_tags() {
    let mut st = Store::new();
    st.upsert_note(s("n1"), s("T"), s("B"), s("1"), s("2"), Some(vec![1, 2]));
    let row = st.note(&s("n1")).unwrap();
    assert_eq!(row.title, "T");
    assert_eq!(row.body, "B");
    assert_eq!(row.created_at, "1");
    assert_eq!(row.updated_at, "2");
    assert_eq!(row.crdt_state, Some(vec![1, 2]));
    assert!(row.tags.is_empty());
    assert!(st.note(&s("n2")).is_none());
}

#[test]
fn upsert_keeps_creation_time_and_tags() {
    let mut st = Store::new();
    st.upsert_note(s("n1"), s("T"), s("B"), s("1"), s("2"), None);
    st.replace_tags(&s("n1"), vec![s("a")]);
    st.upsert_note(s("n1"), s("T2"), s("B2"), s("9"), s("3"), Some(vec![5]));
    assert_eq!(st.notes.len(), 1);
    let row = st.note(&s("n1")).unwrap();
    assert_eq!(row.title, "T2");
    assert_eq!(row.body, "B2");
    assert_eq!(row.created_at, "1");
    assert_eq!(row.updated_at, "3");
    assert_eq!(row.crdt_state, Some(vec![5]));
    assert_eq!(row.tags, vec![s("a")]);
}

#[test]
fn replace_tags_is_a_full_replace() {
    let mut st = Store::new();
    st.upsert_note(s("n1"), s("T"), s("B"), s("1"), s("2"), None);
    st.replace_tags(&s("n1"), vec![s("a"), s("b")]);
    st.replace_tags(&s("n1"), vec![s("c")]);
    assert_eq!(st.note(&s("n1")).unwrap().tags, vec![s("c")]);
}

#[test]
fn tombstones_are_upserted() {
    let mut st = Store::new();
    st.record_deletion(s("x"), s("10"));
    st.record_deletion(s("y"), s("11"));
    st.record_deletion(s("x"), s("12"));
    assert_eq!(st.deletions.len(), 2);
    assert!(st.is_deleted(&s("x")));
    assert!(!st.is_deleted(&s("z")));
    let all = st.all_deletions();
    assert_eq!(all[0].note_id, "x");
    assert_eq!(all[0].deleted_at, "12");
    assert_eq!(all[1].note_id, "y");
}

#[test]
fn delete_note_removes_only_that_note() {
    let mut st = Store::new();
    st.upsert_note(s("a"), s("A"), s(""), s("1"), s("1"), None);
    st.upsert_note(s("b"), s("B"), s(""), s("1"), s("1"), None);
    st.delete_note(&s("a"));
    st.delete_note(&s("missing"));
    assert!(st.note(&s("a")).is_none());
    assert_eq!(st.note(&s("b")).unwrap().title, "B");
}

#[test]
fn snapshot_skips_notes_without_state_and_encodes_base64() {
    let mut st = Store::new();
    st.upsert_note(s("a"), s("A"), s(""), s("1"), s("1"), Some(vec![1, 2, 3]));
    st.upsert_note(s("b"), s("B"), s(""), s("1"), s("1"), None);
    st.upsert_note(s("c"), s("C"), s(""), s("1"), s("1"), Some(vec![]));
    let snap = st.all_notes_with_state();
    assert_eq!(snap.len(), 2);
    assert_eq!(snap[0].id, "a");
    assert_eq!(snap[0].crdt_state, "AQID");
    assert_eq!(snap[1].id, "c");
    assert_eq!(snap[1].crdt_state, "");
}

#[test]
fn copies_are_equal() {
    assert_eq!(copy_bytes(&vec![9, 8, 7]), vec![9, 8, 7]);
    assert_eq!(copy_strings(&vec![s("p"), s("q")]), vec![s("p"), s("q")]);
    let d = SyncDeletion { note_id: s("x"), deleted_at: s("1") };
    assert_eq!(d.note_id, "x");
}
