//! The conflict-free document of a note: loading, merging, saving and
//! reading its fields.
use automerge::ReadDoc;
use vstd::prelude::*;
use crate::text::{chrono_now, decimal};

verus! {

#[verifier::external_type_specification]
#[verifier::external_body]
pub struct ExAutoCommit(automerge::AutoCommit);

#[verifier::external_type_specification]
#[verifier::external_body]
pub struct ExAutomergeError(automerge::AutomergeError);

/// Whether `AutoCommit::load` accepts the bytes `b` as a document.
pub uninterp spec fn automerge_loads(b: Seq<u8>) -> bool;

/// The text of the scalar stored under `key` at the root of the document
/// saved as `doc`, as `ReadDoc::get` finds it: a string as it is, another
/// scalar as it displays; `None` where the key is absent or holds an object.
pub uninterp spec fn automerge_field(doc: Seq<u8>, key: Seq<char>) -> Option<Seq<char>>;

/// What `AutoCommit::save` returns for the document loaded from `local`
/// once `AutoCommit::merge` was called on it with the document loaded from
/// `remote`, whatever that call returned.
pub uninterp spec fn automerge_merged(local: Seq<u8>, remote: Seq<u8>) -> Seq<u8>;

/// How a document came about: loaded from saved bytes, or loaded from the
/// first bytes with the document of the second merged in.
pub enum DocOrigin {
    Loaded(Seq<u8>),
    Merged(Seq<u8>, Seq<u8>),
}

/// A conflict-free document, with a record of how it came about.
pub struct Document {
    doc: automerge::AutoCommit,
    origin: Ghost<DocOrigin>,
}

impl Document {
    pub closed spec fn origin(&self) -> DocOrigin {
        self.origin@
    }
}

/// Relies on `automerge::AutoCommit::load`: it parses `bytes` as a saved
/// document; whether it succeeds depends on the bytes alone.
#[verifier::external_body]
fn load_autocommit(bytes: &Vec<u8>) -> (r: Result<automerge::AutoCommit, automerge::AutomergeError>)
    ensures
        r is Ok <==> automerge_loads(bytes@),
{
    automerge::AutoCommit::load(bytes)
}

/// The document saved as `bytes`, or the error where it does not load.
fn load_doc(bytes: &Vec<u8>) -> (r: Result<Document, automerge::AutomergeError>)
    ensures
        r is Ok <==> automerge_loads(bytes@),
        r is Ok ==> r->Ok_0.origin() == DocOrigin::Loaded(bytes@),
{
    match load_autocommit(bytes) {
        Ok(doc) => Ok(Document { doc, origin: Ghost(DocOrigin::Loaded(bytes@)) }),
        Err(e) => Err(e),
    }
}

/// Relies on `automerge::AutoCommit::merge`: applies to `doc` the changes of
/// `other` that it lacks; `other` keeps its contents.
#[verifier::external_body]
fn merge_doc(doc: &mut Document, other: &mut Document) -> (r: Result<(), automerge::AutomergeError>)
    ensures
        (old(doc).origin(), old(other).origin()) matches (DocOrigin::Loaded(l), DocOrigin::Loaded(m))
            ==> final(doc).origin() == DocOrigin::Merged(l, m),
        final(other).origin() == old(other).origin(),
{
    doc.doc.merge(&mut other.doc).map(|_| ())
}

/// Relies on `automerge::AutoCommit::save`: the document in its saved form.
#[verifier::external_body]
fn save_doc(doc: &mut Document) -> (r: Vec<u8>)
    ensures
        old(doc).origin() matches DocOrigin::Merged(l, m) ==> r@ == automerge_merged(l, m),
        final(doc).origin() == old(doc).origin(),
{
    doc.doc.save()
}

/// The contents of an optional string.
pub open spec fn opt_view(v: Option<String>) -> Option<Seq<char>> {
    match v {
        Some(s) => Some(s@),
        None => None,
    }
}

/// Relies on `automerge::ReadDoc::get` at the document root: the text of the
/// scalar stored under `key` (a string as it is, another scalar as it
/// displays), or `None` where the key is absent or holds an object.
#[verifier::external_body]
fn read_field(doc: &Document, key: &str) -> (r: Option<String>)
    ensures
        doc.origin() matches DocOrigin::Loaded(b) ==> opt_view(r) == automerge_field(b, key@),
{
    match doc.doc.get(automerge::ROOT, key) {
        Ok(Some((automerge::Value::Scalar(s), _))) => match s.as_ref() {
            automerge::ScalarValue::Str(t) => Some(t.to_string()),
            other => Some(other.to_string()),
        },
        _ => None,
    }
}

/// Whether reconciliation takes the remote state as it is: there is no local
/// state, the local state is empty, or either side is no loadable document.
pub open spec fn adopts_remote(local: Option<Seq<u8>>, remote: Seq<u8>) -> bool {
    match local {
        None => true,
        Some(l) => l.len() == 0 || !automerge_loads(l) || !automerge_loads(remote),
    }
}

/// The state that a note takes when `remote` arrives and `local` is stored.
pub open spec fn resolved(local: Option<Seq<u8>>, remote: Seq<u8>) -> Seq<u8> {
    if adopts_remote(local, remote) {
        remote
    } else {
        automerge_merged(local->Some_0, remote)
    }
}

/// The state that a note takes when `remote` arrives and `local` is stored:
/// the remote state where `adopts_remote` holds, else the saved merge of the
/// two documents.
pub fn resolve_state(local: Option<&Vec<u8>>, remote: &Vec<u8>) -> (r: Vec<u8>)
    ensures
        r@ == resolved(
            match local {
                Some(l) => Some(l@),
                None => None,
            },
            remote@,
        ),
{
    match local {
        None => crate::store::copy_bytes(remote),
        Some(l) => {
            if l.len() == 0 {
                return crate::store::copy_bytes(remote);
            }
            match (load_doc(l), load_doc(remote)) {
                (Ok(mut local_doc), Ok(mut remote_doc)) => {
                    let _ = merge_doc(&mut local_doc, &mut remote_doc);
                    save_doc(&mut local_doc)
                },
                _ => crate::store::copy_bytes(remote),
            }
        },
    }
}

/// The text of field `key` of the document saved as `state`: empty where
/// the document does not load or the field is absent.
pub open spec fn extracted_text(state: Seq<u8>, key: Seq<char>) -> Seq<char> {
    if automerge_loads(state) {
        match automerge_field(state, key) {
            Some(t) => t,
            None => Seq::empty(),
        }
    } else {
        Seq::empty()
    }
}

/// `t` is the time read from field `key` of `state` where that text is not
/// empty, and otherwise a decimal timestamp of the current time.
pub open spec fn time_from(state: Seq<u8>, key: Seq<char>, t: Seq<char>) -> bool {
    if extracted_text(state, key).len() > 0 {
        t == extracted_text(state, key)
    } else {
        exists|n: nat| t == decimal(n)
    }
}

/// The plain fields of a note as read from its document.
pub struct NoteFields {
    pub title: String,
    pub body: String,
    pub tags: String,
    pub created_at: String,
    pub updated_at: String,
}

/// `v`, or an empty string where it is absent.
fn or_empty(v: Option<String>) -> (r: String)
    ensures
        r@ == match v {
            Some(s) => s@,
            None => Seq::empty(),
        },
{
    match v {
        Some(s) => s,
        None => String::new(),
    }
}

/// `v`, or the current time where it is absent or empty.
fn or_now(v: Option<String>) -> (r: String)
    ensures
        r@.len() > 0,
        (v is Some && v->Some_0@.len() > 0) ==> r@ == v->Some_0@,
        !(v is Some && v->Some_0@.len() > 0) ==> exists|n: nat| r@ == decimal(n),
{
    match v {
        Some(s) => {
            if s.as_str().is_empty() {
                chrono_now()
            } else {
                s
            }
        },
        None => chrono_now(),
    }
}

/// The fields of the document saved as `bytes`, or `None` where it does
/// not load. A missing or empty creation or update time is the current time.
pub fn read_note_from_crdt(bytes: &Vec<u8>) -> (r: Option<NoteFields>)
    ensures
        r is Some <==> automerge_loads(bytes@),
        r matches Some(f) ==> f.title@ == extracted_text(bytes@, "title"@) && f.body@
            == extracted_text(bytes@, "body"@) && f.tags@ == extracted_text(bytes@, "tags"@)
            && time_from(bytes@, "created_at"@, f.created_at@) && time_from(
            bytes@,
            "updated_at"@,
            f.updated_at@,
        ),
        r matches Some(f) ==> f.created_at@.len() > 0 && f.updated_at@.len() > 0,
{
    let doc = match load_doc(bytes) {
        Ok(d) => d,
        Err(_) => return None,
    };
    let title = or_empty(read_field(&doc, "title"));
    let body = or_empty(read_field(&doc, "body"));
    let tags = or_empty(read_field(&doc, "tags"));
    let created_at = or_now(read_field(&doc, "created_at"));
    let updated_at = or_now(read_field(&doc, "updated_at"));
    Some(NoteFields { title, body, tags, created_at, updated_at })
}

/// The fields of the document saved as `bytes`; where it does not load,
/// empty title, body and tags, and the current time as both times.
pub fn extract_fields(bytes: &Vec<u8>) -> (r: NoteFields)
    ensures
        r.title@ == extracted_text(bytes@, "title"@),
        r.body@ == extracted_text(bytes@, "body"@),
        r.tags@ == extracted_text(bytes@, "tags"@),
        time_from(bytes@, "created_at"@, r.created_at@),
        time_from(bytes@, "updated_at"@, r.updated_at@),
        r.created_at@.len() > 0,
        r.updated_at@.len() > 0,
{
    match read_note_from_crdt(bytes) {
        Some(f) => f,
        None => {
            let created_at = chrono_now();
            let updated_at = chrono_now();
            NoteFields {
                title: String::new(),
                body: String::new(),
                tags: String::new(),
                created_at,
                updated_at,
            }
        },
    }
}

} // verus!
