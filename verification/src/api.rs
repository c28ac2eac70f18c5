//! What the store's outcomes look like to a client: notes with their
//! instants written out, and status codes for failures.

use vstd::prelude::*;
use vstd::string::StringSliceAdditionalSpecFns;
use crate::db::DbError;
use crate::models::{tag_texts, Note, NoteRelation, NoteResponse};
use crate::time::rfc3339_text;

verus! {

/// The request was carried out and a resource was made.
pub const STATUS_CREATED: u16 = 201;

/// The request was carried out and there is nothing to send.
pub const STATUS_NO_CONTENT: u16 = 204;

/// The request cannot be served as it stands.
pub const STATUS_BAD_REQUEST: u16 = 400;

/// The resource does not exist.
pub const STATUS_NOT_FOUND: u16 = 404;

/// The service failed.
pub const STATUS_INTERNAL_SERVER_ERROR: u16 = 500;

/// The response that a note stands for, given the texts of its two
/// instants.
pub open spec fn is_response_of(note: Note, out: NoteResponse) -> bool {
    &&& out.id == note.id
    &&& out.content@ == note.content@
    &&& tag_texts(out.tags@) == tag_texts(note.tags@)
    &&& Some(out.created_at@) == rfc3339_text(
        note.created_at.secs as int,
        note.created_at.nanos as int,
    )
    &&& Some(out.updated_at@) == rfc3339_text(
        note.updated_at.secs as int,
        note.updated_at.nanos as int,
    )
}

/// Both instants of the note have an RFC 3339 text.
pub open spec fn has_response(note: Note) -> bool {
    &&& rfc3339_text(note.created_at.secs as int, note.created_at.nanos as int) is Some
    &&& rfc3339_text(note.updated_at.secs as int, note.updated_at.nanos as int) is Some
}

/// Writes a note out for a client. `None` exactly when one of its instants
/// has no RFC 3339 text.
pub fn note_to_response(note: &Note) -> (r: Option<NoteResponse>)
    ensures
        r is Some == has_response(*note),
        r matches Some(out) ==> is_response_of(*note, out),
{
    let created_at = match note.created_at.to_rfc3339() {
        Some(text) => text,
        None => {
            return None;
        },
    };
    let updated_at = match note.updated_at.to_rfc3339() {
        Some(text) => text,
        None => {
            return None;
        },
    };
    let tags = note.tags.clone();
    assert(tag_texts(tags@) =~= tag_texts(note.tags@));
    Some(NoteResponse { id: note.id, content: note.content.clone(), tags, created_at, updated_at })
}

/// Writes notes out for a client, in their order. `None` exactly when one
/// of them has an instant without an RFC 3339 text.
pub fn notes_to_responses(notes: &Vec<Note>) -> (r: Option<Vec<NoteResponse>>)
    ensures
        r is Some == (forall|k: int| 0 <= k < notes@.len() ==> has_response(#[trigger] notes@[k])),
        r matches Some(out) ==> out@.len() == notes@.len() && forall|k: int|
            0 <= k < notes@.len() ==> is_response_of(notes@[k], #[trigger] out@[k]),
{
    let mut out: Vec<NoteResponse> = Vec::new();
    let mut i: usize = 0;
    while i < notes.len()
        invariant
            i <= notes@.len(),
            out@.len() == i,
            forall|k: int| 0 <= k < i ==> has_response(#[trigger] notes@[k]),
            forall|k: int| 0 <= k < i ==> is_response_of(notes@[k], #[trigger] out@[k]),
        decreases notes@.len() - i,
    {
        match note_to_response(&notes[i]) {
            Some(response) => {
                out.push(response);
            },
            None => {
                assert(!has_response(notes@[i as int]));
                return None;
            },
        }
        i = i + 1;
    }
    Some(out)
}

/// The commenting notes of a thread, without the relations that make them
/// comments.
pub fn comment_notes(pairs: Vec<(Note, NoteRelation)>) -> (notes: Vec<Note>)
    ensures
        notes@.len() == pairs@.len(),
        forall|k: int| 0 <= k < pairs@.len() ==> (#[trigger] notes@[k])@ == pairs@[k].0@,
{
    let mut notes: Vec<Note> = Vec::new();
    let mut i: usize = 0;
    while i < pairs.len()
        invariant
            i <= pairs@.len(),
            notes@.len() == i,
            forall|k: int| 0 <= k < i ==> (#[trigger] notes@[k])@ == pairs@[k].0@,
        decreases pairs@.len() - i,
    {
        notes.push(pairs[i].0.clone());
        i = i + 1;
    }
    notes
}

/// The bytes of `needle` stand somewhere in `hay`, one after the other.
pub open spec fn has_run(hay: Seq<u8>, needle: Seq<u8>) -> bool {
    exists|at: int| #[trigger] occurs_at(hay, needle, at)
}

/// The bytes of `needle` stand in `hay` from the place `at` on.
pub open spec fn occurs_at(hay: Seq<u8>, needle: Seq<u8>, at: int) -> bool {
    &&& 0 <= at
    &&& at + needle.len() <= hay.len()
    &&& hay.subrange(at, at + needle.len()) == needle
}

/// Decides whether the bytes of `needle` stand in `hay` from the place `at`
/// on.
fn matches_at(hay: &[u8], needle: &[u8], at: usize) -> (r: bool)
    requires
        at + needle@.len() <= hay@.len(),
    ensures
        r == occurs_at(hay@, needle@, at as int),
{
    let size = hay.len();
    let mut k: usize = 0;
    while k < needle.len()
        invariant
            k <= needle@.len(),
            size == hay@.len(),
            at + needle@.len() <= hay@.len(),
            forall|m: int| 0 <= m < k ==> hay@[at + m] == needle@[m],
        decreases needle@.len() - k,
    {
        if hay[at + k] != needle[k] {
            assert(hay@.subrange(at as int, at + needle@.len())[k as int] != needle@[k as int]);
            return false;
        }
        k = k + 1;
    }
    assert(hay@.subrange(at as int, at + needle@.len()) =~= needle@);
    true
}

/// Decides whether one text holds another, byte for byte.
pub fn contains_text(hay: &str, needle: &str) -> (r: bool)
    ensures
        r == has_run(hay.spec_bytes(), needle.spec_bytes()),
{
    let h = hay.as_bytes();
    let n = needle.as_bytes();
    if n.len() > h.len() {
        assert(forall|at: int| !occurs_at(h@, n@, at));
        return false;
    }
    let last: usize = h.len() - n.len();
    let mut at: usize = 0;
    while at < last
        invariant
            at <= last,
            last == h@.len() - n@.len(),
            h@ == hay.spec_bytes(),
            n@ == needle.spec_bytes(),
            forall|p: int| 0 <= p < at ==> !occurs_at(h@, n@, p),
        decreases last - at,
    {
        if matches_at(h, n, at) {
            assert(occurs_at(h@, n@, at as int));
            return true;
        }
        at = at + 1;
    }
    let found = matches_at(h, n, last);
    assert(found == has_run(h@, n@)) by {
        if found {
            assert(occurs_at(h@, n@, last as int));
        } else {
            assert(forall|p: int| !occurs_at(h@, n@, p));
        }
    }
    found
}

/// The status code that a failure is answered with: 400 where its detail
/// speaks of a missing table, else 404 for a missing note, else 500.
pub open spec fn status_of(kind: DbError, detail: &str) -> u16 {
    if has_run(detail.spec_bytes(), "no such table".spec_bytes()) {
        STATUS_BAD_REQUEST
    } else if kind == DbError::NotFound {
        STATUS_NOT_FOUND
    } else {
        STATUS_INTERNAL_SERVER_ERROR
    }
}

/// Picks the status code for a failure, given its kind and the detail that
/// came with it.
pub fn handle_db_error(kind: DbError, detail: &str) -> (status: u16)
    ensures
        status == status_of(kind, detail),
{
    if contains_text(detail, "no such table") {
        STATUS_BAD_REQUEST
    } else {
        match kind {
            DbError::NotFound => STATUS_NOT_FOUND,
            _ => STATUS_INTERNAL_SERVER_ERROR,
        }
    }
}

/// The status code that answers a deletion: 204 where a note was deleted,
/// 404 where there was none.
pub fn deletion_status(deleted: bool) -> (status: u16)
    ensures
        status == if deleted {
            STATUS_NO_CONTENT
        } else {
            STATUS_NOT_FOUND
        },
{
    if deleted {
        STATUS_NO_CONTENT
    } else {
        STATUS_NOT_FOUND
    }
}

} // verus!
