//! Comments: a note and the relation that makes it a comment, stored as
//! one unit.

use vstd::prelude::*;
use crate::db::{create_note_at, create_note_relation_at, DbError, Store, StoreView};
use crate::models::{
    tags_or_empty, CreateCommentPayload, CreateNotePayload, CreateNoteRelationPayload, Note,
    NoteRelation, NoteRelationType, NoteRowView, NoteView,
};
use crate::tags::{storable, tags_json};
use crate::time::{now, Timestamp};

verus! {

/// What commenting on a note does, for a given reading of the clock.
///
/// The comment is one unit: a new note, and a relation of kind
/// [`NoteRelationType::Comment`] from it to the target. Both are stored, or
/// neither is. They are stored exactly when the target exists, the tag list
/// can be stored, and an identifier of each kind is left. A missing target
/// is reported as [`DbError::NotFound`], an unstorable tag list as
/// [`DbError::Validation`], used-up identifiers as [`DbError::Internal`].
pub open spec fn adds_comment(
    before: StoreView,
    target: i64,
    content: Seq<char>,
    tags: Seq<Seq<char>>,
    at: Timestamp,
    after: StoreView,
    r: Result<(Note, NoteRelation), DbError>,
) -> bool {
    let room = before.last_note_id < i64::MAX && before.last_relation_id < i64::MAX;
    match r {
        Ok((note, edge)) => {
            &&& before.has_note(target as int)
            &&& storable(tags)
            &&& room
            &&& after == before.with_note(content, tags_json(tags).unwrap(), at).with_relation(
                before.next_note_id() as i64,
                target,
                NoteRelationType::Comment,
                at,
            )
            &&& note@ == NoteView {
                id: before.next_note_id(),
                content,
                tags,
                created_at: at,
                updated_at: at,
            }
            &&& edge == NoteRelation {
                id: before.next_relation_id() as i64,
                source_note_id: before.next_note_id() as i64,
                target_note_id: target,
                relation_type: NoteRelationType::Comment,
                created_at: at,
            }
        },
        Err(e) => {
            &&& after == before
            &&& e == if !before.has_note(target as int) {
                DbError::NotFound
            } else if !storable(tags) {
                DbError::Validation
            } else {
                DbError::Internal
            }
            &&& !before.has_note(target as int) || !storable(tags) || !room
        },
    }
}

impl Store {
    /// Takes back the note that was added last, as if it had never been
    /// added.
    fn undo_last_note(&mut self, Ghost(before): Ghost<StoreView>, Ghost(row): Ghost<NoteRowView>)
        requires
            before.wf(),
            before.last_note_id < i64::MAX,
            row.id == before.next_note_id(),
            old(self)@ == (StoreView {
                notes: before.notes.push(row),
                last_note_id: before.next_note_id(),
                ..before
            }),
        ensures
            final(self)@ == before,
    {
        assert(old(self)@.notes.len() == before.notes.len() + 1);
        self.notes.pop();
        self.last_note_id = self.last_note_id - 1;
        assert forall|i: int| 0 <= i < before.notes.len() implies self@.notes[i]
            == before.notes[i] by {
            assert(old(self)@.notes[i] == before.notes.push(row)[i]);
        }
        assert(self@.notes =~= before.notes);
    }
}

/// Comments on a note, at the time `current`.
pub fn add_comment_at(
    store: &mut Store,
    target_note_id: i64,
    payload: CreateCommentPayload,
    current: Timestamp,
) -> (r: Result<(Note, NoteRelation), DbError>)
    requires
        old(store).wf(),
    ensures
        final(store).wf(),
        adds_comment(
            old(store)@,
            target_note_id,
            payload.content@,
            tags_or_empty(payload.tags),
            current,
            final(store)@,
            r,
        ),
{
    if store.find_note(target_note_id).is_none() {
        return Err(DbError::NotFound);
    }
    let note_payload = CreateNotePayload {
        content: payload.content,
        tags: payload.tags,
        created_at: Some(current),
    };
    let note = match create_note_at(store, note_payload, current) {
        Ok(note) => note,
        Err(e) => {
            return Err(e);
        },
    };
    let ghost middle = store@;
    proof {
        let p = old(store)@.position(target_note_id as int);
        assert(middle.notes[p].id == target_note_id);
        assert(middle.notes[middle.notes.len() - 1].id == note.id);
    }
    let edge_payload = CreateNoteRelationPayload { relation_type: NoteRelationType::Comment };
    match create_note_relation_at(store, note.id, target_note_id, edge_payload, current) {
        Ok(edge) => Ok((note, edge)),
        Err(e) => {
            store.undo_last_note(Ghost(old(store)@), Ghost(middle.notes.last()));
            Err(e)
        },
    }
}

/// Comments on a note. The clock is read for the creation time, and the
/// note that comes back tells what it showed.
///
/// Whenever the outcome is an error, the store is as it was before: no
/// note stays behind without its relation.
pub fn add_comment_db(store: &mut Store, target_note_id: i64, payload: CreateCommentPayload) -> (r:
    Result<(Note, NoteRelation), DbError>)
    requires
        old(store).wf(),
    ensures
        final(store).wf(),
        r matches Ok(pair) ==> adds_comment(
            old(store)@,
            target_note_id,
            payload.content@,
            tags_or_empty(payload.tags),
            pair.0.created_at,
            final(store)@,
            r,
        ),
        r is Err ==> forall|at: Timestamp|
            adds_comment(
                old(store)@,
                target_note_id,
                payload.content@,
                tags_or_empty(payload.tags),
                at,
                final(store)@,
                r,
            ),
        r is Ok <==> old(store)@.has_note(target_note_id as int) && storable(
            tags_or_empty(payload.tags),
        ) && old(store)@.last_note_id < i64::MAX && old(store)@.last_relation_id < i64::MAX,
        r is Err ==> final(store)@ == old(store)@,
        !old(store)@.has_note(target_note_id as int) ==> r == Err::<(Note, NoteRelation), DbError>(
            DbError::NotFound,
        ),
{
    let current = now();
    add_comment_at(store, target_note_id, payload, current)
}

} // verus!
