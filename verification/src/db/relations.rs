//! The relation graph: typed, directed edges between existing notes.

use vstd::prelude::*;
use crate::db::{DbError, Store, StoreView};
use crate::models::{CreateNoteRelationPayload, NoteRelation, NoteRelationType};
use crate::time::{now, Timestamp};

verus! {

/// Turns the stored fields of a relation into a relation by reading the
/// name of its kind. A name that stands for no kind is reported as
/// [`DbError::Validation`].
pub fn map_row_to_relation(
    id: i64,
    source_note_id: i64,
    target_note_id: i64,
    relation_type: &str,
    created_at: Timestamp,
) -> (r: Result<NoteRelation, DbError>)
    ensures
        match r {
            Ok(e) => {
                &&& e.relation_type.name() == relation_type@
                &&& e == NoteRelation {
                    id,
                    source_note_id,
                    target_note_id,
                    relation_type: e.relation_type,
                    created_at,
                }
            },
            Err(err) => {
                &&& err == DbError::Validation
                &&& forall|kind: NoteRelationType| #[trigger] kind.name() != relation_type@
            },
        },
{
    match NoteRelationType::parse(relation_type) {
        Some(kind) => Ok(
            NoteRelation { id, source_note_id, target_note_id, relation_type: kind, created_at },
        ),
        None => Err(DbError::Validation),
    }
}

/// What relating two notes does, for a given reading of the clock.
///
/// The relation is stored exactly when both notes exist and an identifier
/// is left. Otherwise the store stays as it was: a missing note is reported
/// as [`DbError::NotFound`], used-up identifiers as [`DbError::Internal`].
pub open spec fn relates_notes(
    before: StoreView,
    source: i64,
    target: i64,
    kind: NoteRelationType,
    at: Timestamp,
    after: StoreView,
    r: Result<NoteRelation, DbError>,
) -> bool {
    let both = before.has_note(source as int) && before.has_note(target as int);
    match r {
        Ok(e) => {
            &&& both
            &&& before.last_relation_id < i64::MAX
            &&& after == before.with_relation(source, target, kind, at)
            &&& e == NoteRelation {
                id: before.next_relation_id() as i64,
                source_note_id: source,
                target_note_id: target,
                relation_type: kind,
                created_at: at,
            }
        },
        Err(err) => {
            &&& after == before
            &&& err == if !both {
                DbError::NotFound
            } else {
                DbError::Internal
            }
            &&& !both || before.last_relation_id == i64::MAX
        },
    }
}

/// Adding a relation between two existing notes keeps the store well formed.
pub proof fn lemma_with_relation_wf(
    s: StoreView,
    source: i64,
    target: i64,
    kind: NoteRelationType,
    at: Timestamp,
)
    requires
        s.wf(),
        s.has_note(source as int),
        s.has_note(target as int),
        s.last_relation_id < i64::MAX,
    ensures
        s.with_relation(source, target, kind, at).wf(),
{
    let t = s.with_relation(source, target, kind, at);
    assert forall|i: int| 0 <= i < t.relations.len() implies {
        &&& t.has_note((#[trigger] t.relations[i]).source_note_id as int)
        &&& t.has_note(t.relations[i].target_note_id as int)
    } by {
        let e = t.relations[i];
        if i < s.relations.len() {
            assert(s.has_note(s.relations[i].source_note_id as int));
            assert(s.has_note(s.relations[i].target_note_id as int));
        }
        let a = s.position(e.source_note_id as int);
        let b = s.position(e.target_note_id as int);
        assert(t.notes[a].id == e.source_note_id);
        assert(t.notes[b].id == e.target_note_id);
    }
    assert forall|i: int, j: int| 0 <= i < j < t.relations.len() implies (
    #[trigger] t.relations[i]).id < (#[trigger] t.relations[j]).id by {
        if j < s.relations.len() {
            assert(s.relations[i].id < s.relations[j].id);
        } else {
            assert(s.relations[i].id <= s.last_relation_id);
        }
    }
}

/// Relates two notes, at the time `current`.
pub fn create_note_relation_at(
    store: &mut Store,
    source_note_id: i64,
    target_note_id: i64,
    payload: CreateNoteRelationPayload,
    current: Timestamp,
) -> (r: Result<NoteRelation, DbError>)
    requires
        old(store).wf(),
    ensures
        final(store).wf(),
        relates_notes(
            old(store)@,
            source_note_id,
            target_note_id,
            payload.relation_type,
            current,
            final(store)@,
            r,
        ),
{
    let source_exists = store.find_note(source_note_id).is_some();
    let target_exists = store.find_note(target_note_id).is_some();
    if !source_exists || !target_exists {
        return Err(DbError::NotFound);
    }
    if store.last_relation_id == i64::MAX {
        return Err(DbError::Internal);
    }
    let id = store.last_relation_id + 1;
    let relation = NoteRelation {
        id,
        source_note_id,
        target_note_id,
        relation_type: payload.relation_type,
        created_at: current,
    };
    proof {
        lemma_with_relation_wf(
            old(store)@,
            source_note_id,
            target_note_id,
            payload.relation_type,
            current,
        );
    }
    store.relations.push(relation);
    store.last_relation_id = id;
    Ok(relation)
}

/// Relates two notes. The clock is read for the creation time, and the
/// relation that comes back tells what it showed.
///
/// Where either note is missing, the outcome is [`DbError::NotFound`] and no
/// relation is stored.
pub fn create_note_relation_db(
    store: &mut Store,
    source_note_id: i64,
    target_note_id: i64,
    payload: CreateNoteRelationPayload,
) -> (r: Result<NoteRelation, DbError>)
    requires
        old(store).wf(),
    ensures
        final(store).wf(),
        r matches Ok(e) ==> relates_notes(
            old(store)@,
            source_note_id,
            target_note_id,
            payload.relation_type,
            e.created_at,
            final(store)@,
            r,
        ),
        r is Err ==> forall|at: Timestamp|
            relates_notes(
                old(store)@,
                source_note_id,
                target_note_id,
                payload.relation_type,
                at,
                final(store)@,
                r,
            ),
        r is Ok <==> old(store)@.has_note(source_note_id as int) && old(store)@.has_note(
            target_note_id as int,
        ) && old(store)@.last_relation_id < i64::MAX,
        !old(store)@.has_note(source_note_id as int) || !old(store)@.has_note(
            target_note_id as int,
        ) ==> r == Err::<NoteRelation, DbError>(DbError::NotFound) && final(store)@ == old(store)@,
{
    let current = now();
    create_note_relation_at(store, source_note_id, target_note_id, payload, current)
}

} // verus!
