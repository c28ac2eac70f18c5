//! The note store: creating, reading, replacing and deleting notes.

use vstd::prelude::*;
use crate::db::{apart_from, lemma_position, note_of, other_notes, DbError, Store, StoreView};
use crate::models::{
    tag_texts, tags_or_empty, CreateNotePayload, Note, NoteRelation, NoteRow, NoteView,
    UpdateNotePayload,
};
use crate::seqs::{
    lemma_filter_all, lemma_filter_members, lemma_filter_rising, lemma_remove_is_filter,
};
use crate::tags::{decode_tags, encode_tags, storable, tags_json};
use crate::time::{now, Timestamp};

verus! {

/// Turns a stored row into a note by reading its tag text.
pub fn map_row_to_note(row: &NoteRow) -> (r: Result<Note, DbError>)
    ensures
        match r {
            Ok(note) => note_of(row@) == Some(note@),
            Err(e) => e == DbError::Validation && note_of(row@) is None,
        },
{
    match decode_tags(&row.tags) {
        Some(tags) => Ok(
            Note {
                id: row.id,
                content: row.content.clone(),
                tags,
                created_at: row.created_at,
                updated_at: row.updated_at,
            },
        ),
        None => Err(DbError::Validation),
    }
}

/// Looks a note up by its identifier.
///
/// `Ok(None)` exactly when no such note exists. An existing note is handed
/// out unless its stored tag text cannot be read, which is reported as
/// [`DbError::Validation`].
pub fn get_note_db(store: &Store, note_id: i64) -> (r: Result<Option<Note>, DbError>)
    requires
        store.wf(),
    ensures
        match r {
            Ok(Some(note)) => store@.lookup(note_id as int) matches Some(row) && note_of(row)
                == Some(note@),
            Ok(None) => store@.lookup(note_id as int) is None,
            Err(e) => {
                &&& e == DbError::Validation
                &&& store@.lookup(note_id as int) matches Some(row) && note_of(row) is None
            },
        },
{
    match store.find_note(note_id) {
        Some(i) => {
            match map_row_to_note(&store.notes[i]) {
                Ok(note) => Ok(Some(note)),
                Err(e) => Err(e),
            }
        },
        None => Ok(None),
    }
}

/// The time at which a note is created: the one that the payload names, or
/// else the current one.
pub open spec fn creation_time(named: Option<Timestamp>, current: Timestamp) -> Timestamp {
    match named {
        Some(t) => t,
        None => current,
    }
}

/// What creating a note does, for a given reading of the clock.
///
/// The note is stored exactly when its tag list can be stored and an
/// identifier is left. Otherwise the store stays as it was: an unstorable
/// tag list is reported as [`DbError::Validation`], used-up identifiers as
/// [`DbError::Internal`].
pub open spec fn creates_note(
    before: StoreView,
    content: Seq<char>,
    tags: Seq<Seq<char>>,
    at: Timestamp,
    after: StoreView,
    r: Result<Note, DbError>,
) -> bool {
    match r {
        Ok(note) => {
            &&& storable(tags)
            &&& before.last_note_id < i64::MAX
            &&& after == before.with_note(content, tags_json(tags).unwrap(), at)
            &&& note@ == NoteView {
                id: before.next_note_id(),
                content,
                tags,
                created_at: at,
                updated_at: at,
            }
        },
        Err(e) => {
            &&& after == before
            &&& e == if !storable(tags) {
                DbError::Validation
            } else {
                DbError::Internal
            }
            &&& !storable(tags) || before.last_note_id == i64::MAX
        },
    }
}

/// Adding a note keeps the store well formed.
pub proof fn lemma_with_note_wf(s: StoreView, content: Seq<char>, tags: Seq<char>, at: Timestamp)
    requires
        s.wf(),
        s.last_note_id < i64::MAX,
    ensures
        s.with_note(content, tags, at).wf(),
{
    let t = s.with_note(content, tags, at);
    assert forall|i: int| 0 <= i < t.relations.len() implies {
        &&& t.has_note((#[trigger] t.relations[i]).source_note_id as int)
        &&& t.has_note(t.relations[i].target_note_id as int)
    } by {
        let a = s.position(s.relations[i].source_note_id as int);
        let b = s.position(s.relations[i].target_note_id as int);
        assert(s.has_note(s.relations[i].source_note_id as int));
        assert(s.has_note(s.relations[i].target_note_id as int));
        assert(t.notes[a].id == s.relations[i].source_note_id);
        assert(t.notes[b].id == s.relations[i].target_note_id);
    }
}

/// Creates a note at the time that the payload names, or else at `current`.
pub fn create_note_at(store: &mut Store, payload: CreateNotePayload, current: Timestamp) -> (r:
    Result<Note, DbError>)
    requires
        old(store).wf(),
    ensures
        final(store).wf(),
        creates_note(
            old(store)@,
            payload.content@,
            tags_or_empty(payload.tags),
            creation_time(payload.created_at, current),
            final(store)@,
            r,
        ),
{
    let created_at = match payload.created_at {
        Some(t) => t,
        None => current,
    };
    let tags = match payload.tags {
        Some(t) => t,
        None => Vec::new(),
    };
    assert(tag_texts(tags@) =~= tags_or_empty(payload.tags));
    let text = match encode_tags(&tags) {
        Some(text) => text,
        None => {
            return Err(DbError::Validation);
        },
    };
    if store.last_note_id == i64::MAX {
        return Err(DbError::Internal);
    }
    let id = store.last_note_id + 1;
    let row = NoteRow {
        id,
        content: payload.content.clone(),
        tags: text,
        created_at,
        updated_at: created_at,
    };
    proof {
        lemma_with_note_wf(old(store)@, payload.content@, row.tags@, created_at);
    }
    store.notes.push(row);
    store.last_note_id = id;
    assert(store@.notes =~= old(store)@.with_note(payload.content@, text@, created_at).notes);
    Ok(Note { id, content: payload.content, tags, created_at, updated_at: created_at })
}

/// Creates a note. Where the payload names no creation time, the clock is
/// read, and the note that comes back tells what it showed.
pub fn create_note_db(store: &mut Store, payload: CreateNotePayload) -> (r: Result<Note, DbError>)
    requires
        old(store).wf(),
    ensures
        final(store).wf(),
        r matches Ok(note) ==> creates_note(
            old(store)@,
            payload.content@,
            tags_or_empty(payload.tags),
            note.created_at,
            final(store)@,
            r,
        ),
        r matches Ok(note) ==> (payload.created_at matches Some(t) ==> note.created_at == t),
        r is Err ==> forall|at: Timestamp|
            creates_note(
                old(store)@,
                payload.content@,
                tags_or_empty(payload.tags),
                at,
                final(store)@,
                r,
            ),
        r is Ok <==> storable(tags_or_empty(payload.tags)) && old(store)@.last_note_id < i64::MAX,
{
    let current = now();
    create_note_at(store, payload, current)
}

/// Deleting a note keeps the store well formed, and the note is gone.
pub proof fn lemma_without_note_wf(s: StoreView, id: int)
    requires
        s.wf(),
    ensures
        s.without_note(id).wf(),
        !s.without_note(id).has_note(id),
        !s.has_note(id) ==> s.without_note(id) == s,
        s.has_note(id) ==> s.without_note(id).notes == s.notes.remove(s.position(id)),
{
    let t = s.without_note(id);
    lemma_filter_members(s.notes, other_notes(id));
    lemma_filter_members(s.relations, apart_from(id));
    lemma_filter_rising(s.relations, apart_from(id), |e: NoteRelation| e.id as int);
    if s.has_note(id) {
        let p = s.position(id);
        assert forall|k: int| 0 <= k < s.notes.len() && k != p implies other_notes(id)(
            #[trigger] s.notes[k],
        ) by {
            if k < p {
                assert(s.notes[k].id < s.notes[p].id);
            } else {
                assert(s.notes[p].id < s.notes[k].id);
            }
        }
        lemma_remove_is_filter(s.notes, p, other_notes(id));
        assert(t.notes == s.notes.remove(p));
        assert forall|i: int| 0 <= i < t.relations.len() implies {
            &&& t.has_note((#[trigger] t.relations[i]).source_note_id as int)
            &&& t.has_note(t.relations[i].target_note_id as int)
        } by {
            let e = t.relations[i];
            assert(s.relations.contains(e));
            let k = choose|k: int| 0 <= k < s.relations.len() && s.relations[k] == e;
            assert(s.has_note(s.relations[k].source_note_id as int));
            assert(s.has_note(s.relations[k].target_note_id as int));
            let a = s.position(e.source_note_id as int);
            let b = s.position(e.target_note_id as int);
            assert(a != p && b != p);
            let a2 = if a < p { a } else { a - 1 };
            let b2 = if b < p { b } else { b - 1 };
            assert(t.notes[a2].id == e.source_note_id);
            assert(t.notes[b2].id == e.target_note_id);
        }
        assert forall|i: int| 0 <= i < t.relations.len() implies 1 <= (
        #[trigger] t.relations[i]).id <= t.last_relation_id by {
            let e = t.relations[i];
            assert(s.relations.contains(e));
            let k = choose|k: int| 0 <= k < s.relations.len() && s.relations[k] == e;
            assert(1 <= s.relations[k].id <= s.last_relation_id);
        }
        assert(t.wf());
    } else {
        assert forall|k: int| 0 <= k < s.notes.len() implies other_notes(id)(
            #[trigger] s.notes[k],
        ) by {
            if s.notes[k].id == id {
                assert(s.has_note(id));
            }
        }
        lemma_filter_all(s.notes, other_notes(id));
        assert forall|k: int| 0 <= k < s.relations.len() implies apart_from(id)(
            #[trigger] s.relations[k],
        ) by {
            assert(s.has_note(s.relations[k].source_note_id as int));
            assert(s.has_note(s.relations[k].target_note_id as int));
        }
        lemma_filter_all(s.relations, apart_from(id));
        assert(t == s);
    }
    if t.has_note(id) {
        let q = t.position(id);
        assert(other_notes(id)(t.notes[q]));
    }
}

/// Deletes a note, and with it every relation that names it as source or
/// as target. Says whether there was such a note; deleting a note that does
/// not exist changes nothing.
pub fn delete_note_db(store: &mut Store, note_id: i64) -> (r: Result<bool, DbError>)
    requires
        old(store).wf(),
    ensures
        final(store).wf(),
        r == Ok::<bool, DbError>(old(store)@.has_note(note_id as int)),
        final(store)@ == old(store)@.without_note(note_id as int),
        !final(store)@.has_note(note_id as int),
{
    proof {
        lemma_without_note_wf(old(store)@, note_id as int);
    }
    let found = store.find_note(note_id);
    let at = match found {
        Some(i) => i,
        None => {
            return Ok(false);
        },
    };
    store.notes.remove(at);
    assert(store@.notes =~= old(store)@.notes.remove(at as int));
    let ghost all = old(store)@.relations;
    let ghost keep = apart_from(note_id as int);
    let mut kept: Vec<NoteRelation> = Vec::new();
    let mut k: usize = 0;
    assert(all.take(0).filter(keep) =~= Seq::<NoteRelation>::empty()) by {
        reveal(Seq::filter);
    }
    while k < store.relations.len()
        invariant
            store.relations@ == all,
            keep == apart_from(note_id as int),
            k <= all.len(),
            kept@ == all.take(k as int).filter(keep),
        decreases all.len() - k,
    {
        let e = store.relations[k];
        proof {
            reveal(Seq::filter);
            assert(all.take(k + 1).drop_last() =~= all.take(k as int));
            assert(all.take(k + 1).last() == e);
        }
        if e.source_note_id != note_id && e.target_note_id != note_id {
            kept.push(e);
        }
        k = k + 1;
    }
    assert(all.take(all.len() as int) =~= all);
    store.relations = kept;
    Ok(true)
}

/// What replacing a note's content and tags does, for a given reading of
/// the clock.
///
/// A tag list that cannot be stored is reported as [`DbError::Validation`],
/// whether the note exists or not. Otherwise `Ok(None)` says that there is
/// no such note, and `Ok(Some(..))` hands out the note as it now stands. The
/// store changes in the last case only.
pub open spec fn updates_note(
    before: StoreView,
    id: int,
    content: Seq<char>,
    tags: Seq<Seq<char>>,
    current: Timestamp,
    after: StoreView,
    r: Result<Option<Note>, DbError>,
) -> bool {
    match r {
        Ok(Some(note)) => {
            &&& storable(tags)
            &&& before.lookup(id) matches Some(row) && note@ == NoteView {
                id,
                content,
                tags,
                created_at: row.created_at,
                updated_at: current.later_of(row.created_at),
            }
            &&& after == before.with_update(id, content, tags_json(tags).unwrap(), current)
        },
        Ok(None) => {
            &&& storable(tags)
            &&& !before.has_note(id)
            &&& after == before
        },
        Err(e) => {
            &&& e == DbError::Validation
            &&& !storable(tags)
            &&& after == before
        },
    }
}

/// Replacing a note's content and tags keeps the store well formed.
pub proof fn lemma_with_update_wf(
    s: StoreView,
    id: int,
    content: Seq<char>,
    tags: Seq<char>,
    current: Timestamp,
)
    requires
        s.wf(),
        s.has_note(id),
    ensures
        s.with_update(id, content, tags, current).wf(),
        s.with_update(id, content, tags, current).notes.len() == s.notes.len(),
        forall|i: int|
            0 <= i < s.notes.len() ==> (#[trigger] s.with_update(
                id,
                content,
                tags,
                current,
            ).notes[i]).id == s.notes[i].id,
{
    let t = s.with_update(id, content, tags, current);
    let p = s.position(id);
    assert forall|i: int| 0 <= i < t.notes.len() implies (#[trigger] t.notes[i]).id
        == s.notes[i].id by {}
    assert forall|i: int| 0 <= i < t.relations.len() implies {
        &&& t.has_note((#[trigger] t.relations[i]).source_note_id as int)
        &&& t.has_note(t.relations[i].target_note_id as int)
    } by {
        let a = s.position(s.relations[i].source_note_id as int);
        let b = s.position(s.relations[i].target_note_id as int);
        assert(s.has_note(s.relations[i].source_note_id as int));
        assert(s.has_note(s.relations[i].target_note_id as int));
        assert(t.notes[a].id == s.relations[i].source_note_id);
        assert(t.notes[b].id == s.relations[i].target_note_id);
    }
    assert forall|i: int, j: int| 0 <= i < j < t.notes.len() implies #[trigger] t.notes[i].id
        < #[trigger] t.notes[j].id by {
        assert(s.notes[i].id < s.notes[j].id);
    }
    assert forall|i: int| 0 <= i < t.notes.len() implies 1 <= #[trigger] t.notes[i].id
        <= t.last_note_id by {
        assert(1 <= s.notes[i].id <= s.last_note_id);
    }
    assert forall|i: int| 0 <= i < t.notes.len() implies !(#[trigger] t.notes[i]).updated_at.is_before(
        t.notes[i].created_at,
    ) by {
        if i != p {
            assert(!s.notes[i].updated_at.is_before(s.notes[i].created_at));
        }
    }
}

/// Replaces the content and the tags of a note, at the time `current`.
pub fn update_note_at(
    store: &mut Store,
    note_id: i64,
    payload: UpdateNotePayload,
    current: Timestamp,
) -> (r: Result<Option<Note>, DbError>)
    requires
        old(store).wf(),
    ensures
        final(store).wf(),
        updates_note(
            old(store)@,
            note_id as int,
            payload.content@,
            tags_or_empty(payload.tags),
            current,
            final(store)@,
            r,
        ),
{
    let tags = match payload.tags {
        Some(t) => t,
        None => Vec::new(),
    };
    assert(tag_texts(tags@) =~= tags_or_empty(payload.tags));
    let text = match encode_tags(&tags) {
        Some(text) => text,
        None => {
            return Err(DbError::Validation);
        },
    };
    let at = match store.find_note(note_id) {
        Some(i) => i,
        None => {
            return Ok(None);
        },
    };
    let created_at = store.notes[at].created_at;
    let updated_at = current.later(created_at);
    let row = NoteRow {
        id: note_id,
        content: payload.content.clone(),
        tags: text,
        created_at,
        updated_at,
    };
    proof {
        lemma_with_update_wf(old(store)@, note_id as int, payload.content@, row.tags@, current);
    }
    store.notes.set(at, row);
    assert(store@.notes =~= old(store)@.with_update(
        note_id as int,
        payload.content@,
        text@,
        current,
    ).notes);
    Ok(Some(Note { id: note_id, content: payload.content, tags, created_at, updated_at }))
}

/// Replaces the content and the tags of a note. The clock is read for the
/// update time, and the note that comes back tells what it showed.
pub fn update_note_db(store: &mut Store, note_id: i64, payload: UpdateNotePayload) -> (r: Result<
    Option<Note>,
    DbError,
>)
    requires
        old(store).wf(),
    ensures
        final(store).wf(),
        exists|current: Timestamp|
            updates_note(
                old(store)@,
                note_id as int,
                payload.content@,
                tags_or_empty(payload.tags),
                current,
                final(store)@,
                r,
            ),
        r is Err <==> !storable(tags_or_empty(payload.tags)),
        r matches Ok(found) ==> found is Some == old(store)@.has_note(note_id as int),
        r matches Ok(Some(note)) ==> {
            &&& note@.id == note_id
            &&& note@.content == payload.content@
            &&& note@.tags == tags_or_empty(payload.tags)
            &&& final(store)@.lookup(note_id as int) matches Some(row) && note_of(row) == Some(
                note@,
            )
        },
        !(r matches Ok(Some(_))) ==> final(store)@ == old(store)@,
{
    let current = now();
    let r = update_note_at(store, note_id, payload, current);
    proof {
        if r matches Ok(Some(_)) {
            let p = old(store)@.position(note_id as int);
            lemma_with_update_wf(
                old(store)@,
                note_id as int,
                payload.content@,
                tags_json(tags_or_empty(payload.tags)).unwrap(),
                current,
            );
            assert(store@.notes[p].id == note_id);
            lemma_position(store@, p);
        }
    }
    r
}

} // verus!
