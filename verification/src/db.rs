//! The store: note rows and relation rows, and the operations on them.

use vstd::prelude::*;
use crate::models::{row_views, NoteRelation, NoteRelationType, NoteRow, NoteRowView, NoteView};
use crate::tags::parsed_tags;
use crate::time::Timestamp;

mod comments;
mod notes;
mod relations;

pub use crate::listing::{get_comments_for_note_db, get_notes_db, get_relations_for_note_db};
pub use crate::tag_index::{get_all_tags_db, get_detailed_tags_db};
pub use comments::{add_comment_at, add_comment_db, adds_comment};
pub use notes::{
    create_note_at, create_note_db, creates_note, creation_time, delete_note_db, get_note_db,
    lemma_with_note_wf, lemma_with_update_wf, lemma_without_note_wf, map_row_to_note,
    update_note_at, update_note_db, updates_note,
};
pub use relations::{
    create_note_relation_at, create_note_relation_db, lemma_with_relation_wf,
    map_row_to_relation, relates_notes,
};

verus! {

/// Why an operation on the store did not go through.
#[derive(Clone, Copy, Debug, PartialEq, Eq, Structural)]
pub enum DbError {
    /// A note that the operation names does not exist.
    NotFound,
    /// A tag list cannot be stored, or stored tag text cannot be read.
    Validation,
    /// The store cannot take the row: its identifiers are used up.
    Internal,
}

/// The note that a stored row stands for, or `None` where its tag text does
/// not read as a list of strings.
pub open spec fn note_of(row: NoteRowView) -> Option<NoteView> {
    match parsed_tags(row.tags) {
        Some(tags) => Some(
            NoteView {
                id: row.id,
                content: row.content,
                tags,
                created_at: row.created_at,
                updated_at: row.updated_at,
            },
        ),
        None => None,
    }
}

/// The mathematical value of a [`Store`]: its rows in the order of their
/// identifiers, and the last identifier given out of each kind.
pub ghost struct StoreView {
    pub notes: Seq<NoteRowView>,
    pub relations: Seq<NoteRelation>,
    pub last_note_id: int,
    pub last_relation_id: int,
}

impl StoreView {
    /// A note with this identifier exists.
    pub open spec fn has_note(self, id: int) -> bool {
        exists|i: int| 0 <= i < self.notes.len() && #[trigger] self.notes[i].id == id
    }

    /// Where the note with this identifier stands among the rows.
    pub open spec fn position(self, id: int) -> int {
        choose|i: int| 0 <= i < self.notes.len() && #[trigger] self.notes[i].id == id
    }

    /// The row of the note with this identifier, if there is one.
    pub open spec fn lookup(self, id: int) -> Option<NoteRowView> {
        if self.has_note(id) {
            Some(self.notes[self.position(id)])
        } else {
            None
        }
    }

    /// The invariant of the store: identifiers are positive, unique, given
    /// out in rising order and never above the last one given out; no note
    /// was updated before it was created; and both ends of every relation
    /// exist.
    pub open spec fn wf(self) -> bool {
        &&& 0 <= self.last_note_id <= i64::MAX
        &&& 0 <= self.last_relation_id <= i64::MAX
        &&& forall|i: int|
            0 <= i < self.notes.len() ==> 1 <= #[trigger] self.notes[i].id <= self.last_note_id
        &&& forall|i: int, j: int|
            0 <= i < j < self.notes.len() ==> #[trigger] self.notes[i].id
                < #[trigger] self.notes[j].id
        &&& forall|i: int|
            0 <= i < self.notes.len() ==> !(#[trigger] self.notes[i]).updated_at.is_before(
                self.notes[i].created_at,
            )
        &&& forall|i: int|
            0 <= i < self.relations.len() ==> 1 <= #[trigger] self.relations[i].id
                <= self.last_relation_id
        &&& forall|i: int, j: int|
            0 <= i < j < self.relations.len() ==> #[trigger] self.relations[i].id
                < #[trigger] self.relations[j].id
        &&& forall|i: int|
            0 <= i < self.relations.len() ==> {
                &&& self.has_note((#[trigger] self.relations[i]).source_note_id as int)
                &&& self.has_note(self.relations[i].target_note_id as int)
            }
    }

    /// The identifier that the next note gets.
    pub open spec fn next_note_id(self) -> int {
        self.last_note_id + 1
    }

    /// The store after a note with the given content, tag text and creation
    /// time was added.
    pub open spec fn with_note(self, content: Seq<char>, tags: Seq<char>, at: Timestamp) -> StoreView {
        StoreView {
            notes: self.notes.push(
                NoteRowView {
                    id: self.next_note_id(),
                    content,
                    tags,
                    created_at: at,
                    updated_at: at,
                },
            ),
            last_note_id: self.next_note_id(),
            ..self
        }
    }

    /// The store after the content and the tag text of the note with this
    /// identifier were replaced at the time `current`. The note's update time
    /// becomes `current`, or stays at its creation time should the clock
    /// stand before that.
    pub open spec fn with_update(
        self,
        id: int,
        content: Seq<char>,
        tags: Seq<char>,
        current: Timestamp,
    ) -> StoreView {
        let p = self.position(id);
        let row = self.notes[p];
        StoreView {
            notes: self.notes.update(
                p,
                NoteRowView {
                    content,
                    tags,
                    updated_at: current.later_of(row.created_at),
                    ..row
                },
            ),
            ..self
        }
    }

    /// The identifier that the next relation gets.
    pub open spec fn next_relation_id(self) -> int {
        self.last_relation_id + 1
    }

    /// The store after a relation of the given kind from `source` to
    /// `target` was added.
    pub open spec fn with_relation(
        self,
        source: i64,
        target: i64,
        kind: NoteRelationType,
        at: Timestamp,
    ) -> StoreView {
        StoreView {
            relations: self.relations.push(
                NoteRelation {
                    id: self.next_relation_id() as i64,
                    source_note_id: source,
                    target_note_id: target,
                    relation_type: kind,
                    created_at: at,
                },
            ),
            last_relation_id: self.next_relation_id(),
            ..self
        }
    }

    /// The store after the note with this identifier was deleted, together
    /// with every relation that names it as source or as target.
    pub open spec fn without_note(self, id: int) -> StoreView {
        StoreView {
            notes: self.notes.filter(other_notes(id)),
            relations: self.relations.filter(apart_from(id)),
            ..self
        }
    }
}

/// Holds of the rows of all notes but the one with this identifier.
pub open spec fn other_notes(id: int) -> spec_fn(NoteRowView) -> bool {
    |row: NoteRowView| row.id != id
}

/// Holds of the relations that name the note with this identifier neither
/// as source nor as target.
pub open spec fn apart_from(id: int) -> spec_fn(NoteRelation) -> bool {
    |e: NoteRelation| e.source_note_id != id && e.target_note_id != id
}

/// In a well-formed store a note's identifier fixes where its row stands.
pub proof fn lemma_position(s: StoreView, i: int)
    requires
        s.wf(),
        0 <= i < s.notes.len(),
    ensures
        s.has_note(s.notes[i].id),
        s.position(s.notes[i].id) == i,
        s.lookup(s.notes[i].id) == Some(s.notes[i]),
{
    let id = s.notes[i].id;
    let p = s.position(id);
    assert(0 <= p < s.notes.len() && s.notes[p].id == id);
    if p < i {
        assert(s.notes[p].id < s.notes[i].id);
    }
    if i < p {
        assert(s.notes[i].id < s.notes[p].id);
    }
}

/// The notes and the relations between them.
pub struct Store {
    notes: Vec<NoteRow>,
    relations: Vec<NoteRelation>,
    last_note_id: i64,
    last_relation_id: i64,
}

impl View for Store {
    type V = StoreView;

    closed spec fn view(&self) -> StoreView {
        StoreView {
            notes: row_views(self.notes@),
            relations: self.relations@,
            last_note_id: self.last_note_id as int,
            last_relation_id: self.last_relation_id as int,
        }
    }
}

impl Store {
    /// The store's invariant holds.
    pub open spec fn wf(&self) -> bool {
        self@.wf()
    }

    /// An empty store that has given out no identifier yet.
    pub fn new() -> (r: Store)
        ensures
            r.wf(),
            r@.notes.len() == 0,
            r@.relations.len() == 0,
            r@.last_note_id == 0,
            r@.last_relation_id == 0,
    {
        Store { notes: Vec::new(), relations: Vec::new(), last_note_id: 0, last_relation_id: 0 }
    }

    /// The rows of the notes, in the order of their identifiers.
    pub fn note_rows(&self) -> (r: &Vec<NoteRow>)
        ensures
            row_views(r@) == self@.notes,
    {
        &self.notes
    }

    /// The relations, in the order of their identifiers.
    pub fn relation_rows(&self) -> (r: &Vec<NoteRelation>)
        ensures
            r@ == self@.relations,
    {
        &self.relations
    }

    /// The last identifier given to a note; zero where none was given yet.
    pub fn last_note_id(&self) -> (r: i64)
        ensures
            r == self@.last_note_id,
    {
        self.last_note_id
    }

    /// The last identifier given to a relation; zero where none was given
    /// yet.
    pub fn last_relation_id(&self) -> (r: i64)
        ensures
            r == self@.last_relation_id,
    {
        self.last_relation_id
    }

    /// Finds where the note with the given identifier stands.
    fn find_note(&self, id: i64) -> (r: Option<usize>)
        requires
            self.wf(),
        ensures
            r is Some == self@.has_note(id as int),
            r matches Some(i) ==> i < self.notes@.len() && self@.position(id as int) == i
                && self.notes@[i as int].id == id,
    {
        let r = position_of(&self.notes, id);
        proof {
            match r {
                Some(i) => {
                    assert(self@.notes[i as int].id == id);
                    lemma_position(self@, i as int);
                },
                None => {
                    if self@.has_note(id as int) {
                        let p = self@.position(id as int);
                        assert(self.notes@[p].id == id);
                    }
                },
            }
        }
        r
    }
}

/// One of the rows has this identifier.
pub open spec fn has_row(rows: Seq<NoteRow>, id: i64) -> bool {
    exists|k: int| 0 <= k < rows.len() && (#[trigger] rows[k]).id == id
}

/// Finds a row by its identifier.
fn position_of(rows: &Vec<NoteRow>, id: i64) -> (r: Option<usize>)
    ensures
        r is Some == has_row(rows@, id),
        r matches Some(i) ==> i < rows@.len() && rows@[i as int].id == id,
{
    let mut i: usize = 0;
    while i < rows.len()
        invariant
            i <= rows@.len(),
            forall|k: int| 0 <= k < i ==> (#[trigger] rows@[k]).id != id,
        decreases rows@.len() - i,
    {
        if rows[i].id == id {
            return Some(i);
        }
        i = i + 1;
    }
    None
}

/// Decides whether the rows of the notes are as the invariant of the store
/// asks.
fn notes_in_order(rows: &Vec<NoteRow>, last: i64) -> (r: bool)
    ensures
        r == {
            &&& forall|i: int| 0 <= i < rows@.len() ==> 1 <= (#[trigger] rows@[i]).id <= last
            &&& forall|i: int, j: int|
                0 <= i < j < rows@.len() ==> (#[trigger] rows@[i]).id < (#[trigger] rows@[j]).id
            &&& forall|i: int|
                0 <= i < rows@.len() ==> !(#[trigger] rows@[i]).updated_at.is_before(
                    rows@[i].created_at,
                )
        },
{
    let mut i: usize = 0;
    while i < rows.len()
        invariant
            i <= rows@.len(),
            forall|k: int| 0 <= k < i ==> 1 <= (#[trigger] rows@[k]).id <= last,
            forall|a: int, b: int|
                0 <= a < b < i ==> (#[trigger] rows@[a]).id < (#[trigger] rows@[b]).id,
            forall|k: int|
                0 <= k < i ==> !(#[trigger] rows@[k]).updated_at.is_before(rows@[k].created_at),
        decreases rows@.len() - i,
    {
        let row = &rows[i];
        if row.id < 1 || row.id > last {
            return false;
        }
        if row.updated_at.before(&row.created_at) {
            return false;
        }
        if i > 0 && rows[i - 1].id >= row.id {
            return false;
        }
        proof {
            assert forall|a: int, b: int| 0 <= a < b < i + 1 implies (#[trigger] rows@[a]).id < (
            #[trigger] rows@[b]).id by {
                if b == i && a < i - 1 {
                    assert(rows@[a].id < rows@[i - 1].id);
                }
            }
        }
        i = i + 1;
    }
    true
}

/// Decides whether the relations are as the invariant of the store asks.
fn relations_in_order(rows: &Vec<NoteRow>, relations: &Vec<NoteRelation>, last: i64) -> (r: bool)
    ensures
        r == {
            &&& forall|i: int|
                0 <= i < relations@.len() ==> 1 <= (#[trigger] relations@[i]).id <= last
            &&& forall|i: int, j: int|
                0 <= i < j < relations@.len() ==> (#[trigger] relations@[i]).id < (
                #[trigger] relations@[j]).id
            &&& forall|i: int|
                0 <= i < relations@.len() ==> {
                    &&& has_row(rows@, (#[trigger] relations@[i]).source_note_id)
                    &&& has_row(rows@, relations@[i].target_note_id)
                }
        },
{
    let mut i: usize = 0;
    while i < relations.len()
        invariant
            i <= relations@.len(),
            forall|k: int| 0 <= k < i ==> 1 <= (#[trigger] relations@[k]).id <= last,
            forall|a: int, b: int|
                0 <= a < b < i ==> (#[trigger] relations@[a]).id < (#[trigger] relations@[b]).id,
            forall|m: int|
                0 <= m < i ==> {
                    &&& has_row(rows@, (#[trigger] relations@[m]).source_note_id)
                    &&& has_row(rows@, relations@[m].target_note_id)
                },
        decreases relations@.len() - i,
    {
        let e = relations[i];
        if e.id < 1 || e.id > last {
            return false;
        }
        if i > 0 && relations[i - 1].id >= e.id {
            return false;
        }
        if position_of(rows, e.source_note_id).is_none() {
            return false;
        }
        if position_of(rows, e.target_note_id).is_none() {
            return false;
        }
        proof {
            assert forall|a: int, b: int| 0 <= a < b < i + 1 implies (#[trigger] relations@[a]).id
                < (#[trigger] relations@[b]).id by {
                if b == i && a < i - 1 {
                    assert(relations@[a].id < relations@[i - 1].id);
                }
            }
        }
        i = i + 1;
    }
    true
}

impl Store {
    /// What a store with these rows and these last identifiers stands for.
    pub open spec fn holding(
        notes: Seq<NoteRow>,
        relations: Seq<NoteRelation>,
        last_note_id: i64,
        last_relation_id: i64,
    ) -> StoreView {
        StoreView {
            notes: row_views(notes),
            relations,
            last_note_id: last_note_id as int,
            last_relation_id: last_relation_id as int,
        }
    }

    /// Builds a store from rows that were kept elsewhere, with the last
    /// identifier given out of each kind. `None` exactly when the rows break
    /// the invariant of the store.
    pub fn restore(
        notes: Vec<NoteRow>,
        relations: Vec<NoteRelation>,
        last_note_id: i64,
        last_relation_id: i64,
    ) -> (r: Option<Store>)
        ensures
            r is Some == Store::holding(notes@, relations@, last_note_id, last_relation_id).wf(),
            r matches Some(store) ==> store@ == Store::holding(
                notes@,
                relations@,
                last_note_id,
                last_relation_id,
            ),
    {
        let ghost v = Store::holding(notes@, relations@, last_note_id, last_relation_id);
        if last_note_id < 0 || last_relation_id < 0 {
            return None;
        }
        let notes_fine = notes_in_order(&notes, last_note_id);
        let relations_fine = relations_in_order(&notes, &relations, last_relation_id);
        proof {
            assert forall|i: int| 0 <= i < v.notes.len() implies (#[trigger] v.notes[i]).id
                == notes@[i].id && v.notes[i].created_at == notes@[i].created_at
                && v.notes[i].updated_at == notes@[i].updated_at by {}
            if notes_fine && relations_fine {
                assert forall|i: int| 0 <= i < v.relations.len() implies {
                    &&& v.has_note((#[trigger] v.relations[i]).source_note_id as int)
                    &&& v.has_note(v.relations[i].target_note_id as int)
                } by {
                    assert(has_row(notes@, relations@[i].source_note_id));
                    assert(has_row(notes@, relations@[i].target_note_id));
                    let a = choose|k: int|
                        0 <= k < notes@.len() && (#[trigger] notes@[k]).id
                            == relations@[i].source_note_id;
                    let b = choose|k: int|
                        0 <= k < notes@.len() && (#[trigger] notes@[k]).id
                            == relations@[i].target_note_id;
                    assert(v.notes[a].id == relations@[i].source_note_id);
                    assert(v.notes[b].id == relations@[i].target_note_id);
                }
                assert(v.wf());
            } else if !notes_fine {
                if v.wf() {
                    assert forall|i: int| 0 <= i < notes@.len() implies 1 <= (
                    #[trigger] notes@[i]).id <= last_note_id by {
                        assert(1 <= v.notes[i].id <= v.last_note_id);
                    }
                    assert forall|i: int, j: int| 0 <= i < j < notes@.len() implies (
                    #[trigger] notes@[i]).id < (#[trigger] notes@[j]).id by {
                        assert(v.notes[i].id < v.notes[j].id);
                    }
                    assert forall|i: int| 0 <= i < notes@.len() implies !(
                    #[trigger] notes@[i]).updated_at.is_before(notes@[i].created_at) by {
                        assert(!v.notes[i].updated_at.is_before(v.notes[i].created_at));
                    }
                    assert(false);
                }
            } else {
                if v.wf() {
                    assert forall|i: int| 0 <= i < relations@.len() implies {
                        &&& has_row(notes@, (#[trigger] relations@[i]).source_note_id)
                        &&& has_row(notes@, relations@[i].target_note_id)
                    } by {
                        assert(v.has_note(v.relations[i].source_note_id as int));
                        assert(v.has_note(v.relations[i].target_note_id as int));
                        let a = v.position(relations@[i].source_note_id as int);
                        let b = v.position(relations@[i].target_note_id as int);
                        assert(notes@[a].id == relations@[i].source_note_id);
                        assert(notes@[b].id == relations@[i].target_note_id);
                    }
                    assert forall|i: int| 0 <= i < relations@.len() implies 1 <= (
                    #[trigger] relations@[i]).id <= last_relation_id by {
                        assert(1 <= v.relations[i].id <= v.last_relation_id);
                    }
                    assert(false);
                }
            }
        }
        if !notes_fine || !relations_fine {
            return None;
        }
        Some(Store { notes, relations, last_note_id, last_relation_id })
    }
}

} // verus!
