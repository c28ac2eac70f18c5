//! The data model: notes, their stored rows, relations between notes, and
//! the payloads that callers hand in.

use vstd::prelude::*;
use crate::time::Timestamp;

verus! {

/// The texts of a tag list, element by element.
pub open spec fn tag_texts(tags: Seq<String>) -> Seq<Seq<char>> {
    Seq::new(tags.len(), |i: int| tags[i]@)
}

/// What an optional tag list stands for: an absent list is the empty list.
pub open spec fn tags_or_empty(tags: Option<Vec<String>>) -> Seq<Seq<char>> {
    match tags {
        Some(t) => tag_texts(t@),
        None => Seq::empty(),
    }
}

/// The values of a sequence of stored rows, row by row.
pub open spec fn row_views(rows: Seq<NoteRow>) -> Seq<NoteRowView> {
    Seq::new(rows.len(), |i: int| rows[i]@)
}

/// A note as callers see it.
#[derive(Debug)]
pub struct Note {
    pub id: i64,
    pub content: String,
    pub tags: Vec<String>,
    pub created_at: Timestamp,
    pub updated_at: Timestamp,
}

/// The mathematical value of a [`Note`].
pub ghost struct NoteView {
    pub id: int,
    pub content: Seq<char>,
    pub tags: Seq<Seq<char>>,
    pub created_at: Timestamp,
    pub updated_at: Timestamp,
}

impl View for Note {
    type V = NoteView;

    open spec fn view(&self) -> NoteView {
        NoteView {
            id: self.id as int,
            content: self.content@,
            tags: tag_texts(self.tags@),
            created_at: self.created_at,
            updated_at: self.updated_at,
        }
    }
}

impl Clone for Note {
    fn clone(&self) -> (r: Note)
        ensures
            r@ == self@,
    {
        let tags = self.tags.clone();
        assert(tag_texts(tags@) =~= tag_texts(self.tags@));
        Note {
            id: self.id,
            content: self.content.clone(),
            tags,
            created_at: self.created_at,
            updated_at: self.updated_at,
        }
    }
}

/// A note as the store keeps it: the tag list is held as serialized text.
#[derive(Debug)]
pub struct NoteRow {
    pub id: i64,
    pub content: String,
    pub tags: String,
    pub created_at: Timestamp,
    pub updated_at: Timestamp,
}

/// The mathematical value of a [`NoteRow`].
pub ghost struct NoteRowView {
    pub id: int,
    pub content: Seq<char>,
    pub tags: Seq<char>,
    pub created_at: Timestamp,
    pub updated_at: Timestamp,
}

impl View for NoteRow {
    type V = NoteRowView;

    open spec fn view(&self) -> NoteRowView {
        NoteRowView {
            id: self.id as int,
            content: self.content@,
            tags: self.tags@,
            created_at: self.created_at,
            updated_at: self.updated_at,
        }
    }
}

impl Clone for NoteRow {
    fn clone(&self) -> (r: NoteRow)
        ensures
            r@ == self@,
    {
        NoteRow {
            id: self.id,
            content: self.content.clone(),
            tags: self.tags.clone(),
            created_at: self.created_at,
            updated_at: self.updated_at,
        }
    }
}

/// What a caller supplies to create a note.
#[derive(Debug)]
pub struct CreateNotePayload {
    pub content: String,
    pub tags: Option<Vec<String>>,
    pub created_at: Option<Timestamp>,
}

/// What a caller supplies to replace a note's content and tags.
#[derive(Debug)]
pub struct UpdateNotePayload {
    pub content: String,
    pub tags: Option<Vec<String>>,
}

/// A note as it is sent out: the two instants are RFC 3339 texts.
#[derive(Debug)]
pub struct NoteResponse {
    pub id: i64,
    pub content: String,
    pub tags: Vec<String>,
    pub created_at: String,
    pub updated_at: String,
}

/// A tag with an identifier of its own.
#[derive(Debug)]
pub struct Tag {
    pub id: i64,
    pub name: String,
}

impl Clone for Tag {
    fn clone(&self) -> (r: Tag)
        ensures
            r.id == self.id,
            r.name@ == self.name@,
    {
        Tag { id: self.id, name: self.name.clone() }
    }
}

/// The statistics of one tag: how many notes carry it, and when the latest
/// of them was last updated.
#[derive(Debug)]
pub struct DetailedTag {
    pub name: String,
    pub count: i64,
    pub last_modified: Option<Timestamp>,
}

/// The kinds of relation between two notes.
#[derive(Clone, Copy, Debug, PartialEq, Eq, Structural)]
pub enum NoteRelationType {
    Comment,
    Reference,
    Link,
}

impl NoteRelationType {
    /// The name under which the kind is stored.
    pub open spec fn name(self) -> Seq<char> {
        match self {
            NoteRelationType::Comment => "Comment"@,
            NoteRelationType::Reference => "Reference"@,
            NoteRelationType::Link => "Link"@,
        }
    }

    /// Returns the name under which the kind is stored.
    pub fn as_str(&self) -> (r: &'static str)
        ensures
            r@ == self.name(),
    {
        match self {
            NoteRelationType::Comment => "Comment",
            NoteRelationType::Reference => "Reference",
            NoteRelationType::Link => "Link",
        }
    }

    /// Reads a kind from its stored name. A text that names no kind is
    /// turned down.
    pub fn parse(text: &str) -> (r: Option<NoteRelationType>)
        ensures
            r matches Some(kind) ==> kind.name() == text@,
            r is None ==> forall|kind: NoteRelationType| #[trigger] kind.name() != text@,
    {
        let given = text.to_owned();
        if given == "Comment".to_owned() {
            Some(NoteRelationType::Comment)
        } else if given == "Reference".to_owned() {
            Some(NoteRelationType::Reference)
        } else if given == "Link".to_owned() {
            Some(NoteRelationType::Link)
        } else {
            None
        }
    }
}

/// A directed, typed edge from a source note to a target note.
#[derive(Clone, Copy, Debug, PartialEq, Eq, Structural)]
pub struct NoteRelation {
    pub id: i64,
    pub source_note_id: i64,
    pub target_note_id: i64,
    pub relation_type: NoteRelationType,
    pub created_at: Timestamp,
}

/// What a caller supplies to relate two notes.
#[derive(Debug)]
pub struct CreateNoteRelationPayload {
    pub relation_type: NoteRelationType,
}

/// What a caller supplies to comment on a note.
#[derive(Debug)]
pub struct CreateCommentPayload {
    pub content: String,
    pub tags: Option<Vec<String>>,
}

} // verus!
