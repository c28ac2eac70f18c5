use aw_inbox::db::{
    add_comment_at, add_comment_db, create_note_at, create_note_relation_at,
    create_note_relation_db, delete_note_db, get_comments_for_note_db, get_note_db,
    get_relations_for_note_db, map_row_to_relation, DbError, Store,
};
use aw_inbox::models::{
    CreateCommentPayload, CreateNotePayload, CreateNoteRelationPayload, NoteRelation,
    NoteRelationType, NoteRow,
};
use aw_inbox::time::Timestamp;

fn at(secs: i64) -> Timestamp {
    Timestamp { secs, nanos: 0 }
}

fn note(store: &mut Store, content: &str) -> i64 {
    create_note_at(
        store,
        CreateNotePayload { content: content.to_string(), tags: None, created_at: Some(at(1)) },
        at(1),
    )
    .unwrap()
    .id
}

fn relate(store: &mut Store, source: i64, target: i64, kind: NoteRelationType, secs: i64) -> NoteRelation {
    create_note_relation_at(
        store,
        source,
        target,
        CreateNoteRelationPayload { relation_type: kind },
        at(secs),
    )
    .unwrap()
}

fn comment(content: &str) -> CreateCommentPayload {
    CreateCommentPayload { content: content.to_string(), tags: None }
}

fn row(id: i64) -> NoteRow {
    NoteRow {
        id,
        content: format!("note {}", id),
        tags: "[]".to_string(),
        created_at: at(1),
        updated_at: at(1),
    }
}

#[test]
fn link_between_two_notes_is_listed_at_its_target() {
    let mut store = Store::new();
    assert_eq!(note(&mut store, "one"), 1);
    assert_eq!(note(&mut store, "two"), 2);
    let made = create_note_relation_db(
        &mut store,
        1,
        2,
        CreateNoteRelationPayload { relation_type: NoteRelationType::Link },
    )
    .unwrap();
    assert_eq!(made.id, 1);
    let listed = get_relations_for_note_db(&store, 2, None).unwrap();
    assert_eq!(listed.len(), 1);
    assert_eq!(listed[0].relation_type, NoteRelationType::Link);
    assert_eq!(listed[0].source_note_id, 1);
    assert_eq!(listed[0].target_note_id, 2);
    assert_eq!(listed[0], made);
    // The relation points at note 2, not at note 1.
    assert!(get_relations_for_note_db(&store, 1, None).unwrap().is_empty());
}

#[test]
fn relation_to_a_missing_note_is_not_found_and_stores_nothing() {
    let mut store = Store::new();
    note(&mut store, "one");
    let payload = || CreateNoteRelationPayload { relation_type: NoteRelationType::Reference };
    assert_eq!(create_note_relation_db(&mut store, 1, 9, payload()).err(), Some(DbError::NotFound));
    assert_eq!(create_note_relation_db(&mut store, 9, 1, payload()).err(), Some(DbError::NotFound));
    assert_eq!(create_note_relation_db(&mut store, 8, 9, payload()).err(), Some(DbError::NotFound));
    assert!(store.relation_rows().is_empty());
    assert_eq!(store.last_relation_id(), 0);
    assert!(get_relations_for_note_db(&store, 9, None).unwrap().is_empty());
    assert!(get_relations_for_note_db(&store, 1, None).unwrap().is_empty());
}

#[test]
fn a_note_may_be_related_to_itself() {
    let mut store = Store::new();
    note(&mut store, "one");
    let made = relate(&mut store, 1, 1, NoteRelationType::Reference, 5);
    assert_eq!(get_relations_for_note_db(&store, 1, None).unwrap(), vec![made]);
}

#[test]
fn relations_are_listed_oldest_first_and_by_kind() {
    let mut store = Store::new();
    for name in ["a", "b", "c", "d"] {
        note(&mut store, name);
    }
    let late = relate(&mut store, 1, 4, NoteRelationType::Link, 30);
    let early = relate(&mut store, 2, 4, NoteRelationType::Reference, 10);
    let middle = relate(&mut store, 3, 4, NoteRelationType::Link, 20);
    let tie = relate(&mut store, 3, 4, NoteRelationType::Comment, 10);
    relate(&mut store, 4, 1, NoteRelationType::Link, 5);
    assert_eq!(
        get_relations_for_note_db(&store, 4, None).unwrap(),
        vec![early, tie, middle, late]
    );
    assert_eq!(
        get_relations_for_note_db(&store, 4, Some(NoteRelationType::Link)).unwrap(),
        vec![middle, late]
    );
    assert_eq!(
        get_relations_for_note_db(&store, 4, Some(NoteRelationType::Comment)).unwrap(),
        vec![tie]
    );
}

#[test]
fn deleting_a_note_deletes_the_relations_that_name_it() {
    let mut store = Store::new();
    for name in ["a", "b", "c"] {
        note(&mut store, name);
    }
    relate(&mut store, 1, 2, NoteRelationType::Link, 1);
    relate(&mut store, 2, 3, NoteRelationType::Link, 2);
    let stays = relate(&mut store, 1, 3, NoteRelationType::Reference, 3);
    relate(&mut store, 3, 2, NoteRelationType::Comment, 4);
    assert_eq!(delete_note_db(&mut store, 2), Ok(true));
    assert_eq!(store.relation_rows().clone(), vec![stays]);
    assert_eq!(get_relations_for_note_db(&store, 3, None).unwrap(), vec![stays]);
    assert!(get_relations_for_note_db(&store, 2, None).unwrap().is_empty());
    // A relation made later does not take the identifier of a deleted one.
    let next = relate(&mut store, 3, 1, NoteRelationType::Link, 5);
    assert_eq!(next.id, 5);
}

#[test]
fn comment_on_a_missing_note_is_not_found() {
    let mut store = Store::new();
    let r = add_comment_db(&mut store, 1, comment("nice"));
    assert_eq!(r.err(), Some(DbError::NotFound));
    assert!(get_comments_for_note_db(&store, 1).unwrap().is_empty());
    assert!(store.note_rows().is_empty());
    assert_eq!(store.last_note_id(), 0);
}

#[test]
fn comment_creates_a_note_and_its_relation_together() {
    let mut store = Store::new();
    note(&mut store, "target");
    let (made, edge) = add_comment_at(
        &mut store,
        1,
        CreateCommentPayload { content: "nice".to_string(), tags: Some(vec!["t".to_string()]) },
        at(7),
    )
    .unwrap();
    assert_eq!(made.id, 2);
    assert_eq!(made.content, "nice");
    assert_eq!(made.tags, vec!["t".to_string()]);
    assert_eq!(made.created_at, at(7));
    assert_eq!(made.updated_at, at(7));
    assert_eq!(
        edge,
        NoteRelation {
            id: 1,
            source_note_id: 2,
            target_note_id: 1,
            relation_type: NoteRelationType::Comment,
            created_at: at(7),
        }
    );
    let read = get_note_db(&store, 2).unwrap().unwrap();
    assert_eq!(read.content, "nice");
    let thread = get_comments_for_note_db(&store, 1).unwrap();
    assert_eq!(thread.len(), 1);
    assert_eq!(thread[0].0.id, 2);
    assert_eq!(thread[0].0.content, "nice");
    assert_eq!(thread[0].1, edge);
}

#[test]
fn comments_come_in_the_order_of_time() {
    let mut store = Store::new();
    note(&mut store, "target");
    add_comment_at(&mut store, 1, comment("third"), at(30)).unwrap();
    add_comment_at(&mut store, 1, comment("first"), at(10)).unwrap();
    add_comment_at(&mut store, 1, comment("second"), at(20)).unwrap();
    note(&mut store, "bystander");
    relate(&mut store, 5, 1, NoteRelationType::Link, 15);
    let thread = get_comments_for_note_db(&store, 1).unwrap();
    let contents: Vec<&str> = thread.iter().map(|(n, _)| n.content.as_str()).collect();
    assert_eq!(contents, vec!["first", "second", "third"]);
    assert!(thread.iter().all(|(n, e)| e.source_note_id == n.id && e.target_note_id == 1));
}

#[test]
fn a_comment_that_cannot_store_its_relation_leaves_no_note() {
    let edge = NoteRelation {
        id: i64::MAX,
        source_note_id: 1,
        target_note_id: 2,
        relation_type: NoteRelationType::Link,
        created_at: at(1),
    };
    let mut store = Store::restore(vec![row(1), row(2)], vec![edge], 2, i64::MAX).unwrap();
    let r = add_comment_at(&mut store, 2, comment("lost"), at(9));
    assert_eq!(r.err(), Some(DbError::Internal));
    assert_eq!(store.note_rows().len(), 2);
    assert_eq!(store.last_note_id(), 2);
    assert!(get_note_db(&store, 3).unwrap().is_none());
    assert!(get_comments_for_note_db(&store, 2).unwrap().is_empty());
    assert_eq!(store.relation_rows().clone(), vec![edge]);
}

#[test]
fn a_comment_on_a_store_without_note_identifiers_fails_whole() {
    let last = NoteRow { id: i64::MAX, ..row(0) };
    let mut store = Store::restore(vec![last], vec![], i64::MAX, 0).unwrap();
    let r = add_comment_at(&mut store, i64::MAX, comment("lost"), at(9));
    assert_eq!(r.err(), Some(DbError::Internal));
    assert_eq!(store.note_rows().len(), 1);
    assert!(store.relation_rows().is_empty());
}

#[test]
fn a_relation_on_a_store_without_relation_identifiers_fails() {
    let edge = NoteRelation {
        id: i64::MAX,
        source_note_id: 1,
        target_note_id: 1,
        relation_type: NoteRelationType::Link,
        created_at: at(1),
    };
    let mut store = Store::restore(vec![row(1)], vec![edge], 1, i64::MAX).unwrap();
    let r = create_note_relation_at(
        &mut store,
        1,
        1,
        CreateNoteRelationPayload { relation_type: NoteRelationType::Link },
        at(2),
    );
    assert_eq!(r.err(), Some(DbError::Internal));
    assert_eq!(store.relation_rows().len(), 1);
}

#[test]
fn a_comment_with_unreadable_tags_fails_the_thread() {
    let bad = NoteRow { tags: "oops".to_string(), ..row(2) };
    let edge = NoteRelation {
        id: 1,
        source_note_id: 2,
        target_note_id: 1,
        relation_type: NoteRelationType::Comment,
        created_at: at(1),
    };
    let store = Store::restore(vec![row(1), bad], vec![edge], 2, 1).unwrap();
    assert_eq!(get_comments_for_note_db(&store, 1).err(), Some(DbError::Validation));
    assert!(get_comments_for_note_db(&store, 2).unwrap().is_empty());
}

#[test]
fn restore_turns_down_relations_without_their_notes() {
    let edge = |id: i64, source: i64, target: i64| NoteRelation {
        id,
        source_note_id: source,
        target_note_id: target,
        relation_type: NoteRelationType::Link,
        created_at: at(1),
    };
    assert!(Store::restore(vec![row(1), row(2)], vec![edge(1, 1, 2)], 2, 1).is_some());
    assert!(Store::restore(vec![row(1), row(2)], vec![edge(1, 1, 3)], 2, 1).is_none());
    assert!(Store::restore(vec![row(1), row(2)], vec![edge(1, 3, 1)], 2, 1).is_none());
    assert!(Store::restore(vec![row(1)], vec![edge(2, 1, 1), edge(1, 1, 1)], 1, 2).is_none());
    assert!(Store::restore(vec![row(1)], vec![edge(2, 1, 1)], 1, 1).is_none());
    assert!(Store::restore(vec![row(1)], vec![edge(0, 1, 1)], 1, 1).is_none());
}

#[test]
fn relation_kinds_are_stored_under_their_names() {
    assert_eq!(NoteRelationType::Comment.as_str(), "Comment");
    assert_eq!(NoteRelationType::Reference.as_str(), "Reference");
    assert_eq!(NoteRelationType::Link.as_str(), "Link");
    assert_eq!(NoteRelationType::parse("Comment"), Some(NoteRelationType::Comment));
    assert_eq!(NoteRelationType::parse("Reference"), Some(NoteRelationType::Reference));
    assert_eq!(NoteRelationType::parse("Link"), Some(NoteRelationType::Link));
    assert_eq!(NoteRelationType::parse("link"), None);
    assert_eq!(NoteRelationType::parse(""), None);
    assert_eq!(NoteRelationType::parse("Mention"), None);
}

#[test]
fn a_stored_relation_of_unknown_kind_is_turned_down() {
    let made = map_row_to_relation(3, 1, 2, "Link", at(4)).unwrap();
    assert_eq!(
        made,
        NoteRelation {
            id: 3,
            source_note_id: 1,
            target_note_id: 2,
            relation_type: NoteRelationType::Link,
            created_at: at(4),
        }
    );
    assert_eq!(map_row_to_relation(3, 1, 2, "Follows", at(4)).err(), Some(DbError::Validation));
}
