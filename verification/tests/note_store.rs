use aw_inbox::db::{
    create_note_at, create_note_db, delete_note_db, get_note_db, get_notes_db, map_row_to_note,
    update_note_at, update_note_db, DbError, Store,
};
use aw_inbox::models::{CreateNotePayload, NoteRow, UpdateNotePayload};
use aw_inbox::time::Timestamp;

fn at(secs: i64) -> Timestamp {
    Timestamp { secs, nanos: 0 }
}

fn tags(names: &[&str]) -> Vec<String> {
    names.iter().map(|n| n.to_string()).collect()
}

fn payload(content: &str, names: &[&str], secs: i64) -> CreateNotePayload {
    CreateNotePayload {
        content: content.to_string(),
        tags: Some(tags(names)),
        created_at: Some(at(secs)),
    }
}

fn ids(notes: &[aw_inbox::models::Note]) -> Vec<i64> {
    notes.iter().map(|n| n.id).collect()
}

#[test]
fn test_add_note() {
    let mut store = Store::new();
    let note = create_note_db(
        &mut store,
        CreateNotePayload {
            content: "This is a test note from integration test".to_string(),
            tags: Some(tags(&["test", "integration"])),
            created_at: None,
        },
    )
    .unwrap();
    assert!(note.id > 0);
    assert_eq!(note.content, "This is a test note from integration test");
    assert_eq!(note.tags, tags(&["test", "integration"]));
    assert_eq!(note.created_at, note.updated_at);

    let bare = create_note_db(
        &mut store,
        CreateNotePayload {
            content: "Note without tags".to_string(),
            tags: None,
            created_at: None,
        },
    )
    .unwrap();
    assert!(bare.id > 0);
    assert_ne!(bare.id, note.id);
    assert!(bare.tags.is_empty());
}

#[test]
fn test_delete_note() {
    let mut store = Store::new();
    let note = create_note_db(
        &mut store,
        CreateNotePayload {
            content: "Note to be deleted".to_string(),
            tags: Some(tags(&["delete_test"])),
            created_at: None,
        },
    )
    .unwrap();
    assert_eq!(delete_note_db(&mut store, note.id), Ok(true));
    assert!(get_note_db(&store, note.id).unwrap().is_none());
    assert_eq!(delete_note_db(&mut store, note.id), Ok(false));
}

#[test]
fn test_note_crud_operations() {
    let mut store = Store::new();
    assert!(get_note_db(&store, 99999).unwrap().is_none());

    let created = create_note_db(
        &mut store,
        CreateNotePayload {
            content: "\u{6d4b}\u{8bd5}\u{7b14}\u{8bb0}\u{5185}\u{5bb9}".to_string(),
            tags: Some(tags(&["test", "rust"])),
            created_at: None,
        },
    )
    .unwrap();
    let read = get_note_db(&store, created.id).unwrap().unwrap();
    assert_eq!(read.content, "\u{6d4b}\u{8bd5}\u{7b14}\u{8bb0}\u{5185}\u{5bb9}");
    assert_eq!(read.tags, tags(&["test", "rust"]));

    let updated = update_note_db(
        &mut store,
        created.id,
        UpdateNotePayload { content: "updated".to_string(), tags: Some(tags(&["updated"])) },
    )
    .unwrap()
    .unwrap();
    assert_eq!(updated.id, created.id);
    assert_eq!(updated.content, "updated");
    assert_eq!(updated.tags, tags(&["updated"]));
    assert_eq!(updated.created_at, created.created_at);
    let read = get_note_db(&store, created.id).unwrap().unwrap();
    assert_eq!(read.content, "updated");
    assert_eq!(read.tags, tags(&["updated"]));

    assert_eq!(delete_note_db(&mut store, created.id), Ok(true));
    assert!(get_note_db(&store, created.id).unwrap().is_none());
    assert!(update_note_db(
        &mut store,
        created.id,
        UpdateNotePayload { content: "again".to_string(), tags: None },
    )
    .unwrap()
    .is_none());
    assert_eq!(delete_note_db(&mut store, created.id), Ok(false));
}

#[test]
fn created_note_reads_back_identical() {
    let mut store = Store::new();
    let note = create_note_at(&mut store, payload("hello", &["x", "a \"quoted\" tag", ""], 10), at(99))
        .unwrap();
    assert_eq!(note.id, 1);
    assert_eq!(note.created_at, at(10));
    assert_eq!(note.updated_at, at(10));
    let read = get_note_db(&store, note.id).unwrap().unwrap();
    assert_eq!(read.id, 1);
    assert_eq!(read.content, "hello");
    assert_eq!(read.tags, tags(&["x", "a \"quoted\" tag", ""]));
    assert_eq!(read.created_at, at(10));
    assert_eq!(read.updated_at, at(10));
}

#[test]
fn duplicate_tags_and_their_order_are_kept() {
    let mut store = Store::new();
    let note = create_note_at(&mut store, payload("n", &["b", "a", "b"], 1), at(1)).unwrap();
    let read = get_note_db(&store, note.id).unwrap().unwrap();
    assert_eq!(read.tags, tags(&["b", "a", "b"]));
}

#[test]
fn creation_time_defaults_to_the_clock_reading() {
    let mut store = Store::new();
    let note = create_note_at(
        &mut store,
        CreateNotePayload { content: "c".to_string(), tags: None, created_at: None },
        Timestamp { secs: 77, nanos: 5 },
    )
    .unwrap();
    assert_eq!(note.created_at, Timestamp { secs: 77, nanos: 5 });
    assert_eq!(note.updated_at, Timestamp { secs: 77, nanos: 5 });
}

#[test]
fn the_clock_is_read_where_no_time_is_named() {
    let mut store = Store::new();
    let note = create_note_db(
        &mut store,
        CreateNotePayload { content: "c".to_string(), tags: None, created_at: None },
    )
    .unwrap();
    // Any clock of today stands well after the year 2001.
    assert!(note.created_at.secs > 1_000_000_000);
    assert!(note.created_at.nanos < 1_000_000_000);
}

#[test]
fn identifiers_rise_and_are_not_given_twice() {
    let mut store = Store::new();
    let a = create_note_at(&mut store, payload("a", &[], 1), at(1)).unwrap();
    let b = create_note_at(&mut store, payload("b", &[], 1), at(1)).unwrap();
    assert_eq!((a.id, b.id), (1, 2));
    assert_eq!(delete_note_db(&mut store, 2), Ok(true));
    let c = create_note_at(&mut store, payload("c", &[], 1), at(1)).unwrap();
    assert_eq!(c.id, 3);
    assert_eq!(store.last_note_id(), 3);
}

#[test]
fn used_up_identifiers_are_an_internal_failure() {
    let row = NoteRow {
        id: i64::MAX,
        content: "last".to_string(),
        tags: "[]".to_string(),
        created_at: at(1),
        updated_at: at(1),
    };
    let mut store = Store::restore(vec![row], vec![], i64::MAX, 0).unwrap();
    let r = create_note_at(&mut store, payload("more", &[], 2), at(2));
    assert_eq!(r.err(), Some(DbError::Internal));
    assert_eq!(store.note_rows().len(), 1);
}

#[test]
fn update_replaces_content_and_tags_and_keeps_creation_time() {
    let mut store = Store::new();
    let note = create_note_at(&mut store, payload("old", &["a", "b"], 10), at(10)).unwrap();
    let updated = update_note_at(
        &mut store,
        note.id,
        UpdateNotePayload { content: "new".to_string(), tags: None },
        at(20),
    )
    .unwrap()
    .unwrap();
    assert_eq!(updated.content, "new");
    assert!(updated.tags.is_empty());
    assert_eq!(updated.created_at, at(10));
    assert_eq!(updated.updated_at, at(20));
    let read = get_note_db(&store, note.id).unwrap().unwrap();
    assert_eq!(read.content, "new");
    assert!(read.tags.is_empty());
    assert_eq!(read.created_at, at(10));
    assert_eq!(read.updated_at, at(20));
}

#[test]
fn update_of_a_missing_note_is_none_and_changes_nothing() {
    let mut store = Store::new();
    create_note_at(&mut store, payload("only", &[], 1), at(1)).unwrap();
    let r = update_note_at(
        &mut store,
        7,
        UpdateNotePayload { content: "x".to_string(), tags: None },
        at(2),
    );
    assert!(r.unwrap().is_none());
    assert_eq!(get_note_db(&store, 1).unwrap().unwrap().content, "only");
}

#[test]
fn update_time_never_stands_before_creation_time() {
    let mut store = Store::new();
    let note = create_note_at(&mut store, payload("n", &[], 100), at(100)).unwrap();
    let updated = update_note_at(
        &mut store,
        note.id,
        UpdateNotePayload { content: "n2".to_string(), tags: None },
        at(50),
    )
    .unwrap()
    .unwrap();
    assert_eq!(updated.created_at, at(100));
    assert_eq!(updated.updated_at, at(100));
}

#[test]
fn list_puts_the_newest_first() {
    let mut store = Store::new();
    create_note_at(&mut store, payload("a", &[], 20), at(0)).unwrap();
    create_note_at(&mut store, payload("b", &[], 30), at(0)).unwrap();
    create_note_at(&mut store, payload("c", &[], 10), at(0)).unwrap();
    create_note_at(&mut store, payload("d", &[], 30), at(0)).unwrap();
    let notes = get_notes_db(&store, None, None, None, None).unwrap();
    assert_eq!(ids(&notes), vec![2, 4, 1, 3]);
}

#[test]
fn list_orders_by_nanoseconds_within_a_second() {
    let mut store = Store::new();
    for nanos in [5u32, 9, 1] {
        create_note_at(
            &mut store,
            CreateNotePayload {
                content: "n".to_string(),
                tags: None,
                created_at: Some(Timestamp { secs: 1, nanos }),
            },
            at(0),
        )
        .unwrap();
    }
    let notes = get_notes_db(&store, None, None, None, None).unwrap();
    assert_eq!(ids(&notes), vec![2, 1, 3]);
}

#[test]
fn list_limit_caps_the_count() {
    let mut store = Store::new();
    for secs in [1, 2, 3, 4] {
        create_note_at(&mut store, payload("n", &[], secs), at(0)).unwrap();
    }
    assert_eq!(ids(&get_notes_db(&store, Some(2), None, None, None).unwrap()), vec![4, 3]);
    assert_eq!(ids(&get_notes_db(&store, Some(0), None, None, None).unwrap()), Vec::<i64>::new());
    assert_eq!(ids(&get_notes_db(&store, Some(9), None, None, None).unwrap()), vec![4, 3, 2, 1]);
    assert_eq!(ids(&get_notes_db(&store, Some(-1), None, None, None).unwrap()), vec![4, 3, 2, 1]);
}

#[test]
fn list_time_bounds_are_inclusive_below_and_exclusive_above() {
    let mut store = Store::new();
    for secs in [10, 20, 30] {
        create_note_at(&mut store, payload("n", &[], secs), at(0)).unwrap();
    }
    let notes = get_notes_db(&store, None, None, Some(at(20)), None).unwrap();
    assert_eq!(ids(&notes), vec![3, 2]);
    let notes = get_notes_db(&store, None, None, None, Some(at(20))).unwrap();
    assert_eq!(ids(&notes), vec![1]);
    let notes = get_notes_db(&store, None, None, Some(at(10)), Some(at(30))).unwrap();
    assert_eq!(ids(&notes), vec![2, 1]);
}

#[test]
fn list_by_tag_matches_whole_tags_only() {
    let mut store = Store::new();
    create_note_at(&mut store, payload("only xyz", &["xyz"], 1), at(0)).unwrap();
    create_note_at(&mut store, payload("x and more", &["a", "x"], 2), at(0)).unwrap();
    create_note_at(&mut store, payload("no tags", &[], 3), at(0)).unwrap();
    let notes = get_notes_db(&store, None, Some("x".to_string()), None, None).unwrap();
    assert_eq!(ids(&notes), vec![2]);
    let notes = get_notes_db(&store, None, Some("xyz".to_string()), None, None).unwrap();
    assert_eq!(ids(&notes), vec![1]);
    let notes = get_notes_db(&store, None, Some("y".to_string()), None, None).unwrap();
    assert!(notes.is_empty());
}

#[test]
fn unreadable_tag_text_fails_a_read_of_that_note() {
    let rows = vec![
        NoteRow {
            id: 1,
            content: "good".to_string(),
            tags: "[\"x\"]".to_string(),
            created_at: at(1),
            updated_at: at(1),
        },
        NoteRow {
            id: 2,
            content: "bad".to_string(),
            tags: "{\"not\": \"a list\"}".to_string(),
            created_at: at(2),
            updated_at: at(2),
        },
    ];
    assert_eq!(map_row_to_note(&rows[0]).unwrap().tags, tags(&["x"]));
    assert_eq!(map_row_to_note(&rows[1]).err(), Some(DbError::Validation));
    let store = Store::restore(rows, vec![], 2, 0).unwrap();
    assert_eq!(get_note_db(&store, 1).unwrap().unwrap().tags, tags(&["x"]));
    assert_eq!(get_note_db(&store, 2).err(), Some(DbError::Validation));
    assert_eq!(get_notes_db(&store, None, None, None, None).err(), Some(DbError::Validation));
    // Outside the filter the unreadable row does no harm.
    let notes = get_notes_db(&store, None, None, None, Some(at(2))).unwrap();
    assert_eq!(ids(&notes), vec![1]);
    let notes = get_notes_db(&store, None, Some("x".to_string()), None, None).unwrap();
    assert_eq!(ids(&notes), vec![1]);
}

#[test]
fn an_unreadable_row_beyond_the_limit_does_no_harm() {
    let row = |id: i64, text: &str, secs: i64| NoteRow {
        id,
        content: String::new(),
        tags: text.to_string(),
        created_at: at(secs),
        updated_at: at(secs),
    };
    let rows = vec![row(1, "[]", 5), row(2, "oops", 1), row(3, "[\"a\"]", 9)];
    let store = Store::restore(rows, vec![], 3, 0).unwrap();
    assert_eq!(ids(&get_notes_db(&store, Some(2), None, None, None).unwrap()), vec![3, 1]);
    assert_eq!(get_notes_db(&store, Some(3), None, None, None).err(), Some(DbError::Validation));
    assert_eq!(get_notes_db(&store, None, None, None, None).err(), Some(DbError::Validation));
}

#[test]
fn restore_turns_down_rows_that_break_the_invariant() {
    let row = |id: i64, created: i64, updated: i64| NoteRow {
        id,
        content: String::new(),
        tags: "[]".to_string(),
        created_at: at(created),
        updated_at: at(updated),
    };
    assert!(Store::restore(vec![row(1, 1, 1), row(2, 1, 1)], vec![], 2, 0).is_some());
    assert!(Store::restore(vec![row(2, 1, 1), row(1, 1, 1)], vec![], 2, 0).is_none());
    assert!(Store::restore(vec![row(1, 1, 1), row(1, 1, 1)], vec![], 2, 0).is_none());
    assert!(Store::restore(vec![row(0, 1, 1)], vec![], 2, 0).is_none());
    assert!(Store::restore(vec![row(3, 1, 1)], vec![], 2, 0).is_none());
    assert!(Store::restore(vec![row(1, 5, 4)], vec![], 2, 0).is_none());
    assert!(Store::restore(vec![], vec![], -1, 0).is_none());
    assert!(Store::restore(vec![], vec![], 0, -1).is_none());
}
