use aw_inbox::db::{
    create_note_at, delete_note_db, get_all_tags_db, get_detailed_tags_db, update_note_at, Store,
};
use aw_inbox::models::{CreateNotePayload, DetailedTag, NoteRow, UpdateNotePayload};
use aw_inbox::tags::{contains_tag, decode_tags, encode_tags, same_tags};
use aw_inbox::time::Timestamp;

fn at(secs: i64) -> Timestamp {
    Timestamp { secs, nanos: 0 }
}

fn tags(names: &[&str]) -> Vec<String> {
    names.iter().map(|n| n.to_string()).collect()
}

fn note(store: &mut Store, content: &str, names: &[&str], secs: i64) -> i64 {
    create_note_at(
        store,
        CreateNotePayload {
            content: content.to_string(),
            tags: Some(tags(names)),
            created_at: Some(at(secs)),
        },
        at(secs),
    )
    .unwrap()
    .id
}

fn cloud(stats: &[DetailedTag]) -> Vec<(String, i64)> {
    stats.iter().map(|s| (s.name.clone(), s.count)).collect()
}

fn count_of(stats: &[DetailedTag], name: &str) -> Option<i64> {
    stats.iter().find(|s| s.name == name).map(|s| s.count)
}

#[test]
fn test_get_tags_detailed() {
    let mut store = Store::new();
    note(&mut store, "Note 1", &["tag1", "shared"], 1);
    note(&mut store, "Note 2", &["tag2", "shared"], 2);
    let stats = get_detailed_tags_db(&store).unwrap();
    assert_eq!(stats.len(), 3);
    assert_eq!(count_of(&stats, "shared"), Some(2));
    assert_eq!(count_of(&stats, "tag1"), Some(1));
    assert_eq!(count_of(&stats, "tag2"), Some(1));

    create_note_at(
        &mut store,
        CreateNotePayload {
            content: "Note without tags".to_string(),
            tags: None,
            created_at: Some(at(3)),
        },
        at(3),
    )
    .unwrap();
    let stats = get_detailed_tags_db(&store).unwrap();
    assert_eq!(stats.len(), 3);
    assert!(stats.iter().all(|s| !s.name.is_empty()));
    assert_eq!(count_of(&stats, "shared"), Some(2));
    assert_eq!(count_of(&stats, "tag1"), Some(1));
    assert_eq!(count_of(&stats, "tag2"), Some(1));
}

#[test]
fn tag_cloud_follows_the_notes() {
    let mut store = Store::new();
    assert_eq!(note(&mut store, "hello", &["x"], 1), 1);
    assert_eq!(note(&mut store, "world", &["x", "y"], 2), 2);
    let stats = get_detailed_tags_db(&store).unwrap();
    assert_eq!(cloud(&stats), vec![("x".to_string(), 2), ("y".to_string(), 1)]);
    assert_eq!(delete_note_db(&mut store, 1), Ok(true));
    let stats = get_detailed_tags_db(&store).unwrap();
    assert_eq!(cloud(&stats), vec![("x".to_string(), 1), ("y".to_string(), 1)]);
}

#[test]
fn tag_cloud_puts_the_most_carried_tag_first() {
    let mut store = Store::new();
    note(&mut store, "a", &["rare", "common"], 1);
    note(&mut store, "b", &["common", "middle"], 2);
    note(&mut store, "c", &["middle", "common"], 3);
    let stats = get_detailed_tags_db(&store).unwrap();
    assert_eq!(
        cloud(&stats),
        vec![("common".to_string(), 3), ("middle".to_string(), 2), ("rare".to_string(), 1)]
    );
}

#[test]
fn a_tag_named_twice_by_one_note_counts_once() {
    let mut store = Store::new();
    note(&mut store, "a", &["x", "x"], 1);
    let stats = get_detailed_tags_db(&store).unwrap();
    assert_eq!(cloud(&stats), vec![("x".to_string(), 1)]);
    assert_eq!(get_all_tags_db(&store).unwrap(), tags(&["x"]));
}

#[test]
fn last_modified_is_the_latest_update_among_the_carriers() {
    let mut store = Store::new();
    note(&mut store, "a", &["x"], 10);
    note(&mut store, "b", &["x", "y"], 30);
    note(&mut store, "c", &["y"], 20);
    let stats = get_detailed_tags_db(&store).unwrap();
    let modified = |name: &str| stats.iter().find(|s| s.name == name).unwrap().last_modified;
    assert_eq!(modified("x"), Some(at(30)));
    assert_eq!(modified("y"), Some(at(30)));
    update_note_at(
        &mut store,
        3,
        UpdateNotePayload { content: "c".to_string(), tags: Some(tags(&["y"])) },
        at(40),
    )
    .unwrap();
    let stats = get_detailed_tags_db(&store).unwrap();
    let modified = |name: &str| stats.iter().find(|s| s.name == name).unwrap().last_modified;
    assert_eq!(modified("x"), Some(at(30)));
    assert_eq!(modified("y"), Some(at(40)));
}

#[test]
fn all_tags_lists_each_tag_once() {
    let mut store = Store::new();
    assert!(get_all_tags_db(&store).unwrap().is_empty());
    note(&mut store, "a", &["x", "y"], 1);
    note(&mut store, "b", &["y", "z", "x"], 2);
    note(&mut store, "c", &[], 3);
    let mut names = get_all_tags_db(&store).unwrap();
    names.sort();
    assert_eq!(names, tags(&["x", "y", "z"]));
}

#[test]
fn a_row_with_unreadable_tags_does_not_stop_the_tag_index() {
    let row = |id: i64, text: &str| NoteRow {
        id,
        content: String::new(),
        tags: text.to_string(),
        created_at: at(id),
        updated_at: at(id),
    };
    let rows = vec![
        row(1, "[\"x\"]"),
        row(2, "not json at all"),
        row(3, "[1, 2]"),
        row(4, "\"x\""),
        row(5, "[\"x\", \"y\"]"),
    ];
    let store = Store::restore(rows, vec![], 5, 0).unwrap();
    let mut names = get_all_tags_db(&store).unwrap();
    names.sort();
    assert_eq!(names, tags(&["x", "y"]));
    let stats = get_detailed_tags_db(&store).unwrap();
    assert_eq!(cloud(&stats), vec![("x".to_string(), 2), ("y".to_string(), 1)]);
    assert_eq!(stats[0].last_modified, Some(at(5)));
}

#[test]
fn tags_are_stored_as_a_json_list() {
    assert_eq!(encode_tags(&tags(&["a", "b"])), Some("[\"a\",\"b\"]".to_string()));
    assert_eq!(encode_tags(&tags(&[])), Some("[]".to_string()));
    assert_eq!(encode_tags(&tags(&["say \"hi\""])), Some("[\"say \\\"hi\\\"\"]".to_string()));
}

#[test]
fn stored_tag_text_is_read_back() {
    assert_eq!(decode_tags(&"[\"a\",\"b\"]".to_string()), Some(tags(&["a", "b"])));
    assert_eq!(decode_tags(&" [ \"a\" ] ".to_string()), Some(tags(&["a"])));
    assert_eq!(decode_tags(&"[]".to_string()), Some(tags(&[])));
    assert_eq!(decode_tags(&"[\"\\u0041\"]".to_string()), Some(tags(&["A"])));
    assert_eq!(decode_tags(&"".to_string()), None);
    assert_eq!(decode_tags(&"[\"a\"".to_string()), None);
    assert_eq!(decode_tags(&"[1]".to_string()), None);
    assert_eq!(decode_tags(&"{}".to_string()), None);
    assert_eq!(decode_tags(&"null".to_string()), None);
}

#[test]
fn tag_lists_are_compared_text_by_text() {
    assert!(same_tags(&tags(&["a", "b"]), &tags(&["a", "b"])));
    assert!(same_tags(&tags(&[]), &tags(&[])));
    assert!(!same_tags(&tags(&["a", "b"]), &tags(&["b", "a"])));
    assert!(!same_tags(&tags(&["a"]), &tags(&["a", "a"])));
    assert!(!same_tags(&tags(&["a"]), &tags(&["A"])));
}

#[test]
fn a_tag_is_found_only_as_a_whole() {
    assert!(contains_tag(&tags(&["xyz", "x"]), &"x".to_string()));
    assert!(!contains_tag(&tags(&["xyz"]), &"x".to_string()));
    assert!(!contains_tag(&tags(&["x"]), &"xyz".to_string()));
    assert!(!contains_tag(&tags(&[]), &"x".to_string()));
    assert!(contains_tag(&tags(&[""]), &"".to_string()));
}
