use note_backend::store::{do_insert, Store, _get_note};
use note_backend::types::{Error, Note, NotePayload, NoteVersionPayload, TagPayload};

fn payload(title: &str, content: &str) -> NotePayload {
    NotePayload { title: title.to_string(), content: content.to_string() }
}

#[test]
fn add_note_then_get_matches() {
    let mut store = Store::new();
    let created = store.add_note("alice".to_string(), payload("A", "hello world"), 100).unwrap();
    assert_eq!(created.id, 1);
    assert_eq!(created.owner, "alice");
    assert_eq!(created.created_at, 100);
    assert_eq!(created.updated_at, None);
    assert!(created.tag_ids.is_empty());
    let fetched = store.get_note(created.id).unwrap();
    assert_eq!(fetched.title, "A");
    assert_eq!(fetched.content, "hello world");
    assert_eq!(fetched.created_at, 100);
    assert_eq!(fetched.updated_at, None);
}

#[test]
fn ids_strictly_increase_across_entity_kinds() {
    let mut store = Store::new();
    let n1 = store.add_note("a".to_string(), payload("one", "text"), 1).unwrap();
    let t1 = store.add_tag(TagPayload { name: "red".to_string() }).unwrap();
    assert!(t1.id > n1.id);
    store.delete_note("a".to_string(), n1.id).unwrap();
    let v1 = store
        .create_note_version(
            99,
            NoteVersionPayload { title: "t".to_string(), content: "c".to_string() },
            5,
        )
        .unwrap();
    assert!(v1.id > t1.id);
    let n2 = store.add_note("a".to_string(), payload("two", "text"), 2).unwrap();
    assert!(n2.id > v1.id);
    assert_eq!(vec![n1.id, t1.id, v1.id, n2.id], vec![1, 2, 3, 4]);
}

#[test]
fn update_note_preserves_id_and_created_at() {
    let mut store = Store::new();
    let n = store.add_note("bob".to_string(), payload("first", "draft text"), 10).unwrap();
    let updated = store.update_note("bob".to_string(), n.id, payload("second", "final text"), 20).unwrap();
    assert_eq!(updated.id, n.id);
    assert_eq!(updated.created_at, 10);
    assert_eq!(updated.title, "second");
    assert_eq!(updated.content, "final text");
    assert_eq!(updated.updated_at, Some(20));
    let again = store.update_note("bob".to_string(), n.id, payload("third", "more text"), 25).unwrap();
    assert_eq!(again.updated_at, Some(25));
    assert_eq!(again.created_at, 10);
    let err = store.update_note("bob".to_string(), 999, payload("a", "b"), 30).unwrap_err();
    assert!(matches!(err, Error::NotFound { .. }));
    assert_eq!(err.message(), "Couldn't update a note with id=999. Note not found");
}

#[test]
fn update_note_requires_owner() {
    let mut store = Store::new();
    let n = store.add_note("bob".to_string(), payload("mine", "content"), 1).unwrap();
    let err = store.update_note("mallory".to_string(), n.id, payload("x", "y"), 2).unwrap_err();
    assert!(matches!(err, Error::AuthenticationFailed { .. }));
    assert_eq!(
        err.message(),
        "Caller=mallory isn't the owner of the note with id=1"
    );
    let unchanged = store.get_note(n.id).unwrap();
    assert_eq!(unchanged.title, "mine");
    assert_eq!(unchanged.updated_at, None);
}

#[test]
fn delete_then_get_misses() {
    let mut store = Store::new();
    let n = store.add_note("carol".to_string(), payload("gone", "soon"), 1).unwrap();
    let removed = store.delete_note("carol".to_string(), n.id).unwrap();
    assert_eq!(removed.id, n.id);
    assert_eq!(removed.title, "gone");
    let err = store.get_note(n.id).unwrap_err();
    assert!(matches!(err, Error::NotFound { .. }));
    let err2 = store.delete_note("carol".to_string(), n.id).unwrap_err();
    assert!(matches!(err2, Error::NotFound { .. }));
    assert_eq!(err2.message(), "Couldn't delete a note with id=1. Note not found");
}

#[test]
fn delete_note_requires_owner() {
    let mut store = Store::new();
    let n = store.add_note("carol".to_string(), payload("keep", "this"), 1).unwrap();
    let err = store.delete_note("dave".to_string(), n.id).unwrap_err();
    assert!(matches!(err, Error::AuthenticationFailed { .. }));
    assert!(store.get_note(n.id).is_ok());
}

#[test]
fn duplicate_tag_name_rejected() {
    let mut store = Store::new();
    store.add_tag(TagPayload { name: "work".to_string() }).unwrap();
    let before = store.list_all_tags().len();
    let err = store.add_tag(TagPayload { name: "work".to_string() }).unwrap_err();
    assert!(matches!(err, Error::DuplicateTagName { .. }));
    assert_eq!(err.message(), "Tag with this name already exists");
    assert_eq!(store.list_all_tags().len(), before);
}

#[test]
fn tags_list_ascending_and_update_preserves_id() {
    let mut store = Store::new();
    let a = store.add_tag(TagPayload { name: "alpha".to_string() }).unwrap();
    let b = store.add_tag(TagPayload { name: "beta".to_string() }).unwrap();
    let tags = store.list_all_tags();
    assert_eq!(tags.len(), 2);
    assert!(tags[0].id < tags[1].id);
    let renamed = store.update_tag(a.id, TagPayload { name: "gamma".to_string() }).unwrap();
    assert_eq!(renamed.id, a.id);
    assert_eq!(renamed.name, "gamma");
    store.delete_tag(b.id).unwrap();
    assert_eq!(store.list_all_tags().len(), 1);
    let err = store.delete_tag(b.id).unwrap_err();
    assert!(matches!(err, Error::NotFound { .. }));
    let err2 = store.update_tag(b.id, TagPayload { name: "x".to_string() }).unwrap_err();
    assert!(matches!(err2, Error::NotFound { .. }));
}

#[test]
fn assign_tag_twice_errors_without_duplicates() {
    let mut store = Store::new();
    let n = store.add_note("eve".to_string(), payload("tagged", "note"), 1).unwrap();
    let t = store.add_tag(TagPayload { name: "urgent".to_string() }).unwrap();
    store.assign_tag_to_note(n.id, t.id).unwrap();
    let err = store.assign_tag_to_note(n.id, t.id).unwrap_err();
    assert!(matches!(err, Error::AlreadyAssigned { .. }));
    assert_eq!(err.message(), "Tag already assigned to this note");
    let fetched = store.get_note(n.id).unwrap();
    assert_eq!(fetched.tag_ids, vec![t.id]);
    let err2 = store.assign_tag_to_note(999, t.id).unwrap_err();
    assert!(matches!(err2, Error::NotFound { .. }));
}

#[test]
fn remove_tag_from_note_strikes_the_id() {
    let mut store = Store::new();
    let n = store.add_note("eve".to_string(), payload("tagged", "note"), 1).unwrap();
    let t1 = store.add_tag(TagPayload { name: "one".to_string() }).unwrap();
    let t2 = store.add_tag(TagPayload { name: "two".to_string() }).unwrap();
    store.assign_tag_to_note(n.id, t1.id).unwrap();
    store.assign_tag_to_note(n.id, t2.id).unwrap();
    store.remove_tag_from_note(n.id, t1.id).unwrap();
    assert_eq!(store.get_note(n.id).unwrap().tag_ids, vec![t2.id]);
    // removing a tag that is not assigned succeeds and changes nothing
    store.remove_tag_from_note(n.id, t1.id).unwrap();
    assert_eq!(store.get_note(n.id).unwrap().tag_ids, vec![t2.id]);
    let err = store.remove_tag_from_note(12345, t1.id).unwrap_err();
    assert!(matches!(err, Error::NotFound { .. }));
}

#[test]
fn deleting_a_tag_leaves_dangling_references() {
    let mut store = Store::new();
    let n = store.add_note("eve".to_string(), payload("holder", "note"), 1).unwrap();
    let t = store.add_tag(TagPayload { name: "doomed".to_string() }).unwrap();
    store.assign_tag_to_note(n.id, t.id).unwrap();
    store.delete_tag(t.id).unwrap();
    // the note still references the deleted tag id, by design
    assert_eq!(store.get_note(n.id).unwrap().tag_ids, vec![t.id]);
    // but the tag itself no longer resolves
    assert_eq!(store.get_tags_for_note(n.id).unwrap().len(), 0);
}

#[test]
fn version_numbers_run_sequentially_per_note() {
    let mut store = Store::new();
    let vp = |t: &str| NoteVersionPayload { title: t.to_string(), content: "c".to_string() };
    let v1 = store.create_note_version(7, vp("a"), 1).unwrap();
    let v2 = store.create_note_version(7, vp("b"), 2).unwrap();
    let other = store.create_note_version(8, vp("x"), 3).unwrap();
    let v3 = store.create_note_version(7, vp("c"), 4).unwrap();
    assert_eq!(v1.version_number, 1);
    assert_eq!(v2.version_number, 2);
    assert_eq!(other.version_number, 1);
    assert_eq!(v3.version_number, 3);
    let listed = store.list_note_versions(7);
    assert_eq!(listed.len(), 3);
    assert_eq!(
        listed.iter().map(|v| v.version_number).collect::<Vec<_>>(),
        vec![1, 2, 3]
    );
    store.delete_note_version(v2.id).unwrap();
    assert_eq!(store.list_note_versions(7).len(), 2);
    assert!(matches!(
        store.delete_note_version(v2.id).unwrap_err(),
        Error::NotFound { .. }
    ));
    assert!(matches!(
        store.get_note_version(v2.id).unwrap_err(),
        Error::NotFound { .. }
    ));
    assert_eq!(store.get_note_version(v1.id).unwrap().title, "a");
}

#[test]
fn revert_restores_title_and_content() {
    let mut store = Store::new();
    let n = store.add_note("fay".to_string(), payload("original", "first words"), 1).unwrap();
    let v = store
        .create_note_version(
            n.id,
            NoteVersionPayload { title: n.title.clone(), content: n.content.clone() },
            2,
        )
        .unwrap();
    store.update_note("fay".to_string(), n.id, payload("changed", "other words"), 3).unwrap();
    let reverted = store.revert_to_version(n.id, v.id, 4).unwrap();
    assert_eq!(reverted.title, "original");
    assert_eq!(reverted.content, "first words");
    assert_eq!(reverted.updated_at, Some(4));
    assert_eq!(reverted.created_at, 1);
}

#[test]
fn revert_with_mismatched_note_fails_without_mutation() {
    let mut store = Store::new();
    let n1 = store.add_note("gil".to_string(), payload("left", "note one"), 1).unwrap();
    let n2 = store.add_note("gil".to_string(), payload("right", "note two"), 2).unwrap();
    let v = store
        .create_note_version(
            n1.id,
            NoteVersionPayload { title: "snap".to_string(), content: "shot".to_string() },
            3,
        )
        .unwrap();
    let err = store.revert_to_version(n2.id, v.id, 4).unwrap_err();
    assert!(matches!(err, Error::VersionMismatch { .. }));
    assert_eq!(err.message(), "Version does not match the note");
    let untouched = store.get_note(n2.id).unwrap();
    assert_eq!(untouched.title, "right");
    assert_eq!(untouched.updated_at, None);
    let err2 = store.revert_to_version(n2.id, 999, 4).unwrap_err();
    assert!(matches!(err2, Error::NotFound { .. }));
}

#[test]
fn create_update_delete_scenario() {
    let mut store = Store::new();
    let caller = "hana".to_string();
    let created = store.add_note(caller.clone(), payload("A", "hello world"), 50).unwrap();
    assert_eq!(created.id, 1);
    let updated = store.update_note(caller.clone(), 1, payload("B", "bye"), 60).unwrap();
    assert_eq!(updated.id, 1);
    assert_eq!(updated.title, "B");
    assert!(updated.updated_at.is_some());
    store.delete_note(caller, 1).unwrap();
    assert!(matches!(store.get_note(1).unwrap_err(), Error::NotFound { .. }));
}

#[test]
fn do_insert_and_get_note_helpers() {
    let mut store = Store::new();
    let n = store.add_note("ida".to_string(), payload("base", "text"), 1).unwrap();
    let replacement = Note {
        id: n.id,
        owner: "ida".to_string(),
        title: "swapped".to_string(),
        content: "in place".to_string(),
        created_at: n.created_at,
        updated_at: Some(9),
        tag_ids: vec![],
    };
    do_insert(&mut store, &replacement);
    let got = _get_note(&store, &n.id).unwrap();
    assert_eq!(got.title, "swapped");
    assert_eq!(got.content, "in place");
    assert_eq!(got.updated_at, Some(9));
    assert!(_get_note(&store, &777).is_none());
}

#[test]
fn oversized_records_are_rejected_deterministically() {
    let mut store = Store::new();
    let big = "x".repeat(2000);
    let err = store.add_note("joe".to_string(), payload(&big, "content"), 1).unwrap_err();
    assert!(matches!(err, Error::InvalidInput { .. }));
    assert!(matches!(store.get_all_notes().unwrap_err(), Error::NotFound { .. }));
    let err2 = store.add_tag(TagPayload { name: big.clone() }).unwrap_err();
    assert!(matches!(err2, Error::InvalidInput { .. }));
    let err3 = store
        .create_note_version(
            1,
            NoteVersionPayload { title: big, content: "c".to_string() },
            1,
        )
        .unwrap_err();
    assert!(matches!(err3, Error::InvalidInput { .. }));
}

#[test]
fn empty_payload_fails_validation() {
    let mut store = Store::new();
    let err = store.add_note("kim".to_string(), payload("", "content"), 1).unwrap_err();
    assert!(matches!(err, Error::ValidationFailed { .. }));
    let err2 = store.add_note("kim".to_string(), payload("title", ""), 1).unwrap_err();
    assert!(matches!(err2, Error::ValidationFailed { .. }));
    assert!(matches!(store.get_all_notes().unwrap_err(), Error::NotFound { .. }));
}
