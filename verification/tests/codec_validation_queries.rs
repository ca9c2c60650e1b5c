use note_backend::codec::{
    decode_note, decode_tag, decode_version, encode_note, encode_tag, encode_version,
};
use note_backend::store::Store;
use note_backend::types::{Error, Note, NotePayload, NoteVersion, Tag, TagPayload};
use note_backend::utils::{count_words, str_contains, validate_payload, _check_input};

fn payload(title: &str, content: &str) -> NotePayload {
    NotePayload { title: title.to_string(), content: content.to_string() }
}

fn sample_note() -> Note {
    Note {
        id: 42,
        owner: "owner-принципал".to_string(),
        title: "Grüße".to_string(),
        content: "multi\nline — contents".to_string(),
        created_at: 123456789,
        updated_at: Some(987654321),
        tag_ids: vec![1, 5, 9],
    }
}

#[test]
fn note_codec_round_trips() {
    let n = sample_note();
    let bytes = encode_note(&n);
    let back = decode_note(bytes.as_slice()).unwrap();
    assert_eq!(back.id, n.id);
    assert_eq!(back.owner, n.owner);
    assert_eq!(back.title, n.title);
    assert_eq!(back.content, n.content);
    assert_eq!(back.created_at, n.created_at);
    assert_eq!(back.updated_at, n.updated_at);
    assert_eq!(back.tag_ids, n.tag_ids);
    // a buffer that decodes is exactly the encoding of what it decodes to
    assert_eq!(encode_note(&back), bytes);
}

#[test]
fn note_codec_round_trips_without_update_time() {
    let mut n = sample_note();
    n.updated_at = None;
    n.tag_ids = vec![];
    let bytes = encode_note(&n);
    let back = decode_note(bytes.as_slice()).unwrap();
    assert_eq!(back.updated_at, None);
    assert!(back.tag_ids.is_empty());
    assert_eq!(encode_note(&back), bytes);
}

#[test]
fn tag_codec_round_trips() {
    let t = Tag { id: 7, name: "métier".to_string() };
    let bytes = encode_tag(&t);
    let back = decode_tag(bytes.as_slice()).unwrap();
    assert_eq!(back.id, 7);
    assert_eq!(back.name, "métier");
    assert_eq!(encode_tag(&back), bytes);
}

#[test]
fn version_codec_round_trips() {
    let v = NoteVersion {
        id: 11,
        note_id: 3,
        title: "snapshot".to_string(),
        content: "of the note".to_string(),
        version_number: 4,
        created_at: 55,
    };
    let bytes = encode_version(&v);
    let back = decode_version(bytes.as_slice()).unwrap();
    assert_eq!(back.id, 11);
    assert_eq!(back.note_id, 3);
    assert_eq!(back.version_number, 4);
    assert_eq!(encode_version(&back), bytes);
}

#[test]
fn corrupt_buffers_do_not_decode() {
    assert!(decode_note(&[]).is_none());
    assert!(decode_tag(&[1, 2, 3]).is_none());
    assert!(decode_version(&[0; 7]).is_none());
    let mut bytes = encode_tag(&Tag { id: 1, name: "ok".to_string() });
    bytes.push(0);
    assert!(decode_tag(bytes.as_slice()).is_none());
    // a length prefix pointing past the buffer is rejected
    let short = encode_tag(&Tag { id: 1, name: "okay".to_string() });
    assert!(decode_tag(&short[..short.len() - 1]).is_none());
}

#[test]
fn validate_payload_checks_title_and_word_count() {
    let err = validate_payload(&payload("ab", "one two three four five")).unwrap_err();
    match &err {
        Error::InvalidInput { msg } => assert_eq!(msg, "Title should be more than 3 letters"),
        _ => panic!("expected InvalidInput"),
    }
    let err2 = validate_payload(&payload("abc", "one two three four")).unwrap_err();
    match &err2 {
        Error::InvalidInput { msg } => assert_eq!(msg, "Content should be more than 5 words"),
        _ => panic!("expected InvalidInput"),
    }
    assert_eq!(
        _check_input(&payload("", "x")).unwrap_err().message(),
        "title and content must each have at least one character"
    );
    assert!(validate_payload(&payload("abc", "one two three four five")).is_ok());
    // the title check counts bytes, so a two-byte character passes alone with one more byte
    assert!(validate_payload(&payload("éa", "one two three four five")).is_ok());
}

#[test]
fn check_input_requires_nonempty_fields() {
    assert!(matches!(
        _check_input(&payload("", "something")).unwrap_err(),
        Error::ValidationFailed { .. }
    ));
    assert!(matches!(
        _check_input(&payload("something", "")).unwrap_err(),
        Error::ValidationFailed { .. }
    ));
    assert!(_check_input(&payload("a", "b")).is_ok());
}

#[test]
fn count_words_splits_on_unicode_whitespace() {
    assert_eq!(count_words(""), 0);
    assert_eq!(count_words("   "), 0);
    assert_eq!(count_words("one"), 1);
    assert_eq!(count_words("one two\tthree\nfour  five"), 5);
    assert_eq!(count_words(" leading and trailing "), 3);
}

#[test]
fn str_contains_finds_substrings() {
    assert!(str_contains("hello world", "lo wo"));
    assert!(str_contains("hello", ""));
    assert!(str_contains("", ""));
    assert!(!str_contains("", "a"));
    assert!(!str_contains("abc", "abcd"));
    assert!(str_contains("größer", "öße"));
}

#[test]
fn search_notes_scans_title_and_content() {
    let mut store = Store::new();
    store.add_note("a".to_string(), payload("shopping list", "buy milk"), 1).unwrap();
    store.add_note("a".to_string(), payload("diary", "went shopping today"), 2).unwrap();
    store.add_note("a".to_string(), payload("other", "nothing here"), 3).unwrap();
    let hits = store.search_notes("shopping".to_string()).unwrap();
    assert_eq!(hits.len(), 2);
    assert!(hits[0].id < hits[1].id);
    let err = store.search_notes("absent".to_string()).unwrap_err();
    assert!(matches!(err, Error::NotFound { .. }));
    assert_eq!(err.message(), "No notes found matching the query: 'absent'");
}

#[test]
fn notes_by_tag_count_and_titles() {
    let mut store = Store::new();
    let n1 = store.add_note("a".to_string(), payload("first", "one"), 1).unwrap();
    let n2 = store.add_note("a".to_string(), payload("second", "two"), 2).unwrap();
    store.add_note("a".to_string(), payload("third", "three"), 3).unwrap();
    let t = store.add_tag(TagPayload { name: "starred".to_string() }).unwrap();
    store.assign_tag_to_note(n1.id, t.id).unwrap();
    store.assign_tag_to_note(n2.id, t.id).unwrap();
    let by_tag = store.get_notes_by_tag(t.id).unwrap();
    assert_eq!(by_tag.len(), 2);
    assert_eq!(by_tag[0].id, n1.id);
    assert_eq!(by_tag[1].id, n2.id);
    assert_eq!(store.count_notes_by_tag(t.id).unwrap(), 2);
    assert_eq!(store.count_notes_by_tag(9999).unwrap(), 0);
    let titles = store.list_note_titles_by_tag(t.id).unwrap();
    assert_eq!(titles, vec!["first".to_string(), "second".to_string()]);
    assert!(matches!(
        store.get_notes_by_tag(9999).unwrap_err(),
        Error::NotFound { .. }
    ));
    assert!(matches!(
        store.list_note_titles_by_tag(9999).unwrap_err(),
        Error::NotFound { .. }
    ));
}

#[test]
fn tags_for_note_resolves_references() {
    let mut store = Store::new();
    let n = store.add_note("a".to_string(), payload("holder", "text"), 1).unwrap();
    let t1 = store.add_tag(TagPayload { name: "one".to_string() }).unwrap();
    let t2 = store.add_tag(TagPayload { name: "two".to_string() }).unwrap();
    store.add_tag(TagPayload { name: "unrelated".to_string() }).unwrap();
    store.assign_tag_to_note(n.id, t2.id).unwrap();
    store.assign_tag_to_note(n.id, t1.id).unwrap();
    let tags = store.get_tags_for_note(n.id).unwrap();
    assert_eq!(tags.len(), 2);
    assert_eq!(tags[0].id, t1.id);
    assert_eq!(tags[1].id, t2.id);
    assert!(matches!(
        store.get_tags_for_note(424242).unwrap_err(),
        Error::NotFound { .. }
    ));
}

#[test]
fn updated_within_range_excludes_untouched_notes() {
    let mut store = Store::new();
    let n1 = store.add_note("a".to_string(), payload("one", "text"), 1).unwrap();
    store.add_note("a".to_string(), payload("two", "text"), 2).unwrap();
    let n3 = store.add_note("a".to_string(), payload("three", "text"), 3).unwrap();
    store.update_note("a".to_string(), n1.id, payload("one b", "text"), 100).unwrap();
    store.update_note("a".to_string(), n3.id, payload("three b", "text"), 200).unwrap();
    let hits = store.get_notes_updated_within_range(100, 200).unwrap();
    assert_eq!(hits.len(), 2);
    let only_first = store.get_notes_updated_within_range(50, 150).unwrap();
    assert_eq!(only_first.len(), 1);
    assert_eq!(only_first[0].id, n1.id);
    assert!(matches!(
        store.get_notes_updated_within_range(300, 400).unwrap_err(),
        Error::NotFound { .. }
    ));
}

#[test]
fn get_all_notes_lists_ascending_or_misses() {
    let mut store = Store::new();
    assert!(matches!(store.get_all_notes().unwrap_err(), Error::NotFound { .. }));
    store.add_note("a".to_string(), payload("x", "1"), 1).unwrap();
    store.add_note("a".to_string(), payload("y", "2"), 2).unwrap();
    let all = store.get_all_notes().unwrap();
    assert_eq!(all.len(), 2);
    assert!(all[0].id < all[1].id);
}

#[test]
fn error_messages_quote_the_id() {
    let store = Store::new();
    let err = store.get_note(5).unwrap_err();
    assert_eq!(err.message(), "A note with id=5 not found");
    let err2 = store.get_note(1234567890).unwrap_err();
    assert_eq!(err2.message(), "A note with id=1234567890 not found");
    let err3 = store.get_note(0).unwrap_err();
    assert_eq!(err3.message(), "A note with id=0 not found");
}
