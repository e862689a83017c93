//! Tests of the snapshot codec: the exact canonical text, the
//! write-then-load round trip, rejection of malformed text, and a
//! cross-check of the written text against an independent JSON reader.

use std::collections::HashMap;

use rubin::errors::SnapshotError;
use rubin::snapshot::decode_snapshot;
use rubin::snapshot::encode_snapshot;
use rubin::store::MemStore;

#[test]
fn empty_store_snapshot_text() {
    let ms = MemStore::new();
    assert_eq!(encode_snapshot(&ms), "{\n  \"strings\": {}\n}");
}

#[test]
fn one_entry_snapshot_text() {
    let mut ms = MemStore::new();
    ms.insert_string("a", "b");
    assert_eq!(encode_snapshot(&ms), "{\n  \"strings\": {\n    \"a\": \"b\"\n  }\n}");
}

#[test]
fn snapshot_round_trip_plain() {
    let mut ms = MemStore::new();
    ms.insert_string("key1", "value1");
    ms.insert_string("key2", "value2");
    ms.insert_string("user:1000", "rebecca");

    let text = encode_snapshot(&ms);
    let loaded = decode_snapshot(&text).unwrap();

    assert_eq!(loaded.get_string("key1"), "value1");
    assert_eq!(loaded.get_string("key2"), "value2");
    assert_eq!(loaded.get_string("user:1000"), "rebecca");
    assert_eq!(loaded.strings.len(), 3);
}

#[test]
fn snapshot_round_trip_empty() {
    let ms = MemStore::new();
    let text = encode_snapshot(&ms);
    let loaded = decode_snapshot(&text).unwrap();
    assert_eq!(loaded.strings.len(), 0);
}

#[test]
fn snapshot_round_trip_escapes() {
    let mut ms = MemStore::new();
    ms.insert_string("quote\"key", "back\\slash");
    ms.insert_string("line\nbreak", "tab\there");
    ms.insert_string("bell\u{7}", "esc\u{1b}end");
    ms.insert_string("", "empty key above, empty value below");
    ms.insert_string("empty-value", "");

    let text = encode_snapshot(&ms);
    let loaded = decode_snapshot(&text).unwrap();

    assert_eq!(loaded.get_string("quote\"key"), "back\\slash");
    assert_eq!(loaded.get_string("line\nbreak"), "tab\there");
    assert_eq!(loaded.get_string("bell\u{7}"), "esc\u{1b}end");
    assert_eq!(loaded.get_string(""), "empty key above, empty value below");
    assert_eq!(loaded.get_string("empty-value"), "");
    assert_eq!(loaded.strings.len(), 5);
}

#[test]
fn snapshot_rejects_malformed_text() {
    assert!(matches!(decode_snapshot(""), Err(SnapshotError::Malformed)));
    assert!(matches!(decode_snapshot("{}"), Err(SnapshotError::Malformed)));
    assert!(matches!(
        decode_snapshot("not json at all"),
        Err(SnapshotError::Malformed)
    ));
    assert!(matches!(
        decode_snapshot("{\n  \"strings\": {\n    \"a\": \"b\"\n  }\n} "),
        Err(SnapshotError::Malformed)
    ));
    assert!(matches!(
        decode_snapshot("{\n  \"strings\": {\n    \"a\": \"b\""),
        Err(SnapshotError::Malformed)
    ));
}

#[test]
fn snapshot_rejects_duplicate_keys() {
    let text = "{\n  \"strings\": {\n    \"a\": \"1\",\n    \"a\": \"2\"\n  }\n}";
    assert!(matches!(decode_snapshot(text), Err(SnapshotError::DuplicateKey)));
}

#[test]
fn snapshot_text_reads_as_json_elsewhere() {
    let mut ms = MemStore::new();
    ms.insert_string("plain", "value");
    ms.insert_string("quote\"and\\slash", "line\nfeed");
    ms.insert_string("control\u{1}", "tail");

    let text = encode_snapshot(&ms);
    let outer: HashMap<String, HashMap<String, String>> = serde_json::from_str(&text).unwrap();
    let strings = outer.get("strings").unwrap();

    assert_eq!(strings.len(), 3);
    assert_eq!(strings.get("plain").unwrap(), "value");
    assert_eq!(strings.get("quote\"and\\slash").unwrap(), "line\nfeed");
    assert_eq!(strings.get("control\u{1}").unwrap(), "tail");
}

#[test]
fn snapshot_reads_named_control_escapes() {
    let text = "{\n  \"strings\": {\n    \"k\": \"a\\u0000b\\u001fc\"\n  }\n}";
    let loaded = decode_snapshot(text).unwrap();
    assert_eq!(loaded.get_string("k"), "a\u{0}b\u{1f}c");
}
