//! Tests of the persistence wrapper: the flush policy and the
//! write-then-load round trip.

use rubin::errors::SnapshotError;
use rubin::persistence::PersistentStore;
use rubin::store::MemStore;

#[test]
fn fresh_wrapper_is_empty_and_lazy() {
    let ps = PersistentStore::new("some/storage/location");
    assert_eq!(ps.path, "some/storage/location");
    assert!(!ps.write_on_update);
    assert_eq!(ps.store.strings.len(), 0);
    assert_eq!(
        ps.storage_file_path(),
        "some/storage/location/rubinstore.json"
    );
}

#[test]
fn from_store_keeps_the_seed_contents() {
    let mut ms = MemStore::new();
    ms.insert_string("key-1", "value-1");
    let ps = PersistentStore::from_store("loc", ms);
    assert_eq!(ps.get_string("key-1"), "value-1");
    assert!(!ps.write_on_update);
}

#[test]
fn lazy_mutations_ask_for_no_flush() {
    let mut ps = PersistentStore::new("loc");

    let (stored, flush) = ps.insert_string("key1", "value1");
    assert_eq!(stored, "value1");
    assert!(flush.is_none());

    let (_removed, flush) = ps.remove_string("key1");
    assert!(flush.is_none());

    let flush = ps.clear_strings();
    assert!(flush.is_none());
}

#[test]
fn write_on_update_asks_for_a_flush_after_each_mutation() {
    let mut ps = PersistentStore::new("loc");
    ps.set_write_on_update(true);

    let (_, flush) = ps.insert_string("key2", "value2");
    let text = flush.unwrap();
    assert_eq!(text, ps.write());

    let (_, flush) = ps.remove_string("key2");
    assert!(flush.is_some());

    let flush = ps.clear_strings();
    assert_eq!(flush.unwrap(), "{\n  \"strings\": {}\n}");
}

#[test]
fn write_then_load_restores_the_contents() {
    let mut ps = PersistentStore::new("loc");
    ps.insert_string("key1", "value1");
    ps.insert_string("key2", "value two words");

    let text = ps.write();

    let mut fresh = PersistentStore::new("loc");
    fresh.load(&text).unwrap();

    assert_eq!(fresh.get_string("key1"), "value1");
    assert_eq!(fresh.get_string("key2"), "value two words");
    assert_eq!(fresh.store.strings.len(), 2);
}

#[test]
fn loading_empty_content_leaves_the_store_empty() {
    let mut ps = PersistentStore::new("loc");
    ps.load("").unwrap();
    assert_eq!(ps.store.strings.len(), 0);
}

#[test]
fn loading_a_corrupt_snapshot_is_an_error() {
    let mut ps = PersistentStore::new("loc");
    ps.insert_string("kept", "value");

    let result = ps.load("{\"strings\": 7}");
    assert_eq!(result, Err(SnapshotError::Malformed));
    assert_eq!(ps.get_string("kept"), "value");
}
