//! Tests of the storage engine: insert, get, remove, clear and the
//! empty-string sentinel for absent keys.

use rubin::store::MemStore;

#[test]
fn mod_empty() {
    let ms = MemStore::new();
    assert_eq!(ms.strings.len(), 0);
    let strings = ms.strings.get_ref();
    assert_eq!(strings.len(), 0);
}

#[test]
fn mod_string_store_add_entries() {
    let mut ms = MemStore::new();
    let mut result = ms.insert_string("key1", "value1");

    assert_eq!(ms.strings.len(), 1);
    assert_eq!(result, "value1");

    result = ms.insert_string("key2", "value2");

    assert_eq!(ms.strings.len(), 2);
    assert_eq!(result, "value2");
}

#[test]
fn mod_string_store_add_loads_of_entries() {
    let mut ms = MemStore::new();

    for i in 0..100_000 {
        let key = format!("key-{}", i);
        let value = format!("value-{}", i);
        let result = ms.insert_string(&key, &value);
        assert_eq!(result, value);
    }

    assert!(ms.strings.len() == 100_000);
}

#[test]
fn mod_string_store_get_entries() {
    let mut ms = MemStore::new();
    ms.insert_string("key1", "value1");
    ms.insert_string("key2", "value2");

    let mut result = ms.get_string("key2");
    assert_eq!(result, "value2");
    result = ms.get_string("key1");
    assert_eq!(result, "value1");
}

#[test]
fn mod_string_store_no_entries() {
    let ms = MemStore::new();
    let result = ms.get_string("key1");
    assert_eq!(result, "");
}

#[test]
fn mod_clear_string_store() {
    let mut ms = MemStore::new();
    for i in 0..1000 {
        let key = format!("key-{}", i);
        ms.insert_string(&key, "value");
    }

    assert!(ms.strings.len() == 1000);
    ms.clear_strings();
    assert!(ms.strings.len() == 0);
}

#[test]
fn get_string_store_ref() {
    let ms = MemStore::new();
    let strings = ms.get_string_store_ref();
    assert_eq!(ms.strings.get_ref(), strings);
}

#[test]
fn empty() {
    let ms = MemStore::new();
    assert_eq!(ms.strings.len(), 0);
}

#[test]
fn string_store_add_entries() {
    let mut ms = MemStore::new();
    let mut result = ms.insert_string("key1", "value1");

    assert_eq!(ms.strings.len(), 1);
    assert_eq!(result, "value1");

    result = ms.insert_string("key2", "value2");

    assert_eq!(ms.strings.len(), 2);
    assert_eq!(result, "value2");
}

#[test]
fn string_store_add_loads_of_entries() {
    let mut ms = MemStore::new();

    for i in 0..100_000 {
        let key = format!("key-{}", i);
        let value = format!("value-{}", i);
        let result = ms.insert_string(&key, &value);
        assert_eq!(result, value);
    }
}

#[test]
fn string_store_get_entries() {
    let mut ms = MemStore::new();
    ms.insert_string("key1", "value1");
    ms.insert_string("key2", "value2");

    let mut result = ms.get_string("key2");
    assert_eq!(result, "value2");
    result = ms.get_string("key1");
    assert_eq!(result, "value1");
}

#[test]
fn string_store_no_entries() {
    let ms = MemStore::new();
    let result = ms.get_string("key1");
    assert_eq!(result, "");
}

#[test]
fn clear_string_store() {
    let mut ms = MemStore::new();
    for i in 0..1000 {
        let key = format!("key-{}", i);
        ms.insert_string(&key, "value");
    }

    assert!(ms.strings.len() == 1000);
    ms.clear_strings();
    assert!(ms.strings.len() == 0);
}

#[test]
fn insert_then_get_returns_the_value() {
    let mut ms = MemStore::new();
    ms.insert_string("user:1000", "rebecca");
    assert_eq!(ms.get_string("user:1000"), "rebecca");

    ms.insert_string("user:1000", "graham");
    assert_eq!(ms.get_string("user:1000"), "graham");
}

#[test]
fn remove_returns_the_prior_value_and_leaves_the_sentinel() {
    let mut ms = MemStore::new();
    ms.insert_string("user:1000", "value");

    let removed = ms.remove_string("user:1000");
    assert_eq!(removed, "value");
    assert_eq!(ms.get_string("user:1000"), "");

    let removed_again = ms.remove_string("user:1000");
    assert_eq!(removed_again, "");
}

#[test]
fn clear_makes_every_key_read_as_the_sentinel() {
    let mut ms = MemStore::new();
    ms.insert_string("a", "1");
    ms.insert_string("b", "2");
    ms.clear_strings();
    assert_eq!(ms.get_string("a"), "");
    assert_eq!(ms.get_string("b"), "");
}

#[test]
fn entries_keep_first_insertion_order() {
    let mut ms = MemStore::new();
    ms.insert_string("b", "2");
    ms.insert_string("a", "1");
    ms.insert_string("b", "3");

    let entries = ms.get_string_store_ref();
    assert_eq!(entries.len(), 2);
    assert_eq!(entries[0].0, "b");
    assert_eq!(entries[0].1, "3");
    assert_eq!(entries[1].0, "a");
    assert_eq!(entries[1].1, "1");
}
