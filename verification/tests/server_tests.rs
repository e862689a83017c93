//! Tests of the connection handler's decision core: one request in, one
//! response out, against a shared store.

use std::collections::HashMap;

use rubin::server::handle_request;
use rubin::store::MemStore;

#[test]
fn set_then_get_over_the_wire() {
    let mut store = MemStore::new();

    let reply = handle_request(&mut store, "SET::user:1000 rebecca");
    assert_eq!(reply.response, "SET::OK\n");
    assert!(reply.dump.is_none());

    let reply = handle_request(&mut store, "GET::user:1000");
    assert_eq!(reply.response, "GET::rebecca\n");
}

#[test]
fn get_of_a_missing_key_answers_an_empty_payload() {
    let mut store = MemStore::new();
    let reply = handle_request(&mut store, "GET::missing-key");
    assert_eq!(reply.response, "GET::\n");
}

#[test]
fn set_with_one_argument_is_a_validation_error() {
    let mut store = MemStore::new();
    let reply = handle_request(&mut store, "SET::onlykey");
    assert_eq!(reply.response, "ERR::message failed validation\n");
    assert_eq!(store.strings.len(), 0);
}

#[test]
fn request_without_delimiter_is_a_format_error() {
    let mut store = MemStore::new();
    let reply = handle_request(&mut store, "BADOP arg");
    assert_eq!(reply.response, "ERR::invalid operation: BADOP arg\n");
    assert_eq!(store.strings.len(), 0);
}

#[test]
fn incr_starts_at_zero_and_counts_up() {
    let mut store = MemStore::new();

    let reply = handle_request(&mut store, "INCR::counter");
    assert_eq!(reply.response, "INCR::1\n");
    assert_eq!(store.get_string("counter"), "1");

    let reply = handle_request(&mut store, "INCR::counter");
    assert_eq!(reply.response, "INCR::2\n");
    assert_eq!(store.get_string("counter"), "2");
}

#[test]
fn decr_counts_down_and_goes_negative() {
    let mut store = MemStore::new();

    let reply = handle_request(&mut store, "DECR::counter");
    assert_eq!(reply.response, "DECR::-1\n");

    let reply = handle_request(&mut store, "DECR::counter");
    assert_eq!(reply.response, "DECR::-2\n");
    assert_eq!(store.get_string("counter"), "-2");
}

#[test]
fn incr_treats_non_numbers_as_zero() {
    let mut store = MemStore::new();
    handle_request(&mut store, "SET::counter not-a-number");

    let reply = handle_request(&mut store, "INCR::counter");
    assert_eq!(reply.response, "INCR::1\n");
}

#[test]
fn dump_hands_back_the_snapshot_for_the_named_path() {
    let mut store = MemStore::new();
    handle_request(&mut store, "SET::key1 value1");
    handle_request(&mut store, "SET::key2 value2");

    let reply = handle_request(&mut store, "DUMP::/tmp/out.json");
    assert_eq!(reply.response, "DUMP::OK\n");

    let (path, text) = reply.dump.unwrap();
    assert_eq!(path, "/tmp/out.json");

    let outer: HashMap<String, HashMap<String, String>> = serde_json::from_str(&text).unwrap();
    let strings = outer.get("strings").unwrap();
    assert_eq!(strings.len(), 2);
    assert_eq!(strings.get("key1").unwrap(), "value1");
    assert_eq!(strings.get("key2").unwrap(), "value2");
}

#[test]
fn remove_answers_the_removed_value() {
    let mut store = MemStore::new();
    handle_request(&mut store, "SET::user:1000 value");

    let reply = handle_request(&mut store, "RM::user:1000");
    assert_eq!(reply.response, "RM::value\n");
    assert_eq!(store.get_string("user:1000"), "");
}

#[test]
fn clear_empties_the_store_over_the_wire() {
    let mut store = MemStore::new();
    handle_request(&mut store, "SET::a 1");
    handle_request(&mut store, "SET::b 2");

    let reply = handle_request(&mut store, "CLR::");
    assert_eq!(reply.response, "CLR::OK\n");
    assert_eq!(store.strings.len(), 0);
}

#[test]
fn noop_touches_nothing() {
    let mut store = MemStore::new();
    handle_request(&mut store, "SET::a 1");

    let reply = handle_request(&mut store, "NOOP::");
    assert_eq!(reply.response, "NOOP::nothing to do\n");
    assert_eq!(store.get_string("a"), "1");
}

#[test]
fn multi_word_set_joins_the_value_tokens() {
    let mut store = MemStore::new();

    let reply = handle_request(&mut store, "SET::greeting hello out there");
    assert_eq!(reply.response, "SET::OK\n");
    assert_eq!(store.get_string("greeting"), "hello out there");
}

#[test]
fn incr_holds_at_the_top_of_the_range() {
    let mut store = MemStore::new();
    handle_request(&mut store, "SET::counter 9223372036854775807");

    let reply = handle_request(&mut store, "INCR::counter");
    assert_eq!(reply.response, "INCR::9223372036854775807\n");
    assert_eq!(store.get_string("counter"), "9223372036854775807");
}

#[test]
fn decr_holds_at_the_bottom_of_the_range() {
    let mut store = MemStore::new();
    handle_request(&mut store, "SET::counter -9223372036854775808");

    let reply = handle_request(&mut store, "DECR::counter");
    assert_eq!(reply.response, "DECR::-9223372036854775808\n");
}

#[test]
fn empty_request_is_a_format_error() {
    let mut store = MemStore::new();
    let reply = handle_request(&mut store, "");
    assert_eq!(reply.response, "ERR::invalid operation: \n");
}

#[test]
fn get_with_two_arguments_is_a_validation_error() {
    let mut store = MemStore::new();
    let reply = handle_request(&mut store, "GET::one two");
    assert_eq!(reply.response, "ERR::message failed validation\n");
}

#[test]
fn trailing_whitespace_is_trimmed_before_decoding() {
    let mut store = MemStore::new();
    let reply = handle_request(&mut store, "SET::key value\r\n");
    assert_eq!(reply.response, "SET::OK\n");
    assert_eq!(store.get_string("key"), "value");
}
