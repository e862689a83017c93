//! Tests of integers as text: parsing stored counters and writing them
//! back.

use rubin::client::RubinClient;
use rubin::numbers::i64_to_string;
use rubin::numbers::parse_i64;

#[test]
fn parses_plain_integers() {
    assert_eq!(parse_i64("0"), Some(0));
    assert_eq!(parse_i64("42"), Some(42));
    assert_eq!(parse_i64("-7"), Some(-7));
    assert_eq!(parse_i64("007"), Some(7));
}

#[test]
fn parses_the_range_ends() {
    assert_eq!(parse_i64("9223372036854775807"), Some(i64::MAX));
    assert_eq!(parse_i64("-9223372036854775808"), Some(i64::MIN));
    assert_eq!(parse_i64("9223372036854775808"), None);
    assert_eq!(parse_i64("-9223372036854775809"), None);
}

#[test]
fn rejects_non_numbers() {
    assert_eq!(parse_i64(""), None);
    assert_eq!(parse_i64("-"), None);
    assert_eq!(parse_i64("12a"), None);
    assert_eq!(parse_i64(" 12"), None);
    assert_eq!(parse_i64("1 2"), None);
    assert_eq!(parse_i64("+12"), None);
}

#[test]
fn writes_integers_back_as_text() {
    assert_eq!(i64_to_string(0), "0");
    assert_eq!(i64_to_string(42), "42");
    assert_eq!(i64_to_string(-5), "-5");
    assert_eq!(i64_to_string(i64::MAX), "9223372036854775807");
    assert_eq!(i64_to_string(i64::MIN), "-9223372036854775808");
}

#[test]
fn integer_text_round_trips() {
    for v in [0i64, 1, -1, 10, -10, 123456789, -987654321, i64::MAX, i64::MIN] {
        assert_eq!(parse_i64(&i64_to_string(v)), Some(v));
    }
}

#[test]
fn client_address_joins_host_and_port() {
    let client = RubinClient::new("127.0.0.1", 9876);
    assert_eq!(client.address, "127.0.0.1:9876");

    let client = RubinClient::new("localhost", 0);
    assert_eq!(client.address, "localhost:0");
}
