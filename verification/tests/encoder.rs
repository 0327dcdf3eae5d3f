//! Unit tests for the verified JSON encoder over hand-built values.

use toml2json::json::encode_json;
use toml2json::value::GenericValue;

#[test]
fn scalars_render_exactly() {
    assert_eq!(encode_json(&GenericValue::Int(0)), "0");
    assert_eq!(encode_json(&GenericValue::Int(-123)), "-123");
    assert_eq!(encode_json(&GenericValue::Bool(true)), "true");
    assert_eq!(encode_json(&GenericValue::Bool(false)), "false");
    assert_eq!(encode_json(&GenericValue::Text(String::from("hi"))), "\"hi\"");
}

#[test]
fn extreme_integers_encode_exactly() {
    assert_eq!(encode_json(&GenericValue::Int(i64::MIN)), "-9223372036854775808");
    assert_eq!(encode_json(&GenericValue::Int(i64::MAX)), "9223372036854775807");
}

#[test]
fn float_tokens_pass_through() {
    assert_eq!(encode_json(&GenericValue::Float(String::from("1.5"))), "1.5");
    assert_eq!(encode_json(&GenericValue::Float(String::from("null"))), "null");
}

#[test]
fn datetimes_render_quoted() {
    assert_eq!(
        encode_json(&GenericValue::Datetime(String::from("1979-05-27T07:32:00Z"))),
        "\"1979-05-27T07:32:00Z\""
    );
}

#[test]
fn control_characters_escape_as_lowercase_hex() {
    let text: String = vec!['\u{1}', '\u{1f}', '\u{b}'].into_iter().collect();
    assert_eq!(
        encode_json(&GenericValue::Text(text)),
        "\"\\u0001\\u001f\\u000b\""
    );
}

#[test]
fn named_escapes_use_short_forms() {
    let text = String::from("\u{8}\t\n\u{c}\r\"\\");
    assert_eq!(
        encode_json(&GenericValue::Text(text)),
        "\"\\b\\t\\n\\f\\r\\\"\\\\\""
    );
}

#[test]
fn empty_containers_render_exactly() {
    assert_eq!(encode_json(&GenericValue::Array(Vec::new())), "[]");
    assert_eq!(encode_json(&GenericValue::Table(Vec::new())), "{}");
}

#[test]
fn nested_containers_render_in_order() {
    let inner = GenericValue::Array(vec![GenericValue::Int(1), GenericValue::Int(2)]);
    let table = GenericValue::Table(vec![
        (String::from("b"), inner),
        (String::from("a"), GenericValue::Bool(false)),
    ]);
    let outer = GenericValue::Array(vec![table, GenericValue::Text(String::from("x"))]);
    assert_eq!(encode_json(&outer), "[{\"b\":[1,2],\"a\":false},\"x\"]");
}

#[test]
fn keys_are_escaped_like_strings() {
    let table = GenericValue::Table(vec![(String::from("a\"b"), GenericValue::Int(1))]);
    assert_eq!(encode_json(&table), "{\"a\\\"b\":1}");
}
