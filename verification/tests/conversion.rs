//! End-to-end conversion tests: TOML documents in, JSON text out.

use toml2json::convert::toml_to_json;

fn convert_ok(input: &str) -> String {
    toml_to_json(input.as_bytes()).expect("expected a successful conversion")
}

fn convert_err(input: &[u8]) -> bool {
    toml_to_json(input).is_err()
}

#[test]
fn empty_document_renders_empty_object() {
    assert_eq!(convert_ok(""), "{}");
}

#[test]
fn whitespace_only_document_renders_empty_object() {
    assert_eq!(convert_ok("  \n\t  \n"), "{}");
}

#[test]
fn comment_only_document_renders_empty_object() {
    assert_eq!(convert_ok("# just a comment\n"), "{}");
}

#[test]
fn reference_example_matches_exactly() {
    let input = "title = \"x\"\n[a]\nb = 1\nc = [1,2,3]\n";
    assert_eq!(convert_ok(input), "{\"title\":\"x\",\"a\":{\"b\":1,\"c\":[1,2,3]}}");
}

#[test]
fn string_scalar_round_trips() {
    assert_eq!(convert_ok("s = \"hello\"\n"), "{\"s\":\"hello\"}");
}

#[test]
fn string_escapes_match_json_rules() {
    let input = "s = \"a\\\"b\\\\c\\nd\\te\\u0001f\"\n";
    assert_eq!(convert_ok(input), "{\"s\":\"a\\\"b\\\\c\\nd\\te\\u0001f\"}");
}

#[test]
fn unicode_text_passes_through_unescaped() {
    let input = "s = \"h\u{e9}llo \u{2192}\"\n";
    assert_eq!(convert_ok(input), "{\"s\":\"h\u{e9}llo \u{2192}\"}");
}

#[test]
fn literal_string_backslashes_are_escaped() {
    let input = "p = 'C:\\dir\\file'\n";
    assert_eq!(convert_ok(input), "{\"p\":\"C:\\\\dir\\\\file\"}");
}

#[test]
fn integer_scalars_round_trip() {
    assert_eq!(convert_ok("i = 0\n"), "{\"i\":0}");
    assert_eq!(convert_ok("i = 42\n"), "{\"i\":42}");
    assert_eq!(convert_ok("i = -7\n"), "{\"i\":-7}");
}

#[test]
fn extreme_integers_render_exactly() {
    assert_eq!(
        convert_ok("i = 9223372036854775807\n"),
        "{\"i\":9223372036854775807}"
    );
    assert_eq!(
        convert_ok("i = -9223372036854775808\n"),
        "{\"i\":-9223372036854775808}"
    );
}

#[test]
fn boolean_scalars_render_as_literals() {
    assert_eq!(convert_ok("t = true\nf = false\n"), "{\"t\":true,\"f\":false}");
}

#[test]
fn float_scalars_render_as_json_numbers() {
    assert_eq!(convert_ok("x = 1.5\n"), "{\"x\":1.5}");
    assert_eq!(convert_ok("x = -0.25\n"), "{\"x\":-0.25}");
    assert_eq!(convert_ok("x = 1e3\n"), "{\"x\":1000.0}");
}

#[test]
fn non_finite_floats_render_as_null() {
    assert_eq!(convert_ok("x = nan\n"), "{\"x\":null}");
    assert_eq!(convert_ok("x = inf\n"), "{\"x\":null}");
    assert_eq!(convert_ok("x = -inf\n"), "{\"x\":null}");
}

#[test]
fn datetime_scalars_render_as_strings() {
    assert_eq!(
        convert_ok("d = 1979-05-27T07:32:00Z\n"),
        "{\"d\":\"1979-05-27T07:32:00Z\"}"
    );
    assert_eq!(convert_ok("d = 1979-05-27\n"), "{\"d\":\"1979-05-27\"}");
}

#[test]
fn scalar_values_parse_back_to_expected_json() {
    let out = convert_ok("s = \"x\"\ni = 3\nb = true\n");
    let parsed: serde_json::Value = serde_json::from_str(&out).expect("output must be valid JSON");
    let expected: serde_json::Value =
        serde_json::from_str("{\"s\": \"x\", \"i\": 3, \"b\": true}").unwrap();
    assert_eq!(parsed, expected);
}

#[test]
fn nesting_to_depth_five_mirrors_input() {
    let input = "[a]\n[a.b]\n[a.b.c]\n[a.b.c.d]\ne = [[[1,2],[3]],[4]]\n";
    assert_eq!(
        convert_ok(input),
        "{\"a\":{\"b\":{\"c\":{\"d\":{\"e\":[[[1,2],[3]],[4]]}}}}}"
    );
}

#[test]
fn array_of_tables_preserves_order() {
    let input = "[[p]]\nx = 1\n[[p]]\nx = 2\n";
    assert_eq!(convert_ok(input), "{\"p\":[{\"x\":1},{\"x\":2}]}");
}

#[test]
fn inline_tables_render_as_objects() {
    let input = "t = { k = \"v\", n = 2 }\n";
    assert_eq!(convert_ok(input), "{\"t\":{\"k\":\"v\",\"n\":2}}");
}

#[test]
fn key_declaration_order_is_preserved() {
    let input = "z = 1\na = 2\nm = 3\n";
    assert_eq!(convert_ok(input), "{\"z\":1,\"a\":2,\"m\":3}");
}

#[test]
fn distinct_keys_appear_exactly_once() {
    let out = convert_ok("a = 1\nb = 2\nc = 3\nd = 4\n");
    let parsed: serde_json::Value = serde_json::from_str(&out).unwrap();
    let obj = parsed.as_object().expect("top level must be an object");
    assert_eq!(obj.len(), 4);
    for key in ["a", "b", "c", "d"] {
        assert!(obj.contains_key(key));
    }
}

#[test]
fn unterminated_string_is_rejected() {
    assert!(convert_err(b"s = \"abc\n"));
}

#[test]
fn duplicate_key_is_rejected() {
    assert!(convert_err(b"a = 1\na = 2\n"));
}

#[test]
fn bad_date_is_rejected() {
    assert!(convert_err(b"d = 2021-13-99T99:99:99Z\n"));
}

#[test]
fn invalid_utf8_is_rejected() {
    assert!(convert_err(&[0xff, 0xfe, 0x61]));
}

#[test]
fn bare_garbage_is_rejected() {
    assert!(convert_err(b"= = =\n"));
}
