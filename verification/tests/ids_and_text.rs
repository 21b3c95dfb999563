use quas_wex_exort::mcp::common::{
    enrich_tool_not_found, gen_id, id_from, is_tool_not_found, normalize_arguments,
    required_header, split_aih, trim, RawArguments,
};
use serde_json::Value;
use quas_wex_exort::text::{push_decimal, str_contains};

#[test]
fn id_from_pads_base62_to_eleven() {
    assert_eq!(id_from(0), "00000000000");
    assert_eq!(id_from(1337), "000000000LZ");
    assert_eq!(id_from(61), "0000000000z");
    assert_eq!(id_from(62), "00000000010");
    assert_eq!(id_from(u64::MAX), "LygHa16AHYF");
}

#[test]
fn gen_id_is_eleven_alphanumerics() {
    for _ in 0..50 {
        let id = gen_id();
        assert_eq!(id.len(), 11);
        assert!(id.chars().all(|c| c.is_ascii_alphanumeric()), "{id:?}");
    }
}

#[test]
fn decimal_rendering() {
    let mut s = String::from("n=");
    push_decimal(&mut s, 0);
    assert_eq!(s, "n=0");
    let mut s = String::new();
    push_decimal(&mut s, 1207);
    assert_eq!(s, "1207");
}

#[test]
fn substring_search() {
    assert!(str_contains("error: tool not found here", "tool not found"));
    assert!(str_contains("abc", ""));
    assert!(!str_contains("ab", "abc"));
    assert!(!str_contains("tool not foun", "tool not found"));
}

#[test]
fn not_found_errors_are_recognized() {
    assert!(is_tool_not_found("method not found: tool: test_ecko"));
    assert!(is_tool_not_found("upstream: tool not found"));
    assert!(!is_tool_not_found("timeout"));
}

#[test]
fn enrich_appends_hint_for_not_found() {
    let names = vec!["test_echo".to_string(), "test_add".to_string()];
    let r = enrich_tool_not_found("tool not found".to_string(), "test_ecko", Ok(names));
    assert_eq!(r, "tool not found — did you mean `test_echo`?");
}

#[test]
fn enrich_leaves_other_errors_alone() {
    let names = vec!["test_echo".to_string()];
    assert_eq!(enrich_tool_not_found("boom".to_string(), "x", Ok(names)), "boom");
    assert_eq!(
        enrich_tool_not_found("method not found".to_string(), "x", Err("no".to_string())),
        "method not found"
    );
    assert_eq!(
        enrich_tool_not_found("method not found".to_string(), "x", Ok(Vec::new())),
        "method not found"
    );
}

#[test]
fn required_header_errors() {
    assert_eq!(required_header(None, "x-h"), Err("missing request parts".to_string()));
    assert_eq!(
        required_header(Some(None), "x-h"),
        Err("missing required header: x-h".to_string())
    );
    assert_eq!(
        required_header(Some(Some("  \t ")), "x-h"),
        Err("missing required header: x-h".to_string())
    );
}

#[test]
fn required_header_trims() {
    assert_eq!(required_header(Some(Some("  a/b ")), "x-h"), Ok("a/b".to_string()));
}

#[test]
fn split_aih_on_last_slash() {
    assert_eq!(split_aih("root/mid/leaf"), (Some("root/mid".to_string()), "leaf".to_string()));
    assert_eq!(split_aih("leaf"), (None, "leaf".to_string()));
    assert_eq!(split_aih("a/"), (Some("a".to_string()), String::new()));
}

#[test]
fn normalize_arguments_unwraps_double_encoded() {
    // A double-encoded object string is parsed back into an object.
    let mut expected = serde_json::Map::new();
    expected.insert("input".to_string(), Value::String("hi".to_string()));
    match normalize_arguments(RawArguments::Text("{\"input\":\"hi\"}".to_string())) {
        Ok(v) => assert_eq!(v, Value::Object(expected)),
        Err(_) => panic!("expected the parsed object"),
    }
    // A real object passes through untouched.
    let mut obj = serde_json::Map::new();
    obj.insert("a".to_string(), Value::from(1));
    match normalize_arguments(RawArguments::Other(Value::Object(obj.clone()))) {
        Err(RawArguments::Other(v)) => assert_eq!(v, Value::Object(obj)),
        _ => panic!("expected the object unchanged"),
    }
    // A non-JSON string is left as-is (a genuine error surfaces downstream).
    match normalize_arguments(RawArguments::Text("not json".to_string())) {
        Err(RawArguments::Text(s)) => assert_eq!(s, "not json"),
        _ => panic!("expected the string unchanged"),
    }
    // `null` (no arguments) passes through.
    match normalize_arguments(RawArguments::Other(Value::Null)) {
        Err(RawArguments::Other(v)) => assert_eq!(v, Value::Null),
        _ => panic!("expected null unchanged"),
    }
}

#[test]
fn trim_matches_std_on_unicode_white_space() {
    for s in ["\u{3000} x \t", "\u{85}\u{a0}a b\u{2029}", "", " \n ", "\u{200b}y\u{200b}"] {
        assert_eq!(trim(s), s.trim().to_string());
    }
    assert_eq!(trim("\u{3000}\u{2003}id-7\u{feff}"), "id-7\u{feff}".to_string());
}
