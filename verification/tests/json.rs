use rushsocket::json::{estimate_json_size, get_field, id_string, json_string, to_json_text, JsonNumber, JsonValue};

#[test]
fn strings_are_escaped_like_serde_json() {
    for t in ["plain", "q\"uote", "back\\slash", "tab\tnl\ncr\r", "\u{1}\u{1f}\u{7f}", "caf\u{e9} \u{1F600}"] {
        assert_eq!(json_string(t), serde_json::to_string(t).unwrap());
    }
}

#[test]
fn values_are_written_like_serde_json() {
    let v = JsonValue::Object(vec![
        ("a".to_string(), JsonValue::Array(vec![JsonValue::Null, JsonValue::Bool(false), JsonValue::Number(JsonNumber::NegInt(-3))])),
        ("b".to_string(), JsonValue::Number(JsonNumber::Float("1.5".to_string()))),
        ("c".to_string(), JsonValue::Str("x".to_string())),
    ]);
    let text = to_json_text(&v);
    let expected: serde_json::Value = serde_json::from_str(r#"{"a": [null, false, -3], "b": 1.5, "c": "x"}"#).unwrap();
    let expected = expected.to_string();
    assert_eq!(text, expected);
}

#[test]
fn size_estimate() {
    assert_eq!(estimate_json_size(&JsonValue::Null), 4);
    assert_eq!(estimate_json_size(&JsonValue::Bool(false)), 5);
    assert_eq!(estimate_json_size(&JsonValue::Number(JsonNumber::NegInt(-12))), 3);
    assert_eq!(estimate_json_size(&JsonValue::Str("\u{e9}".to_string())), 4);
    let arr = JsonValue::Array(vec![JsonValue::Bool(true), JsonValue::Null]);
    assert_eq!(estimate_json_size(&arr), 2 + 4 + 4 + 1);
    let obj = JsonValue::Object(vec![("k".to_string(), JsonValue::Null)]);
    assert_eq!(estimate_json_size(&obj), to_json_text(&obj).len());
}

#[test]
fn ids_from_strings_and_integers() {
    assert_eq!(id_string(&JsonValue::Str("u".to_string())).as_deref(), Some("u"));
    assert_eq!(id_string(&JsonValue::Number(JsonNumber::PosInt(42))).as_deref(), Some("42"));
    assert_eq!(id_string(&JsonValue::Number(JsonNumber::NegInt(-7))).as_deref(), Some("-7"));
    assert_eq!(id_string(&JsonValue::Number(JsonNumber::PosInt(u64::MAX))), None);
    assert_eq!(id_string(&JsonValue::Bool(true)), None);
    let ms = vec![("a".to_string(), JsonValue::Null), ("a".to_string(), JsonValue::Bool(true))];
    assert!(matches!(get_field(&ms, "a"), Some(JsonValue::Null)));
    assert!(get_field(&ms, "b").is_none());
}
