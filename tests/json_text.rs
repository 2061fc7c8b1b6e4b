use scry::json::{format_value, safe_json_display, JsonItem, JsonValue};
use scry::text::join_with;

#[test]
fn scalars() {
    assert_eq!(format_value(&JsonValue::Str("a\tb".to_string())), "a  b");
    assert_eq!(format_value(&JsonValue::Number("3.5".to_string())), "3.5");
    assert_eq!(format_value(&JsonValue::Bool(true)), "true");
    assert_eq!(format_value(&JsonValue::Bool(false)), "false");
    assert_eq!(format_value(&JsonValue::Null), "null");
}

#[test]
fn small_array_listed() {
    let v = JsonValue::Array(vec![
        JsonItem::Str("x".to_string()),
        JsonItem::Number("1".to_string()),
        JsonItem::Null,
        JsonItem::Other("Array []".to_string()),
    ]);
    assert_eq!(format_value(&v), "[\"x\", 1, null, Array []]");
    assert_eq!(safe_json_display(&v), "[4 items]");
}

#[test]
fn large_array_counted() {
    let v = JsonValue::Array((0..6).map(|i| JsonItem::Number(i.to_string())).collect());
    assert_eq!(format_value(&v), "[6 items]");
    assert_eq!(format_value(&JsonValue::Array(Vec::new())), "[]");
}

#[test]
fn small_object_listed() {
    let v = JsonValue::Object(vec![
        ("a".to_string(), JsonItem::Number("1".to_string())),
        ("b".to_string(), JsonItem::Null),
        ("c".to_string(), JsonItem::Str("s".repeat(40))),
    ]);
    assert_eq!(format_value(&v), format!("{{a: 1, b: Null, c: \"{}...\"}}", "s".repeat(30)));
    assert_eq!(safe_json_display(&v), "{3 keys}");
}

#[test]
fn large_object_counted() {
    let v = JsonValue::Object((0..4).map(|i| (format!("k{}", i), JsonItem::Bool(true))).collect());
    assert_eq!(format_value(&v), "{4 keys}");
    assert_eq!(safe_json_display(&JsonValue::Object(Vec::new())), "{}");
}

#[test]
fn join_parts() {
    let parts = vec!["a".to_string(), "b".to_string(), "c".to_string()];
    assert_eq!(join_with(&parts, ", "), "a, b, c");
    assert_eq!(join_with(&Vec::new(), ", "), "");
}
