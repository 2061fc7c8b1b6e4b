use scry::display::{extract_key_value_pairs, safe_string_display, sanitize_for_display};

#[test]
fn control_characters_replaced() {
    assert_eq!(sanitize_for_display("a\tb\nc\rd\0e\x01f\x7f", 100), "a  b cd\\0e?f?");
}

#[test]
fn truncates_after_max_bytes() {
    assert_eq!(sanitize_for_display("abcdef", 3), "abc...");
    assert_eq!(sanitize_for_display("abc", 3), "abc");
    assert_eq!(sanitize_for_display("abcd", 0), "...");
    assert_eq!(sanitize_for_display("", 0), "");
}

#[test]
fn truncation_counts_utf8_bytes() {
    assert_eq!(sanitize_for_display("ééé", 4), "éé...");
    assert_eq!(sanitize_for_display("ééé", 5), "ééé");
}

#[test]
fn unicode_kept() {
    assert_eq!(sanitize_for_display("日本語 ok", 100), "日本語 ok");
}

#[test]
fn empty_and_blank_lines_get_placeholder() {
    assert_eq!(safe_string_display(""), "[empty line]");
    assert_eq!(safe_string_display(" \t "), "[empty line]");
    assert_eq!(safe_string_display("\r\r"), "[empty line]");
    assert_eq!(safe_string_display(" x "), " x ");
}

#[test]
fn long_line_cut_at_thousand_bytes() {
    let long = "a".repeat(2000);
    let shown = safe_string_display(&long);
    assert_eq!(shown, format!("{}...", "a".repeat(1000)));
}

#[test]
fn key_value_pairs_split_at_first_equals() {
    let pairs = extract_key_value_pairs("a=1 b=2 c noeq =x k=v=w");
    assert_eq!(
        pairs,
        vec![
            ("a".to_string(), "1".to_string()),
            ("b".to_string(), "2".to_string()),
            ("k".to_string(), "v=w".to_string()),
        ]
    );
}

#[test]
fn key_value_pairs_sanitized() {
    let pairs = extract_key_value_pairs("k\u{1}=v\u{0}  e=");
    assert_eq!(
        pairs,
        vec![("k?".to_string(), "v\\0".to_string()), ("e".to_string(), "".to_string())]
    );
}

#[test]
fn key_value_pairs_none() {
    assert!(extract_key_value_pairs("").is_empty());
    assert!(extract_key_value_pairs("no pairs here").is_empty());
}
