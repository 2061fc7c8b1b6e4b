use scry::classify::{sample_text, select_view, to_decimal, user_message, ViewChoiceError, MESSAGE_HEAD};
use scry::tools::ToolRegistry;
use scry::views::ViewKind;

#[test]
fn sample_keeps_last_hundred_lines() {
    let logs: Vec<String> = (0..150).map(|i| format!("l{}", i)).collect();
    let expected: Vec<String> = (50..150).map(|i| format!("l{}", i)).collect();
    assert_eq!(sample_text(&logs), expected.join("\n"));
}

#[test]
fn sample_sanitizes_lines() {
    let logs = vec!["a\tb".to_string(), "x".repeat(600)];
    assert_eq!(sample_text(&logs), format!("a  b\n{}...", "x".repeat(500)));
    assert_eq!(sample_text(&Vec::new()), "");
}

#[test]
fn short_message_is_whole() {
    assert_eq!(user_message("abc"), format!("{}abc", MESSAGE_HEAD));
    assert!(MESSAGE_HEAD.starts_with("Analyze these log lines"));
}

#[test]
fn long_message_is_cut() {
    let sample = "a".repeat(10005);
    assert_eq!(
        user_message(&sample),
        format!("{}{}...\n[truncated 5 chars]", MESSAGE_HEAD, "a".repeat(10000))
    );
}

#[test]
fn message_cut_at_character_boundary() {
    let sample = format!("{}é", "a".repeat(9999));
    assert_eq!(
        user_message(&sample),
        format!("{}{}...\n[truncated 2 chars]", MESSAGE_HEAD, "a".repeat(9999))
    );
}

#[test]
fn decimal_numbers() {
    assert_eq!(to_decimal(0), "0");
    assert_eq!(to_decimal(7), "7");
    assert_eq!(to_decimal(1234567890), "1234567890");
}

#[test]
fn built_in_views() {
    let reg = ToolRegistry::new();
    let none: Vec<String> = Vec::new();
    let (v, l) = select_view("Plain", None, &reg, &none).unwrap();
    assert!(matches!(v, ViewKind::Plain));
    assert_eq!(l, "Plain");
    let (v, l) = select_view("KeyValue", None, &reg, &none).unwrap();
    assert!(matches!(v, ViewKind::KeyValue));
    assert_eq!(l, "KeyValue");
    let (v, l) = select_view("Json", Some("jless"), &reg, &none).unwrap();
    assert!(matches!(v, ViewKind::Json));
    assert_eq!(l, "Json");
}

#[test]
fn external_tool_installed() {
    let reg = ToolRegistry::new();
    let inst = vec!["jless".to_string()];
    let (v, l) = select_view("ExternalTool", Some("jless"), &reg, &inst).unwrap();
    match v {
        ViewKind::ExternalTool(name) => assert_eq!(name, "jless"),
        _ => panic!("expected an external tool"),
    }
    assert_eq!(l, "External: jless");
}

#[test]
fn external_tool_missing_falls_back_to_json() {
    let reg = ToolRegistry::new();
    let (v, l) = select_view("ExternalTool", Some("visidata"), &reg, &Vec::new()).unwrap();
    assert!(matches!(v, ViewKind::Json));
    assert_eq!(l, "Json (visidata not available)");
}

#[test]
fn view_choice_errors() {
    let reg = ToolRegistry::new();
    let none: Vec<String> = Vec::new();
    let e = select_view("ExternalTool", None, &reg, &none).unwrap_err();
    assert_eq!(e, ViewChoiceError::MissingTool);
    assert_eq!(e.message(), "ExternalTool view requires 'tool' field");
    let e = select_view("ExternalTool", Some("emacs"), &reg, &none).unwrap_err();
    assert_eq!(e, ViewChoiceError::UnknownTool("emacs".to_string()));
    assert_eq!(e.message(), "Unknown external tool: emacs");
    let e = select_view("Table", None, &reg, &none).unwrap_err();
    assert_eq!(e, ViewChoiceError::UnknownView("Table".to_string()));
    assert_eq!(e.message(), "Unknown view type: Table");
}
