use scry::log::AppState;
use scry::json::{JsonItem, JsonValue};
use scry::views::{
    highlight_filter_text, line_style, view_title, ExternalToolView, JsonView, KeyValueRow,
    KeyValueView, LineStyle, PlainView, ViewKind,
};

fn seg(s: &str, h: bool) -> (String, bool) {
    (s.to_string(), h)
}

#[test]
fn view_names() {
    assert_eq!(ViewKind::Plain.name(), "Plain");
    assert_eq!(ViewKind::KeyValue.name(), "KeyValue");
    assert_eq!(ViewKind::Json.name(), "Json");
    assert_eq!(ViewKind::ExternalTool("jless".to_string()).name(), "External: jless");
}

#[test]
fn highlight_each_occurrence() {
    assert_eq!(
        highlight_filter_text("a foo b foo", "foo"),
        vec![seg("a ", false), seg("foo", true), seg(" b ", false), seg("foo", true)]
    );
    assert_eq!(highlight_filter_text("xx", "x"), vec![seg("x", true), seg("x", true)]);
    assert_eq!(highlight_filter_text("aaa", "aa"), vec![seg("aa", true), seg("a", false)]);
}

#[test]
fn highlight_without_match() {
    assert_eq!(highlight_filter_text("abc", "x"), vec![seg("abc", false)]);
    assert_eq!(highlight_filter_text("", "x"), vec![seg("", false)]);
}

#[test]
fn styles_of_lines() {
    let (_tx, rx) = tokio::sync::mpsc::channel::<String>(4);
    let mut st = AppState::new(rx, String::new());
    st.add_log("a=1".to_string());
    st.add_log("b=1".to_string());
    assert_eq!(line_style(&st, 0), LineStyle::Normal);
    st.select_line(0);
    assert_eq!(line_style(&st, 0), LineStyle::Selected);
    assert_eq!(line_style(&st, 1), LineStyle::Matched);
}

fn state_of(lines: &[&str]) -> AppState {
    let (_tx, rx) = tokio::sync::mpsc::channel::<String>(4);
    let mut st = AppState::new(rx, String::new());
    for l in lines {
        st.add_log(l.to_string());
    }
    st
}

#[test]
fn titles_name_filter_and_matches() {
    let mut st = state_of(&["a=1", "b=2", "a=1 extra"]);
    assert_eq!(view_title("Log Lines", &st), "Log Lines");
    st.select_line(0);
    assert_eq!(view_title("Log Lines", &st), "Log Lines (filtered: '1', 2 matches)");
}

#[test]
fn plain_view_lines() {
    let mut st = state_of(&["a=1 x", "", "b=1\tc"]);
    let all = PlainView::lines(&st);
    assert_eq!(all.len(), 3);
    assert_eq!(all[1].pieces, vec![seg("[empty line]", false)]);
    assert_eq!(all[0].style, LineStyle::Normal);
    st.select_line(0);
    let shown = PlainView::lines(&st);
    let idx: Vec<usize> = shown.iter().map(|l| l.index).collect();
    assert_eq!(idx, vec![0, 2]);
    assert_eq!(shown[0].style, LineStyle::Selected);
    assert_eq!(shown[0].pieces, vec![seg("a=", false), seg("1", true), seg(" x", false)]);
    assert_eq!(shown[1].style, LineStyle::Matched);
    assert_eq!(shown[1].pieces, vec![seg("b=", false), seg("1", true), seg("  c", false)]);
}

#[test]
fn key_value_view_rows() {
    let mut st = state_of(&["user=bob id=7", "no pairs here"]);
    st.select_line(0);
    let rows = KeyValueView::rows(&st);
    assert_eq!(rows.len(), 1);
    assert_eq!(rows[0].0, 0);
    match &rows[0].1 {
        KeyValueRow::Pairs(style, cells) => {
            assert_eq!(*style, LineStyle::Selected);
            assert_eq!(
                *cells,
                vec![
                    ("user".to_string(), "bob".to_string(), true),
                    ("id".to_string(), "7".to_string(), false),
                ]
            );
        }
        KeyValueRow::Text(_, _) => panic!("expected pairs"),
    }
    st.clear_selection();
    let rows = KeyValueView::rows(&st);
    match &rows[1].1 {
        KeyValueRow::Text(style, pieces) => {
            assert_eq!(*style, LineStyle::Normal);
            assert_eq!(*pieces, vec![seg("no pairs here", false)]);
        }
        KeyValueRow::Pairs(_, _) => panic!("expected text"),
    }
}

#[test]
fn json_view_member() {
    let filter = Some("err".to_string());
    let m = JsonView::member("level", &JsonValue::Str("error".to_string()), &filter);
    assert_eq!(m.key, "level");
    assert_eq!(m.value, "error");
    assert!(!m.key_hit);
    assert!(m.value_hit);
    let n = JsonView::member("err\tkey", &JsonValue::Number("3".to_string()), &filter);
    assert_eq!(n.key, "err  key");
    assert!(n.key_hit);
    assert!(!n.value_hit);
    let none = JsonView::member("k", &JsonValue::Array(vec![JsonItem::Bool(true)]), &None);
    assert_eq!(none.value, "[true]");
    assert!(!none.key_hit && !none.value_hit);
}

#[test]
fn external_tool_notice() {
    assert_eq!(
        ExternalToolView::message("jless"),
        "External tool 'jless' will be launched.\n\nLaunching in 1 second..."
    );
}
