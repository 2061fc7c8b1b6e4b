use scry::keys::{KeyCode, KeyEvent};
use scry::log::{AppState, KeyAction, LOG_CAPACITY};
use scry::views::ViewKind;

fn state() -> AppState {
    let (_tx, rx) = tokio::sync::mpsc::channel::<String>(16);
    AppState::new(rx, "test".to_string())
}

fn state_with(lines: &[&str]) -> AppState {
    let mut st = state();
    for l in lines {
        st.add_log(l.to_string());
    }
    st
}

fn press(code: KeyCode) -> KeyEvent {
    KeyEvent::new(code)
}

#[test]
fn new_state_is_empty() {
    let st = state();
    assert!(st.log_buffer.is_empty());
    assert_eq!(st.scroll_offset, 0);
    assert_eq!(st.selected_index, None);
    assert_eq!(st.filter_text, None);
    assert!(st.filtered_indices.is_empty());
    assert_eq!(st.get_display_count(), 0);
    assert_eq!(st.input_source, "test");
    assert!(matches!(st.active_view, ViewKind::Plain));
}

#[test]
fn capacity_never_exceeded() {
    let mut st = state();
    for i in 0..(LOG_CAPACITY + 50) {
        st.add_log(format!("entry {}", i));
        assert!(st.log_buffer.len() <= LOG_CAPACITY);
    }
    assert_eq!(st.log_buffer.len(), LOG_CAPACITY);
    assert_eq!(st.log_buffer[0], "entry 50");
}

#[test]
fn append_2001_lines_evicts_line_0() {
    let mut st = state();
    for i in 0..=2000 {
        st.add_log(format!("line {}", i));
    }
    assert_eq!(st.log_buffer.len(), 2000);
    assert_eq!(st.log_buffer[0], "line 1");
    assert_eq!(st.log_buffer[1999], "line 2000");
    for (k, l) in st.log_buffer.iter().enumerate() {
        assert_eq!(*l, format!("line {}", k + 1));
    }
}

#[test]
fn select_derives_token_and_matches() {
    let mut st = state_with(&["a=1", "b=2", "a=1 extra"]);
    st.select_line(0);
    assert_eq!(st.filter_text.as_deref(), Some("1"));
    assert_eq!(st.filtered_indices, vec![0, 2]);
    assert_eq!(st.selected_index, Some(0));
    assert_eq!(st.scroll_offset, 0);
    assert_eq!(st.get_display_count(), 2);
}

#[test]
fn select_out_of_range_is_ignored() {
    let mut st = state_with(&["x=1", "y=2"]);
    st.scroll_offset = 1;
    st.select_line(2);
    assert_eq!(st.selected_index, None);
    assert_eq!(st.filter_text, None);
    assert_eq!(st.scroll_offset, 1);
}

#[test]
fn select_line_without_token_clears_filter() {
    let mut st = state_with(&["a=1", "!", "a=1 again"]);
    st.select_line(0);
    assert_eq!(st.filtered_indices, vec![0, 2]);
    st.select_line(1);
    assert_eq!(st.selected_index, Some(1));
    assert_eq!(st.filter_text, None);
    assert!(st.filtered_indices.is_empty());
    assert_eq!(st.get_display_count(), 3);
}

#[test]
fn filter_matches_every_containing_line() {
    let lines = ["user=bob login", "user=alice", "bob logout", "nothing", "bobby"];
    let mut st = state_with(&lines);
    st.select_line(0);
    assert_eq!(st.filter_text.as_deref(), Some("bob"));
    let expected: Vec<usize> = (0..lines.len()).filter(|j| lines[*j].contains("bob")).collect();
    assert_eq!(st.filtered_indices, expected);
    assert_eq!(st.filtered_indices, vec![0, 2, 4]);
}

#[test]
fn new_line_joins_active_filter() {
    let mut st = state_with(&["k=v", "other"]);
    st.select_line(0);
    assert_eq!(st.filtered_indices, vec![0]);
    st.add_log("again v".to_string());
    st.add_log("nope".to_string());
    assert_eq!(st.filtered_indices, vec![0, 2]);
}

#[test]
fn eviction_renumbers_matches_and_selection() {
    let mut st = state();
    for i in 0..LOG_CAPACITY {
        if i % 2 == 0 {
            st.add_log(format!("id=7 n{}", i));
        } else {
            st.add_log(format!("other {}", i));
        }
    }
    st.select_line(2);
    assert_eq!(st.filter_text.as_deref(), Some("7"));
    let before = st.filtered_indices.clone();
    assert_eq!(before[0], 0);
    st.scroll_offset = 5;
    st.add_log("plain".to_string());
    let expected: Vec<usize> = before.iter().filter(|i| **i != 0).map(|i| i - 1).collect();
    assert_eq!(st.filtered_indices, expected);
    assert_eq!(st.selected_index, Some(1));
    assert_eq!(st.scroll_offset, 4);
    assert_eq!(st.log_buffer.len(), LOG_CAPACITY);
}

#[test]
fn eviction_clears_selection_at_zero() {
    let mut st = state();
    for i in 0..LOG_CAPACITY {
        st.add_log(format!("row {}", i));
    }
    st.select_line(0);
    st.add_log("fresh row".to_string());
    assert_eq!(st.selected_index, None);
    assert_eq!(st.scroll_offset, 0);
    assert_eq!(st.filter_text.as_deref(), Some("row"));
    assert_eq!(st.filtered_indices.len(), LOG_CAPACITY);
    assert_eq!(st.filtered_indices[LOG_CAPACITY - 1], LOG_CAPACITY - 1);
}

#[test]
fn scroll_down_clamps() {
    let mut st = state_with(&["a", "b", "c", "d", "e"]);
    let n = st.get_display_count();
    st.scroll_down(3, n);
    assert_eq!(st.scroll_offset, 3);
    st.scroll_down(10, n);
    assert_eq!(st.scroll_offset, 4);
    st.scroll_down(usize::MAX, n);
    assert_eq!(st.scroll_offset, 4);
    st.scroll_down(1, 0);
    assert_eq!(st.scroll_offset, 0);
}

#[test]
fn scroll_up_saturates() {
    let mut st = state_with(&["a", "b", "c", "d", "e"]);
    let n = st.get_display_count();
    st.scroll_down(4, n);
    st.scroll_up(1);
    assert_eq!(st.scroll_offset, 3);
    st.scroll_up(10);
    assert_eq!(st.scroll_offset, 0);
    st.scroll_up(1);
    assert_eq!(st.scroll_offset, 0);
}

#[test]
fn scroll_on_empty_buffer_stays_zero() {
    let mut st = state();
    st.scroll_down(5, st.get_display_count());
    assert_eq!(st.scroll_offset, 0);
    st.scroll_up(5);
    assert_eq!(st.scroll_offset, 0);
}

#[test]
fn clear_selection_keeps_scroll() {
    let mut st = state_with(&["a=1", "b=2", "a=1 extra"]);
    st.select_line(0);
    st.scroll_down(1, st.get_display_count());
    assert_eq!(st.scroll_offset, 1);
    st.clear_selection();
    assert_eq!(st.selected_index, None);
    assert_eq!(st.filter_text, None);
    assert!(st.filtered_indices.is_empty());
    assert_eq!(st.scroll_offset, 1);
    assert_eq!(st.get_display_count(), 3);
}

#[test]
fn display_logs_follow_filter() {
    let mut st = state_with(&["a=1", "b=2", "a=1 extra"]);
    let all = st.get_display_logs();
    let idx: Vec<usize> = all.iter().map(|p| p.0).collect();
    assert_eq!(idx, vec![0, 1, 2]);
    st.select_line(0);
    let shown = st.get_display_logs();
    assert_eq!(shown.len(), 2);
    assert_eq!(shown[0].0, 0);
    assert_eq!(shown[0].1, "a=1");
    assert_eq!(shown[1].0, 2);
    assert_eq!(shown[1].1, "a=1 extra");
}

#[test]
fn set_view_and_response() {
    let mut st = state();
    st.set_view(ViewKind::Json);
    st.set_model_response("done".to_string());
    assert!(matches!(st.active_view, ViewKind::Json));
    assert_eq!(st.last_model_response.as_deref(), Some("done"));
}

#[test]
fn keys_quit_and_analyze() {
    let mut st = state_with(&["a"]);
    assert_eq!(st.handle_key(press(KeyCode::Char('q'))), KeyAction::Quit);
    assert_eq!(st.handle_key(KeyEvent::with_ctrl(KeyCode::Char('c'))), KeyAction::Quit);
    assert_eq!(st.handle_key(press(KeyCode::Char('a'))), KeyAction::Analyze);
    assert_eq!(st.handle_key(press(KeyCode::Char('x'))), KeyAction::Continue);
    let released = KeyEvent { code: KeyCode::Char('q'), ctrl: false, press: false };
    assert_eq!(st.handle_key(released), KeyAction::Continue);
}

#[test]
fn key_f_toggles_selection() {
    let mut st = state_with(&["a=1", "b=2", "a=1 extra"]);
    assert_eq!(st.handle_key(press(KeyCode::Char('f'))), KeyAction::Continue);
    assert_eq!(st.selected_index, Some(0));
    assert_eq!(st.filtered_indices, vec![0, 2]);
    st.handle_key(press(KeyCode::Char('f')));
    assert_eq!(st.selected_index, None);
    assert_eq!(st.filter_text, None);
}

#[test]
fn arrows_move_selection_and_scroll_follows() {
    let mut st = state_with(&["a=1", "b=2", "a=1 extra", "c=3"]);
    st.select_line(1);
    st.handle_key(press(KeyCode::Down));
    assert_eq!(st.selected_index, Some(2));
    assert_eq!(st.filter_text.as_deref(), Some("1"));
    assert_eq!(st.filtered_indices, vec![0, 2]);
    assert_eq!(st.scroll_offset, 1);
    st.handle_key(press(KeyCode::Up));
    assert_eq!(st.selected_index, Some(1));
    assert_eq!(st.filtered_indices, vec![1]);
    assert_eq!(st.scroll_offset, 0);
    let shown = st.get_display_logs();
    assert_eq!(shown[st.scroll_offset].0, 1);
}

#[test]
fn arrows_scroll_without_selection() {
    let mut st = state_with(&["a", "b", "c"]);
    st.handle_key(press(KeyCode::Down));
    st.handle_key(press(KeyCode::Down));
    st.handle_key(press(KeyCode::Down));
    assert_eq!(st.scroll_offset, 2);
    st.handle_key(press(KeyCode::Up));
    assert_eq!(st.scroll_offset, 1);
}

#[test]
fn page_home_end_keys() {
    let mut st = state();
    for i in 0..30 {
        st.add_log(format!("l{}", i));
    }
    st.handle_key(press(KeyCode::PageDown));
    assert_eq!(st.scroll_offset, 10);
    st.handle_key(press(KeyCode::PageUp));
    assert_eq!(st.scroll_offset, 0);
    st.handle_key(press(KeyCode::End));
    assert_eq!(st.scroll_offset, 29);
    st.select_line(3);
    st.handle_key(press(KeyCode::Home));
    assert_eq!(st.scroll_offset, 0);
    assert_eq!(st.selected_index, None);
}

#[test]
fn escape_and_c_clear() {
    let mut st = state_with(&["a=1", "a=1"]);
    st.select_line(0);
    st.handle_key(press(KeyCode::Esc));
    assert_eq!(st.selected_index, None);
    assert_eq!(st.filter_text, None);
    st.select_line(1);
    st.handle_key(press(KeyCode::Char('c')));
    assert_eq!(st.selected_index, None);
    assert!(st.filtered_indices.is_empty());
}

#[test]
fn scroll_down_held_to_display_count() {
    let mut st = state_with(&["a", "b", "c"]);
    st.scroll_down(10, 50);
    assert_eq!(st.scroll_offset, 2);
    st.scroll_down(1, 2);
    assert_eq!(st.scroll_offset, 1);
}
