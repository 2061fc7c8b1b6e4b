use scry::keys::{
    decode_keys, select_input_path, DecoderState, EscapeDecoder, InputPath, KeyCode, KeyEvent,
};

fn k(code: KeyCode) -> KeyEvent {
    KeyEvent::new(code)
}

#[test]
fn arrow_up_sequence() {
    assert_eq!(decode_keys(&[0x1B, 0x5B, 0x41]), vec![k(KeyCode::Up)]);
}

#[test]
fn arrow_down_sequence() {
    assert_eq!(decode_keys(&[0x1B, 0x5B, 0x42]), vec![k(KeyCode::Down)]);
}

#[test]
fn page_up_sequence() {
    assert_eq!(decode_keys(&[0x1B, 0x5B, 0x35, 0x7E]), vec![k(KeyCode::PageUp)]);
}

#[test]
fn page_down_sequence() {
    assert_eq!(decode_keys(&[0x1B, 0x5B, 0x36, 0x7E]), vec![k(KeyCode::PageDown)]);
}

#[test]
fn unknown_third_byte_gives_nothing() {
    assert_eq!(decode_keys(&[0x1B, 0x5B, 0x39]), vec![]);
}

#[test]
fn page_without_terminator_gives_nothing() {
    assert_eq!(decode_keys(&[0x1B, 0x5B, 0x35, 0x41]), vec![]);
    assert_eq!(decode_keys(&[0x1B, 0x5B, 0x36]), vec![]);
}

#[test]
fn lone_escape_at_end_is_escape() {
    assert_eq!(decode_keys(&[0x1B]), vec![k(KeyCode::Esc)]);
}

#[test]
fn escape_without_bracket_is_escape() {
    assert_eq!(decode_keys(&[0x1B, b'x', b'q']), vec![k(KeyCode::Esc), k(KeyCode::Char('q'))]);
}

#[test]
fn letters_fold_to_lowercase() {
    let got = decode_keys(b"QaFcz");
    assert_eq!(
        got,
        vec![
            k(KeyCode::Char('q')),
            k(KeyCode::Char('a')),
            k(KeyCode::Char('f')),
            k(KeyCode::Char('c')),
        ]
    );
}

#[test]
fn etx_is_ctrl_c() {
    assert_eq!(decode_keys(&[0x03]), vec![KeyEvent::with_ctrl(KeyCode::Char('c'))]);
}

#[test]
fn mixed_stream() {
    let bytes = [b'a', 0x1B, 0x5B, 0x41, 0x01, 0x1B, 0x5B, 0x36, 0x7E, b'Q'];
    assert_eq!(
        decode_keys(&bytes),
        vec![k(KeyCode::Char('a')), k(KeyCode::Up), k(KeyCode::PageDown), k(KeyCode::Char('q'))]
    );
}

#[test]
fn incremental_feed_matches_batch() {
    let bytes = [0x1B, 0x5B, 0x35, 0x7E, b'f', 0x1B];
    let mut dec = EscapeDecoder::new();
    let mut out = Vec::new();
    for b in bytes {
        if let Some(e) = dec.feed(b) {
            out.push(e);
        }
    }
    assert_eq!(dec.state, DecoderState::Escape);
    if let Some(e) = dec.finish() {
        out.push(e);
    }
    assert_eq!(out, decode_keys(&bytes));
    assert_eq!(out, vec![k(KeyCode::PageUp), k(KeyCode::Char('f')), k(KeyCode::Esc)]);
}

#[test]
fn empty_stream() {
    assert_eq!(decode_keys(&[]), vec![]);
    assert_eq!(EscapeDecoder::new().finish(), None);
}

#[test]
fn input_path_follows_stdin() {
    assert_eq!(select_input_path(true), InputPath::TerminalEvents);
    assert_eq!(select_input_path(false), InputPath::DeviceBytes);
}
