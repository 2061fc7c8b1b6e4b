use scry::filter::{extract_filter_text, filter_span_of};

fn token(s: &str) -> Option<String> {
    extract_filter_text(s)
}

#[test]
fn quoted_value_wins_over_key_value() {
    assert_eq!(token("level=info msg=\"connection refused\"").as_deref(), Some("connection refused"));
}

#[test]
fn first_word_when_no_quote_or_equals() {
    assert_eq!(token("plain text here").as_deref(), Some("plain"));
}

#[test]
fn key_value_token() {
    assert_eq!(token("a=1").as_deref(), Some("1"));
    assert_eq!(token("status=500 path=/x").as_deref(), Some("500"));
    assert_eq!(token("k=   spaced out").as_deref(), Some("spaced"));
}

#[test]
fn json_line_gives_first_string() {
    assert_eq!(token("{\"level\":\"error\",\"code\":3}").as_deref(), Some("level"));
}

#[test]
fn empty_quotes_fall_through() {
    assert_eq!(token("x=\"\" y").as_deref(), Some("\"\""));
    assert_eq!(token("\"\" hello world").as_deref(), Some("hello"));
}

#[test]
fn long_quoted_value_rejected() {
    let inner = "q".repeat(100);
    let line = format!("\"{}\" next", inner);
    assert_eq!(token(&line), None);
    let short = "q".repeat(99);
    let line2 = format!("\"{}\" next", short);
    assert_eq!(token(&line2), Some(short));
}

#[test]
fn equals_at_start_or_end_skipped() {
    assert_eq!(token("=value here"), None);
    assert_eq!(token("trailing=").as_deref(), Some("trailing"));
}

#[test]
fn word_punctuation_is_cut() {
    assert_eq!(token("error: disk full").as_deref(), Some("error"));
    assert_eq!(token("a b my_var-2!x").as_deref(), Some("my_var-2"));
}

#[test]
fn first_qualifying_word_with_too_short_cleaning_gives_none() {
    assert_eq!(token("(x) rest"), None);
}

#[test]
fn no_token_cases() {
    assert_eq!(token(""), None);
    assert_eq!(token("   "), None);
    assert_eq!(token("! ? ."), None);
    assert_eq!(token("a b c"), None);
}

#[test]
fn span_from_given_flags() {
    let chars: Vec<char> = "xx yy".chars().collect();
    let flags = vec![false, false, false, true, true];
    assert_eq!(filter_span_of(&chars, &flags), Some((3, 5)));
    let none = vec![false; 5];
    assert_eq!(filter_span_of(&chars, &none), None);
}

#[test]
fn unicode_word_uses_alphanumeric() {
    assert_eq!(token("ünïcode wörds").as_deref(), Some("ünïcode"));
}
