use scry::source::{clean_command, command_from_cmdline, detect_input_source, trim};

#[test]
fn shell_wrapper_unwrapped() {
    assert_eq!(clean_command("sh -c 'tail -f app.log'"), "tail -f app.log");
    assert_eq!(clean_command("  /bin/sh -c 'journalctl -f'  "), "journalctl -f");
}

#[test]
fn shell_without_quotes_kept() {
    assert_eq!(clean_command("sh -c ls"), "sh -c ls");
    assert_eq!(clean_command("sh -c 'x"), "sh -c 'x");
}

#[test]
fn long_command_cut() {
    let cmd = "x".repeat(61);
    assert_eq!(clean_command(&cmd), format!("{}...", "x".repeat(57)));
    let exact = "y".repeat(60);
    assert_eq!(clean_command(&exact), exact);
}

#[test]
fn trim_both_ends() {
    assert_eq!(trim("  a b \n"), "a b");
    assert_eq!(trim("   "), "");
    assert_eq!(clean_command("  cat file  "), "cat file");
}

#[test]
fn input_source_descriptions() {
    assert_eq!(detect_input_source(true, Some("cat x")), "Waiting for input...");
    assert_eq!(detect_input_source(false, Some("bash")), "Reading from: bash");
    assert_eq!(detect_input_source(false, Some("   ")), "Reading from stdin");
    assert_eq!(detect_input_source(false, None), "Reading from stdin");
}

#[test]
fn cmdline_fields() {
    assert_eq!(command_from_cmdline("tail\0-f\0app.log\0extra\0"), "tail -f app.log");
    assert_eq!(command_from_cmdline("bash\0\0-c\0"), "bash -c");
    assert_eq!(command_from_cmdline(""), "");
    assert_eq!(command_from_cmdline("one"), "one");
}

#[test]
fn long_command_measured_in_bytes() {
    let wide = "日".repeat(21);
    assert_eq!(clean_command(&wide), format!("{}...", "日".repeat(19)));
    let twenty = "日".repeat(20);
    assert_eq!(clean_command(&twenty), twenty);
    let mixed = format!("{}é{}", "a".repeat(56), "b".repeat(10));
    assert_eq!(clean_command(&mixed), format!("{}...", "a".repeat(56)));
}
