use vcd_tools_rs::signal_list::parse_signal_list;

fn load(content: &str) -> Vec<String> {
    parse_signal_list(content)
}

#[test]
fn load_signal_list_reads_file() {
    let names = load("signal_one\nsignal_two\n\nsignal_three\n");
    assert_eq!(names, vec!["signal_one", "signal_two", "signal_three"]);
}

#[test]
fn load_signal_list_empty_file() {
    assert!(load("").is_empty());
}

#[test]
fn load_signal_list_whitespace_only() {
    assert!(load("  \n  \n").is_empty());
}

#[test]
fn load_signal_list_comments() {
    let names = load(
        "# full line comment\nsignal_one\n\n   \nsignal_two # inline comment\n# another comment\nsignal_three\n",
    );
    assert_eq!(names, vec!["signal_one", "signal_two", "signal_three"]);
}

#[test]
fn load_signal_list_only_comments() {
    assert!(load("# comment 1\n# comment 2\n").is_empty());
}

#[test]
fn load_signal_list_inline_comment_only_line() {
    assert_eq!(load("signal # comment\n"), vec!["signal"]);
}

#[test]
fn signal_list_handles_crlf_and_missing_final_newline() {
    assert_eq!(parse_signal_list("a\r\n  b\t# x\r\nc"), vec!["a", "b", "c"]);
    assert_eq!(parse_signal_list("# selected signals\ntop.b # second declaration\ntop.a\n"), vec!["top.b", "top.a"]);
}
