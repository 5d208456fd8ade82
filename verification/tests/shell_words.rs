use droid_mcp::shell::{escaped_line, shell_escape, shlex_split, su_line};

#[test]
fn plain_words_are_left_alone() {
    assert_eq!(shell_escape("com.jesse.hostctl"), "com.jesse.hostctl");
    assert_eq!(shell_escape("/data/a_b-c.txt"), "/data/a_b-c.txt");
}

#[test]
fn other_words_are_quoted() {
    assert_eq!(shell_escape(""), "''");
    assert_eq!(shell_escape("a b"), "'a b'");
    assert_eq!(shell_escape("it's"), r"'it'\''s'");
    assert_eq!(shell_escape("$(reboot); `x`"), "'$(reboot); `x`'");
}

#[test]
fn lines_are_split_at_blanks_outside_of_quotes() {
    assert_eq!(shlex_split("  a \t b  "), vec!["a", "b"]);
    assert_eq!(shlex_split("'a b' \"c d\" e\\ f"), vec!["a b", "c d", "e f"]);
    assert_eq!(shlex_split("a'b'\"c\""), vec!["abc"]);
    assert_eq!(shlex_split("'it\"s' \"it's\""), vec!["it\"s", "it's"]);
    assert_eq!(shlex_split("'a\\b' \"a\\\"b\""), vec!["a\\b", "a\"b"]);
    assert_eq!(shlex_split("'open end"), vec!["open end"]);
    assert_eq!(shlex_split("end\\"), vec!["end"]);
    assert_eq!(shlex_split("a\nb"), vec!["a\nb"]);
    assert!(shlex_split("").is_empty());
    assert!(shlex_split("'' \"\"").is_empty());
}

#[test]
fn escaped_words_are_split_back() {
    for s in ["a", "a b", "it's", "\"", "\\", "$x;`y`", "é 日", "'''"] {
        assert_eq!(shlex_split(&shell_escape(s)), vec![s]);
    }
}

#[test]
fn command_lines_keep_their_arguments() {
    let args: Vec<String> = vec!["list".into(), "a b".into(), "it's".into()];
    assert_eq!(escaped_line("pm", &args), r"pm list 'a b' 'it'\''s'");
    assert_eq!(shlex_split(&escaped_line("pm", &args)), vec!["pm", "list", "a b", "it's"]);
    assert_eq!(escaped_line("pm", &vec![]), "pm");
}

#[test]
fn root_lines_hand_over_the_command() {
    assert_eq!(su_line("id"), "su -c id");
    assert_eq!(su_line("id; echo 'x'"), r"su -c 'id; echo '\''x'\'''");
    assert_eq!(shlex_split(&su_line("id; echo 'x'")), vec!["su", "-c", "id; echo 'x'"]);
}
