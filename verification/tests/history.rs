use rrsreadline::history::{parse_history, parse_line, History};

#[test]
fn parses_plain_and_extended_history() {
    assert_eq!(parse_line("git status"), Some("git status"));
    assert_eq!(parse_line(": 1710000000:0;cargo test"), Some("cargo test"));
    assert_eq!(parse_line(": 1710000000:0;"), None);
}

#[test]
fn parse_line_edge_cases() {
    assert_eq!(parse_line(""), None);
    assert_eq!(parse_line(": no semicolon"), None);
    assert_eq!(parse_line(": 1:0;a;b"), Some("a;b"));
    assert_eq!(parse_line(":no space;x"), Some(":no space;x"));
    assert_eq!(parse_line("echo ; done"), Some("echo ; done"));
}

#[test]
fn history_text_is_split_into_commands() {
    let history = parse_history("git status\n: 1:0;cargo test\r\n\n: 2:0;\nls\r");
    assert_eq!(history.entries(), &["git status".to_string(), "cargo test".to_string(), "ls\r".to_string()]);
    assert!(parse_history("").entries().is_empty());
    assert_eq!(parse_history("a\nb").entries(), &["a".to_string(), "b".to_string()]);
    assert_eq!(parse_history("é ü\n").entries(), &["é ü".to_string()]);
}

#[test]
fn remove_all_removes_every_copy() {
    let mut history = History::new(vec![
        "git status".to_string(),
        "ls".to_string(),
        "git status".to_string(),
        "git log".to_string(),
    ]);
    history.remove_all("git status");
    assert_eq!(history.entries(), &["ls".to_string(), "git log".to_string()]);
    history.remove_all("git status");
    assert_eq!(history.entries(), &["ls".to_string(), "git log".to_string()]);
    history.remove_all("missing");
    assert_eq!(history.entries().len(), 2);
}

#[test]
fn default_history_is_empty() {
    assert!(History::default().entries().is_empty());
}
