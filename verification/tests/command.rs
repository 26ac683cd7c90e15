use rrsreadline::command::suggest;
use rrsreadline::config::Config;
use rrsreadline::history::parse_history;

#[test]
fn suggest_command_returns_each_history_command_once() {
    let history = parse_history("git status\ngit status\ngit log\ngit status\ngit log\n");
    let config = Config::load_for_shell("zsh", None);
    let lines = suggest(&config, history.entries(), "git");
    assert_eq!(lines.join("\n") + "\n", "git log\ngit status\n");
}

#[test]
fn suggest_honors_configured_limit() {
    let history = parse_history("git one\ngit two\ngit three\n");
    let config = Config::load_for_shell("bash", Some("max_suggestions = 2\n"));
    let lines = suggest(&config, history.entries(), "git");
    assert_eq!(lines, vec!["git three", "git two"]);
}

#[test]
fn suggest_with_empty_query_prints_nothing() {
    let history = parse_history("git status\n");
    assert!(suggest(&Config::default(), history.entries(), "").is_empty());
}

#[test]
fn suggest_limit_counts_distinct_commands() {
    let history = parse_history("a1\na2\na1\na1\na3\n");
    let config = Config::load(Some("max_suggestions = 2"));
    assert_eq!(suggest(&config, history.entries(), "A"), vec!["a3", "a1"]);
}

#[test]
fn suggest_ignores_ascii_case_by_default() {
    let history = parse_history("Git Status\ngit log\n");
    let config = Config::default();
    assert_eq!(suggest(&config, history.entries(), "GIT"), vec!["git log", "Git Status"]);
    assert_eq!(suggest(&config, history.entries(), "git"), vec!["git log", "Git Status"]);
}
