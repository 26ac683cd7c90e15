use rrsreadline::config::{expand_tilde, Config, MatchingMode, TomlItem};

#[test]
fn defaults_are_sensible() {
    let config = Config::default();
    assert_eq!(config.matching, MatchingMode::Prefix);
    assert_eq!(config.max_suggestions, 10);
    assert!(!config.case_sensitive);
    assert_eq!(config.history_file, "~/.zsh_history");
}

#[test]
fn bash_uses_bash_history_by_default() {
    assert_eq!(Config::for_shell("bash").history_file, "~/.bash_history");
}

#[test]
fn other_shells_use_zsh_defaults() {
    assert_eq!(Config::for_shell("zsh"), Config::default());
    assert_eq!(Config::for_shell("fish"), Config::default());
    assert_eq!(Config::for_shell("Bash").history_file, "~/.zsh_history");
}

#[test]
fn matching_mode_defaults_to_prefix() {
    assert_eq!(MatchingMode::default(), MatchingMode::Prefix);
}

#[test]
fn missing_or_invalid_file_keeps_defaults() {
    assert_eq!(Config::load(None), Config::default());
    assert_eq!(Config::load_for_shell("bash", None), Config::for_shell("bash"));
    assert_eq!(Config::load(Some("this is = = not toml")), Config::default());
    assert_eq!(Config::load(Some("")), Config::default());
}

#[test]
fn readme_configuration_is_read() {
    let text = "matching = \"contains\"\nmax_suggestions = 3\ncase_sensitive = true\nhistory_file = \"~/.my_history\"\n";
    let config = Config::load(Some(text));
    assert_eq!(config.matching, MatchingMode::Contains);
    assert_eq!(config.max_suggestions, 3);
    assert!(config.case_sensitive);
    assert_eq!(config.history_file, "~/.my_history");
}

#[test]
fn limit_alone_overrides_only_the_limit() {
    let config = Config::load_for_shell("bash", Some("max_suggestions = 2\n"));
    assert_eq!(config.max_suggestions, 2);
    assert_eq!(config.history_file, "~/.bash_history");
    assert_eq!(config.matching, MatchingMode::Prefix);
}

#[test]
fn wrong_kinds_are_ignored() {
    let text = "matching = \"fuzzy\"\nmax_suggestions = -1\ncase_sensitive = \"yes\"\nhistory_file = 7\n";
    assert_eq!(Config::load(Some(text)), Config::default());
    let text = "matching = 1\nmax_suggestions = \"5\"\ncase_sensitive = 1\nhistory_file = [\"a\"]\n";
    assert_eq!(Config::load(Some(text)), Config::default());
}

#[test]
fn settings_apply_by_kind() {
    let base = Config::default();
    let config = base.clone().with_settings(
        Some(TomlItem::Text("contains".to_string())),
        Some(TomlItem::Integer(0)),
        Some(TomlItem::Boolean(true)),
        Some(TomlItem::Text("/tmp/h".to_string())),
    );
    assert_eq!(config.matching, MatchingMode::Contains);
    assert_eq!(config.max_suggestions, 0);
    assert!(config.case_sensitive);
    assert_eq!(config.history_file, "/tmp/h");
    let same = base.clone().with_settings(
        Some(TomlItem::Text("Prefix".to_string())),
        Some(TomlItem::Integer(-5)),
        Some(TomlItem::Other),
        None,
    );
    assert_eq!(same, base);
}

#[test]
fn tilde_expansion() {
    assert_eq!(expand_tilde(Some("/home/u"), "~"), "/home/u");
    assert_eq!(expand_tilde(Some("/home/u"), "~/.zsh_history"), "/home/u/.zsh_history");
    assert_eq!(expand_tilde(Some("/home/u/"), "~/.zsh_history"), "/home/u/.zsh_history");
    assert_eq!(expand_tilde(Some("/home/u"), "~//etc/h"), "/etc/h");
    assert_eq!(expand_tilde(Some("/home/u"), "~/"), "/home/u/");
    assert_eq!(expand_tilde(Some("/home/u"), "~user/h"), "~user/h");
    assert_eq!(expand_tilde(Some("/home/u"), "/var/h"), "/var/h");
    assert_eq!(expand_tilde(None, "~/.zsh_history"), "~/.zsh_history");
}

#[test]
fn history_path_of_defaults() {
    assert_eq!(Config::default().history_path(Some("/home/u")), "/home/u/.zsh_history");
    assert_eq!(Config::for_shell("bash").history_path(Some("/root")), "/root/.bash_history");
    assert_eq!(Config::default().history_path(None), "~/.zsh_history");
}

#[test]
fn matching_mode_as_single_key_table() {
    let contains = Config::load(Some("matching = { contains = {} }\n"));
    assert_eq!(contains.matching, MatchingMode::Contains);
    let prefix = Config::load(Some("case_sensitive = true\nmatching = { prefix = [] }\n"));
    assert_eq!(prefix.matching, MatchingMode::Prefix);
    assert!(prefix.case_sensitive);
    let contains = Config::load(Some("[matching]\ncontains = []\n"));
    assert_eq!(contains.matching, MatchingMode::Contains);
}

#[test]
fn matching_tables_of_other_shapes_are_ignored() {
    for text in [
        "matching = {}\n",
        "matching = { contains = [1] }\n",
        "matching = { contains = { a = 1 } }\n",
        "matching = { contains = {}, prefix = {} }\n",
        "matching = { fuzzy = {} }\n",
        "matching = { contains = \"x\" }\n",
        "matching = [\"contains\"]\n",
    ] {
        assert_eq!(Config::load(Some(text)).matching, MatchingMode::Prefix, "{text}");
    }
}

#[test]
fn settings_accept_table_items() {
    let table: toml::Value = toml::from_str("contains = []").unwrap();
    let config = Config::default().with_settings(Some(TomlItem::Table(table)), None, None, None);
    assert_eq!(config.matching, MatchingMode::Contains);
    let table: toml::Value = toml::from_str("contains = [0]").unwrap();
    let config = Config::default().with_settings(Some(TomlItem::Table(table)), None, None, None);
    assert_eq!(config.matching, MatchingMode::Prefix);
}
