use rrsreadline::config::MatchingMode;
use rrsreadline::matching::{select_matches, Matcher};

fn entries() -> Vec<String> {
    ["git status", "cargo test", "git diff", "git status"]
        .into_iter()
        .map(str::to_owned)
        .collect()
}

#[test]
fn returns_newest_matching_entries_first() {
    let matcher = Matcher::new(MatchingMode::Prefix, false, 3);
    let result = matcher.suggest(&entries(), "git");
    assert_eq!(
        result.into_iter().map(|item| item.text).collect::<Vec<_>>(),
        vec!["git status", "git diff", "git status"]
    );
}

#[test]
fn supports_contains_matching() {
    let matcher = Matcher::new(MatchingMode::Contains, false, 8);
    assert_eq!(matcher.suggest(&entries(), "TEST")[0].text, "cargo test");
}

#[test]
fn limit_keeps_the_newest() {
    let matcher = Matcher::new(MatchingMode::Prefix, false, 2);
    let result = matcher.suggest(&entries(), "git");
    assert_eq!(
        result.into_iter().map(|item| item.text).collect::<Vec<_>>(),
        vec!["git status", "git diff"]
    );
}

#[test]
fn empty_query_or_zero_limit_gives_nothing() {
    assert!(Matcher::new(MatchingMode::Prefix, false, 3).suggest(&entries(), "").is_empty());
    assert!(Matcher::new(MatchingMode::Prefix, false, 0).suggest(&entries(), "git").is_empty());
    assert!(Matcher::new(MatchingMode::Contains, false, 3).suggest(&[], "git").is_empty());
}

#[test]
fn case_sensitivity() {
    let sensitive = Matcher::new(MatchingMode::Prefix, true, 10);
    assert!(sensitive.suggest(&entries(), "GIT").is_empty());
    let insensitive = Matcher::new(MatchingMode::Prefix, false, 10);
    assert_eq!(insensitive.suggest(&entries(), "GIT").len(), 3);
    let contains = Matcher::new(MatchingMode::Contains, true, 10);
    assert!(contains.suggest(&entries(), "TEST").is_empty());
    assert_eq!(contains.suggest(&entries(), "test")[0].text, "cargo test");
}

#[test]
fn prefix_does_not_match_inside() {
    let matcher = Matcher::new(MatchingMode::Prefix, false, 10);
    assert!(matcher.suggest(&entries(), "status").is_empty());
    let matcher = Matcher::new(MatchingMode::Contains, false, 10);
    assert_eq!(matcher.suggest(&entries(), "status").len(), 2);
}

#[test]
fn all_matches_fit_under_the_limit() {
    let matcher = Matcher::new(MatchingMode::Contains, false, 10);
    let texts: Vec<String> = matcher
        .suggest(&entries(), "i")
        .into_iter()
        .map(|s| s.text)
        .collect();
    assert_eq!(texts, vec!["git status", "git diff", "git status"]);
}

#[test]
fn select_matches_on_compared_forms() {
    let entries = entries();
    let forms: Vec<Vec<char>> = entries.iter().map(|e| e.to_uppercase().chars().collect()).collect();
    let query: Vec<char> = "GIT".chars().collect();
    let texts: Vec<String> = select_matches(MatchingMode::Prefix, 2, &entries, &forms, &query)
        .into_iter()
        .map(|s| s.text)
        .collect();
    assert_eq!(texts, vec!["git status", "git diff"]);
    let query: Vec<char> = "TEST".chars().collect();
    let texts: Vec<String> = select_matches(MatchingMode::Contains, 5, &entries, &forms, &query)
        .into_iter()
        .map(|s| s.text)
        .collect();
    assert_eq!(texts, vec!["cargo test"]);
    assert!(select_matches(MatchingMode::Contains, 0, &entries, &forms, &query).is_empty());
}

#[test]
fn ascii_case_variants_get_same_suggestions() {
    for mode in [MatchingMode::Prefix, MatchingMode::Contains] {
        let matcher = Matcher::new(mode, false, 10);
        let lower = matcher.suggest(&entries(), "git s");
        assert_eq!(lower, matcher.suggest(&entries(), "GIT S"));
        assert_eq!(lower, matcher.suggest(&entries(), "GiT s"));
        assert!(!lower.is_empty());
    }
}
