//! What the `suggest` command prints: each matching history command once,
//! newest first, up to the configured limit.

use vstd::prelude::*;

use crate::config::{Config, ConfigView, MatchingMode};
use crate::matching::{
    entry_matches, law_suggestions_are_matching_entries, newest_matches, string_views, suggested,
    suggestion_texts, Matcher, MatcherView,
};
use crate::text::{ascii_lowercase, lowercase, text_equals};

verus! {

/// `s` with every element after its first occurrence dropped.
pub open spec fn first_occurrences(s: Seq<Seq<char>>) -> Seq<Seq<char>>
    decreases s.len(),
{
    if s.len() == 0 {
        seq![]
    } else {
        let d = first_occurrences(s.drop_last());
        if d.contains(s.last()) {
            d
        } else {
            d.push(s.last())
        }
    }
}

/// The lines the `suggest` command prints for `query`: nothing for an empty
/// query; otherwise the distinct matching entries, newest first, at most
/// `max_suggestions` of them.
pub open spec fn command_output(config: ConfigView, entries: Seq<Seq<char>>, query: Seq<char>) -> Seq<
    Seq<char>,
> {
    if query.len() == 0 {
        seq![]
    } else {
        let d = first_occurrences(
            newest_matches(config.matching, config.case_sensitive, query, entries),
        );
        if d.len() <= config.max_suggestions {
            d
        } else {
            d.take(config.max_suggestions as int)
        }
    }
}

proof fn lemma_newest_matches_len(
    mode: MatchingMode,
    cs: bool,
    query: Seq<char>,
    entries: Seq<Seq<char>>,
)
    ensures
        newest_matches(mode, cs, query, entries).len() <= entries.len(),
    decreases entries.len(),
{
    if entries.len() > 0 {
        lemma_newest_matches_len(mode, cs, query, entries.drop_first());
    }
}

/// Dropping later occurrences keeps every value once.
proof fn lemma_first_occurrences(s: Seq<Seq<char>>)
    ensures
        first_occurrences(s).no_duplicates(),
        forall|e: Seq<char>| #[trigger] first_occurrences(s).contains(e) <==> s.contains(e),
    decreases s.len(),
{
    if s.len() > 0 {
        let init = s.drop_last();
        lemma_first_occurrences(init);
        let d = first_occurrences(init);
        assert forall|e: Seq<char>| #[trigger] first_occurrences(s).contains(e) <==> s.contains(
            e,
        ) by {
            if s.contains(e) {
                let j = choose|j: int| 0 <= j < s.len() && s[j] == e;
                if j < s.len() - 1 {
                    assert(init[j] == e);
                    assert(init.contains(e));
                    assert(d.contains(e));
                    if !d.contains(s.last()) {
                        let k = choose|k: int| 0 <= k < d.len() && d[k] == e;
                        assert(d.push(s.last())[k] == e);
                    }
                } else if !d.contains(s.last()) {
                    assert(d.push(s.last())[d.len() as int] == e);
                } else {
                    assert(d.contains(e));
                }
            }
            if first_occurrences(s).contains(e) {
                let f = first_occurrences(s);
                let k = choose|k: int| 0 <= k < f.len() && f[k] == e;
                if k < d.len() {
                    assert(d[k] == e);
                    assert(d.contains(e));
                    let j = choose|j: int| 0 <= j < init.len() && init[j] == e;
                    assert(s[j] == e);
                } else {
                    assert(s[s.len() - 1] == e);
                }
            }
        }
    }
}

/// The `suggest` command prints each history command at most once, only
/// history entries that match the query, and never more lines than the
/// limit; when the distinct matches fit under the limit, all are printed.
pub proof fn law_output_is_distinct_matching_entries(
    config: ConfigView,
    entries: Seq<Seq<char>>,
    query: Seq<char>,
)
    ensures
        command_output(config, entries, query).no_duplicates(),
        command_output(config, entries, query).len() <= config.max_suggestions,
        forall|k: int|
            0 <= k < command_output(config, entries, query).len() ==> entries.contains(
                #[trigger] command_output(config, entries, query)[k],
            ) && entry_matches(
                config.matching,
                config.case_sensitive,
                query,
                command_output(config, entries, query)[k],
            ),
        query.len() > 0 && first_occurrences(
            newest_matches(config.matching, config.case_sensitive, query, entries),
        ).len() <= config.max_suggestions ==> forall|e: Seq<char>|
            #[trigger] entries.contains(e) && entry_matches(
                config.matching,
                config.case_sensitive,
                query,
                e,
            ) ==> command_output(config, entries, query).contains(e),
{
    let m = MatcherView {
        mode: config.matching,
        case_sensitive: config.case_sensitive,
        max_suggestions: entries.len(),
    };
    lemma_newest_matches_len(config.matching, config.case_sensitive, query, entries);
    law_suggestions_are_matching_entries(m, entries, query);
    let all = newest_matches(config.matching, config.case_sensitive, query, entries);
    lemma_first_occurrences(all);
    let d = first_occurrences(all);
    let out = command_output(config, entries, query);
    if query.len() > 0 {
        if entries.len() > 0 {
            assert(suggested(m, entries, query) == all);
        } else {
            assert(entries =~= Seq::<Seq<char>>::empty());
        }
        assert forall|k: int| 0 <= k < out.len() implies entries.contains(#[trigger] out[k])
            && entry_matches(config.matching, config.case_sensitive, query, out[k]) by {
            assert(out[k] == d[k]);
            assert(d.contains(d[k]));
            let j = choose|j: int| 0 <= j < all.len() && all[j] == d[k];
            assert(all[j] == suggested(m, entries, query)[j]);
        }
        if d.len() > config.max_suggestions {
            assert forall|a: int, b: int| 0 <= a < b < out.len() implies out[a] != out[b] by {
                assert(out[a] == d[a] && out[b] == d[b]);
            }
        }
        assert forall|e: Seq<char>|
            #[trigger] entries.contains(e) && entry_matches(
                config.matching,
                config.case_sensitive,
                query,
                e,
            ) && d.len() <= config.max_suggestions implies out.contains(e) by {
            if entries.len() > 0 {
                assert(suggested(m, entries, query).contains(e));
            }
        }
    } else {
        assert(out =~= Seq::<Seq<char>>::empty());
    }
}

/// Whether `s` is one of `items`.
fn contains_text(items: &Vec<String>, s: &str) -> (r: bool)
    ensures
        r == string_views(items@).contains(s@),
{
    let mut i: usize = 0;
    while i < items.len()
        invariant
            i <= items.len(),
            forall|j: int| 0 <= j < i ==> items@[j]@ != s@,
        decreases items.len() - i,
    {
        if text_equals(items[i].as_str(), s) {
            assert(string_views(items@)[i as int] == s@);
            return true;
        }
        i = i + 1;
    }
    assert(!string_views(items@).contains(s@)) by {
        if string_views(items@).contains(s@) {
            let j = choose|j: int| 0 <= j < items@.len() && string_views(items@)[j] == s@;
            assert(items@[j]@ == s@);
        }
    }
    false
}

/// The lines to print for `query`, given the configuration and the history
/// entries (oldest first).
pub fn suggest(config: &Config, entries: &[String], query: &str) -> (lines: Vec<String>)
    ensures
        string_views(lines@) == command_output(config@, string_views(entries@), query@),
        !config.case_sensitive && query@.len() > 0 && entries@.len() > 0 ==> {
            &&& vstd::utf8::is_ascii_chars(query@) ==> lowercase(query@) == ascii_lowercase(query@)
            &&& forall|k: int|
                0 <= k < entries@.len() && vstd::utf8::is_ascii_chars(#[trigger] entries@[k]@)
                    ==> lowercase(entries@[k]@) == ascii_lowercase(entries@[k]@)
        },
{
    if query.is_empty() {
        let lines: Vec<String> = Vec::new();
        assert(string_views(lines@) =~= Seq::<Seq<char>>::empty());
        return lines;
    }
    let matcher = Matcher::new(config.matching, config.case_sensitive, entries.len());
    let found = matcher.suggest(entries, query);
    let ghost all = newest_matches(
        config.matching,
        config.case_sensitive,
        query@,
        string_views(entries@),
    );
    proof {
        lemma_newest_matches_len(
            config.matching,
            config.case_sensitive,
            query@,
            string_views(entries@),
        );
        if entries@.len() == 0 {
            assert(string_views(entries@) =~= Seq::<Seq<char>>::empty());
        }
        assert(suggestion_texts(found@) == all);
    }
    let mut lines: Vec<String> = Vec::new();
    let mut i: usize = 0;
    while i < found.len()
        invariant
            i <= found.len(),
            suggestion_texts(found@) == all,
            string_views(lines@) == first_occurrences(all.take(i as int)),
        decreases found.len() - i,
    {
        let text = &found[i].text;
        assert(all[i as int] == text@);
        assert(all.take(i + 1).drop_last() =~= all.take(i as int));
        if !contains_text(&lines, text.as_str()) {
            let ghost before = lines@;
            lines.push(text.clone());
            assert(string_views(lines@) =~= string_views(before).push(text@));
        }
        i = i + 1;
    }
    assert(all.take(found.len() as int) =~= all);
    let ghost distinct = string_views(lines@);
    if lines.len() > config.max_suggestions {
        lines.truncate(config.max_suggestions);
        assert(string_views(lines@) =~= distinct.take(config.max_suggestions as int));
    }
    lines
}

} // verus!
