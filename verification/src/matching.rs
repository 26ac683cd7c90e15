//! Turning history entries and a typed query into suggestions.

use vstd::prelude::*;

use crate::config::MatchingMode;
use crate::text::{
    ascii_lowercase, chars_of, contains_chars, lowercase, occurs_in, starts_with_chars,
    to_lowercase,
};

verus! {

/// One suggested history command.
#[derive(Debug, Clone, PartialEq, Eq)]
pub struct Suggestion {
    pub text: String,
}

/// The texts of a sequence of suggestions.
pub open spec fn suggestion_texts(s: Seq<Suggestion>) -> Seq<Seq<char>> {
    s.map_values(|x: Suggestion| x.text@)
}

/// The characters of each string of a sequence.
pub open spec fn string_views(s: Seq<String>) -> Seq<Seq<char>> {
    s.map_values(|x: String| x@)
}

/// A string as it is compared: unchanged when matching is case sensitive,
/// lower-cased otherwise.
pub open spec fn normalized(s: Seq<char>, case_sensitive: bool) -> Seq<char> {
    if case_sensitive {
        s
    } else {
        lowercase(s)
    }
}

/// Whether `text` matches `query` under the given mode, both as compared.
pub open spec fn text_matches(mode: MatchingMode, query: Seq<char>, text: Seq<char>) -> bool {
    match mode {
        MatchingMode::Prefix => query.is_prefix_of(text),
        MatchingMode::Contains => occurs_in(query, text),
    }
}

/// Whether `entry` matches `query` under the given mode and case rule.
pub open spec fn entry_matches(
    mode: MatchingMode,
    case_sensitive: bool,
    query: Seq<char>,
    entry: Seq<char>,
) -> bool {
    text_matches(mode, normalized(query, case_sensitive), normalized(entry, case_sensitive))
}

/// The characters of each vector of a sequence.
pub open spec fn char_views(s: Seq<Vec<char>>) -> Seq<Seq<char>> {
    s.map_values(|x: Vec<char>| x@)
}

/// The entries whose compared form (`forms[k]` for `entries[k]`) matches the
/// compared query, newest (last) first.
pub open spec fn newest_hits(
    mode: MatchingMode,
    query: Seq<char>,
    entries: Seq<Seq<char>>,
    forms: Seq<Seq<char>>,
) -> Seq<Seq<char>>
    decreases entries.len(),
{
    if entries.len() == 0 {
        seq![]
    } else {
        let newer = newest_hits(mode, query, entries.drop_first(), forms.drop_first());
        if text_matches(mode, query, forms[0]) {
            newer.push(entries[0])
        } else {
            newer
        }
    }
}

/// The first `max` hits, newest first (see `newest_hits`).
pub open spec fn first_hits(
    max: nat,
    mode: MatchingMode,
    query: Seq<char>,
    entries: Seq<Seq<char>>,
    forms: Seq<Seq<char>>,
) -> Seq<Seq<char>> {
    let all = newest_hits(mode, query, entries, forms);
    if all.len() <= max {
        all
    } else {
        all.take(max as int)
    }
}

/// Hits over the compared forms of the entries are the matches.
proof fn lemma_hits_are_matches(
    mode: MatchingMode,
    cs: bool,
    query: Seq<char>,
    entries: Seq<Seq<char>>,
    forms: Seq<Seq<char>>,
)
    requires
        forms.len() == entries.len(),
        forall|k: int| 0 <= k < entries.len() ==> #[trigger] forms[k] == normalized(entries[k], cs),
    ensures
        newest_hits(mode, normalized(query, cs), entries, forms) == newest_matches(
            mode,
            cs,
            query,
            entries,
        ),
    decreases entries.len(),
{
    if entries.len() > 0 {
        let e = entries.drop_first();
        let f = forms.drop_first();
        assert forall|k: int| 0 <= k < e.len() implies #[trigger] f[k] == normalized(e[k], cs) by {
            assert(f[k] == forms[k + 1]);
        }
        lemma_hits_are_matches(mode, cs, query, e, f);
        assert(forms[0] == normalized(entries[0], cs));
    }
}

/// All entries that match, newest (last) first.
pub open spec fn newest_matches(
    mode: MatchingMode,
    case_sensitive: bool,
    query: Seq<char>,
    entries: Seq<Seq<char>>,
) -> Seq<Seq<char>>
    decreases entries.len(),
{
    if entries.len() == 0 {
        seq![]
    } else {
        let newer = newest_matches(mode, case_sensitive, query, entries.drop_first());
        if entry_matches(mode, case_sensitive, query, entries[0]) {
            newer.push(entries[0])
        } else {
            newer
        }
    }
}

/// The abstract state of a matcher.
pub struct MatcherView {
    pub mode: MatchingMode,
    pub case_sensitive: bool,
    pub max_suggestions: nat,
}

/// What `suggest` returns: nothing for an empty query or a zero limit, else
/// the first `max_suggestions` matching entries, newest first.
pub open spec fn suggested(m: MatcherView, entries: Seq<Seq<char>>, query: Seq<char>) -> Seq<
    Seq<char>,
> {
    if query.len() == 0 || m.max_suggestions == 0 {
        seq![]
    } else {
        let all = newest_matches(m.mode, m.case_sensitive, query, entries);
        if all.len() <= m.max_suggestions {
            all
        } else {
            all.take(m.max_suggestions as int)
        }
    }
}

/// Taking in older entries keeps the earlier hits as a prefix.
proof fn lemma_newest_hits_prefix(
    mode: MatchingMode,
    query: Seq<char>,
    entries: Seq<Seq<char>>,
    forms: Seq<Seq<char>>,
    i: int,
    j: int,
)
    requires
        0 <= i <= j <= entries.len(),
        forms.len() == entries.len(),
    ensures
        newest_hits(
            mode,
            query,
            entries.subrange(j, entries.len() as int),
            forms.subrange(j, forms.len() as int),
        ).is_prefix_of(
            newest_hits(
                mode,
                query,
                entries.subrange(i, entries.len() as int),
                forms.subrange(i, forms.len() as int),
            ),
        ),
    decreases j - i,
{
    if i < j {
        lemma_newest_hits_prefix(mode, query, entries, forms, i + 1, j);
        assert(entries.subrange(i, entries.len() as int).drop_first() =~= entries.subrange(
            i + 1,
            entries.len() as int,
        ));
        assert(forms.subrange(i, forms.len() as int).drop_first() =~= forms.subrange(
            i + 1,
            forms.len() as int,
        ));
    }
}

/// The first `max_suggestions` entries whose compared form matches the
/// compared query, newest first: `forms[k]` is the compared form of
/// `entries[k]`, and `query` the compared query.
pub fn select_matches(
    mode: MatchingMode,
    max_suggestions: usize,
    entries: &[String],
    forms: &Vec<Vec<char>>,
    query: &Vec<char>,
) -> (r: Vec<Suggestion>)
    requires
        forms.len() == entries.len(),
    ensures
        suggestion_texts(r@) == first_hits(
            max_suggestions as nat,
            mode,
            query@,
            string_views(entries@),
            char_views(forms@),
        ),
{
    let ghost views = string_views(entries@);
    let ghost fviews = char_views(forms@);
    let n = entries.len();
    let mut out: Vec<Suggestion> = Vec::new();
    let mut i: usize = n;
    assert(suggestion_texts(out@) =~= Seq::<Seq<char>>::empty());
    while i > 0 && out.len() < max_suggestions
        invariant
            i <= n,
            n == entries@.len(),
            n == forms@.len(),
            views == string_views(entries@),
            fviews == char_views(forms@),
            out.len() <= max_suggestions,
            suggestion_texts(out@) == newest_hits(
                mode,
                query@,
                views.subrange(i as int, n as int),
                fviews.subrange(i as int, n as int),
            ),
        decreases i,
    {
        i = i - 1;
        let hit = match mode {
            MatchingMode::Prefix => starts_with_chars(&forms[i], query),
            MatchingMode::Contains => contains_chars(&forms[i], query),
        };
        let ghost before = out@;
        if hit {
            out.push(Suggestion { text: entries[i].clone() });
            assert(suggestion_texts(out@) =~= suggestion_texts(before).push(entries@[i as int]@));
        }
        assert(views.subrange(i as int, n as int).drop_first() =~= views.subrange(
            i + 1,
            n as int,
        ));
        assert(fviews.subrange(i as int, n as int).drop_first() =~= fviews.subrange(
            i + 1,
            n as int,
        ));
        assert(views.subrange(i as int, n as int)[0] == entries@[i as int]@);
        assert(fviews.subrange(i as int, n as int)[0] == forms@[i as int]@);
    }
    proof {
        assert(views.subrange(0, n as int) =~= views);
        assert(fviews.subrange(0, n as int) =~= fviews);
        lemma_newest_hits_prefix(mode, query@, views, fviews, 0, i as int);
        let all = newest_hits(mode, query@, views, fviews);
        if i > 0 {
            assert(suggestion_texts(out@) =~= all.take(max_suggestions as int));
        }
    }
    out
}

/// Every match is a matching entry of the history, and every matching entry
/// is among the matches.
proof fn lemma_newest_matches_members(
    mode: MatchingMode,
    cs: bool,
    query: Seq<char>,
    entries: Seq<Seq<char>>,
)
    ensures
        forall|k: int|
            0 <= k < newest_matches(mode, cs, query, entries).len() ==> entries.contains(
                #[trigger] newest_matches(mode, cs, query, entries)[k],
            ) && entry_matches(mode, cs, query, newest_matches(mode, cs, query, entries)[k]),
        forall|e: Seq<char>|
            #[trigger] entries.contains(e) && entry_matches(mode, cs, query, e)
                ==> newest_matches(mode, cs, query, entries).contains(e),
    decreases entries.len(),
{
    if entries.len() > 0 {
        let rest = entries.drop_first();
        lemma_newest_matches_members(mode, cs, query, rest);
        let nm = newest_matches(mode, cs, query, entries);
        let nr = newest_matches(mode, cs, query, rest);
        assert forall|k: int| 0 <= k < nm.len() implies entries.contains(#[trigger] nm[k])
            && entry_matches(mode, cs, query, nm[k]) by {
            if k < nr.len() {
                assert(nm[k] == nr[k]);
                let j = choose|j: int| 0 <= j < rest.len() && rest[j] == nr[k];
                assert(entries[j + 1] == rest[j]);
            } else {
                assert(nm[k] == entries[0]);
            }
        }
        assert forall|e: Seq<char>|
            #[trigger] entries.contains(e) && entry_matches(mode, cs, query, e) implies nm.contains(
            e,
        ) by {
            let j = choose|j: int| 0 <= j < entries.len() && entries[j] == e;
            if j == 0 {
                assert(nm[nm.len() - 1] == e);
            } else {
                assert(rest[j - 1] == e);
                assert(rest.contains(e));
                let k = choose|k: int| 0 <= k < nr.len() && nr[k] == e;
                assert(nm[k] == e);
            }
        }
    }
}

/// Suggestions are matching history entries, never more than the limit;
/// when no more entries match than the limit allows, every matching entry
/// is suggested.
pub proof fn law_suggestions_are_matching_entries(
    m: MatcherView,
    entries: Seq<Seq<char>>,
    query: Seq<char>,
)
    ensures
        suggested(m, entries, query).len() <= m.max_suggestions,
        forall|k: int|
            0 <= k < suggested(m, entries, query).len() ==> entries.contains(
                #[trigger] suggested(m, entries, query)[k],
            ) && entry_matches(m.mode, m.case_sensitive, query, suggested(m, entries, query)[k]),
        query.len() > 0 && newest_matches(m.mode, m.case_sensitive, query, entries).len()
            <= m.max_suggestions ==> forall|e: Seq<char>|
            #[trigger] entries.contains(e) && entry_matches(m.mode, m.case_sensitive, query, e)
                ==> suggested(m, entries, query).contains(e),
{
    lemma_newest_matches_members(m.mode, m.case_sensitive, query, entries);
    let all = newest_matches(m.mode, m.case_sensitive, query, entries);
    let s = suggested(m, entries, query);
    assert forall|k: int| 0 <= k < s.len() implies entries.contains(#[trigger] s[k])
        && entry_matches(m.mode, m.case_sensitive, query, s[k]) by {
        assert(s[k] == all[k]);
    }
}

/// When matching ignores case, two ASCII queries that differ only in the
/// case of their letters match the same entries (given the ASCII behaviour
/// of lower-casing that `suggest` reports).
pub proof fn law_ascii_case_is_ignored(
    mode: MatchingMode,
    q1: Seq<char>,
    q2: Seq<char>,
    entry: Seq<char>,
)
    requires
        lowercase(q1) == ascii_lowercase(q1),
        lowercase(q2) == ascii_lowercase(q2),
        ascii_lowercase(q1) == ascii_lowercase(q2),
    ensures
        entry_matches(mode, false, q1, entry) == entry_matches(mode, false, q2, entry),
{
}

/// Matching reads the query only through its compared form.
proof fn lemma_same_form_same_matches(
    mode: MatchingMode,
    cs: bool,
    q1: Seq<char>,
    q2: Seq<char>,
    entries: Seq<Seq<char>>,
)
    requires
        normalized(q1, cs) == normalized(q2, cs),
    ensures
        newest_matches(mode, cs, q1, entries) == newest_matches(mode, cs, q2, entries),
    decreases entries.len(),
{
    if entries.len() > 0 {
        lemma_same_form_same_matches(mode, cs, q1, q2, entries.drop_first());
    }
}

/// When matching ignores case, two ASCII queries that differ only in the
/// case of their letters get the same suggestions (given the ASCII
/// behaviour of lower-casing that `suggest` reports).
pub proof fn law_ascii_case_gives_same_suggestions(
    m: MatcherView,
    entries: Seq<Seq<char>>,
    q1: Seq<char>,
    q2: Seq<char>,
)
    requires
        !m.case_sensitive,
        lowercase(q1) == ascii_lowercase(q1),
        lowercase(q2) == ascii_lowercase(q2),
        ascii_lowercase(q1) == ascii_lowercase(q2),
    ensures
        suggested(m, entries, q1) == suggested(m, entries, q2),
{
    assert(q1.len() == ascii_lowercase(q1).len());
    assert(q2.len() == ascii_lowercase(q2).len());
    lemma_same_form_same_matches(m.mode, m.case_sensitive, q1, q2, entries);
}

/// Filters history entries against queries.
#[derive(Debug, Clone, Copy)]
pub struct Matcher {
    mode: MatchingMode,
    case_sensitive: bool,
    max_suggestions: usize,
}

impl View for Matcher {
    type V = MatcherView;

    closed spec fn view(&self) -> MatcherView {
        MatcherView {
            mode: self.mode,
            case_sensitive: self.case_sensitive,
            max_suggestions: self.max_suggestions as nat,
        }
    }
}

impl Matcher {
    pub fn new(mode: MatchingMode, case_sensitive: bool, max_suggestions: usize) -> (m: Self)
        ensures
            m@ == (MatcherView { mode, case_sensitive, max_suggestions: max_suggestions as nat }),
    {
        Self { mode, case_sensitive, max_suggestions }
    }

    /// Suggestions for `query`, newest entry first, at most `max_suggestions`.
    /// When matching ignores case, ASCII queries and entries are compared with
    /// `A`-`Z` folded to `a`-`z`.
    pub fn suggest(&self, entries: &[String], query: &str) -> (r: Vec<Suggestion>)
        ensures
            suggestion_texts(r@) == suggested(self@, string_views(entries@), query@),
            !self@.case_sensitive && query@.len() > 0 && self@.max_suggestions > 0 ==> {
                &&& vstd::utf8::is_ascii_chars(query@) ==> lowercase(query@) == ascii_lowercase(
                    query@,
                )
                &&& forall|k: int|
                    0 <= k < entries@.len() && vstd::utf8::is_ascii_chars(#[trigger] entries@[k]@)
                        ==> lowercase(entries@[k]@) == ascii_lowercase(entries@[k]@)
            },
    {
        let ghost views = string_views(entries@);
        if query.is_empty() || self.max_suggestions == 0 {
            assert(suggestion_texts(Seq::<Suggestion>::empty()) =~= Seq::<Seq<char>>::empty());
            return Vec::new();
        }
        let normalized_query = self.normalize(query);
        let n = entries.len();
        let mut forms: Vec<Vec<char>> = Vec::new();
        let mut i: usize = 0;
        while i < n
            invariant
                i <= n,
                n == entries@.len(),
                forms@.len() == i,
                forall|k: int|
                    0 <= k < i ==> (#[trigger] forms@[k])@ == normalized(
                        entries@[k]@,
                        self.case_sensitive,
                    ),
                !self.case_sensitive ==> forall|k: int|
                    0 <= k < i && vstd::utf8::is_ascii_chars(#[trigger] entries@[k]@) ==> lowercase(
                        entries@[k]@,
                    ) == ascii_lowercase(entries@[k]@),
            decreases n - i,
        {
            forms.push(self.normalize(entries[i].as_str()));
            i = i + 1;
        }
        let r = select_matches(self.mode, self.max_suggestions, entries, &forms, &normalized_query);
        proof {
            let fviews = char_views(forms@);
            assert forall|k: int| 0 <= k < views.len() implies #[trigger] fviews[k] == normalized(
                views[k],
                self.case_sensitive,
            ) by {
                assert(fviews[k] == forms@[k]@);
            }
            lemma_hits_are_matches(self.mode, self.case_sensitive, query@, views, fviews);
        }
        r
    }

    fn normalize(&self, value: &str) -> (r: Vec<char>)
        ensures
            r@ == normalized(value@, self.case_sensitive),
            !self.case_sensitive && vstd::utf8::is_ascii_chars(value@) ==> lowercase(value@)
                == ascii_lowercase(value@),
    {
        if self.case_sensitive {
            chars_of(value)
        } else {
            let lowered = to_lowercase(value);
            chars_of(lowered.as_str())
        }
    }
}

} // verus!
