//! Portable configuration: matching mode, suggestion limit, case sensitivity
//! and the history file to read, with the rules by which a TOML
//! configuration file overrides the defaults.

use vstd::prelude::*;

use crate::text::{chars_of, string_of, text_equals};

verus! {

broadcast use vstd::string::group_string_axioms;

/// How a history entry is tested against the typed query.
#[derive(Debug, Clone, Copy, PartialEq, Eq, Structural)]
pub enum MatchingMode {
    /// The entry starts with the query.
    Prefix,
    /// The query occurs anywhere in the entry.
    Contains,
}

impl Default for MatchingMode {
    fn default() -> (m: Self)
        ensures
            m == MatchingMode::Prefix,
    {
        MatchingMode::Prefix
    }
}

/// A value of a TOML document, as far as the configuration reads it.
#[derive(Debug, PartialEq)]
pub enum TomlItem {
    Text(String),
    Integer(i64),
    Boolean(bool),
    /// An array, with its elements.
    Array(Vec<toml::Value>),
    /// A table, held as the TOML value itself; a value that is not a table
    /// counts as a table without keys.
    Table(toml::Value),
    /// A float or a date-time.
    Other,
}

/// The abstract form of a `TomlItem`: an array by its length, a table by its
/// keys and items.
pub enum TomlItemView {
    Text(Seq<char>),
    Integer(i64),
    Boolean(bool),
    Array(nat),
    Table(Map<Seq<char>, TomlItemView>),
    Other,
}

impl View for TomlItem {
    type V = TomlItemView;

    open spec fn view(&self) -> TomlItemView {
        match self {
            TomlItem::Text(s) => TomlItemView::Text(s@),
            TomlItem::Integer(n) => TomlItemView::Integer(*n),
            TomlItem::Boolean(b) => TomlItemView::Boolean(*b),
            TomlItem::Array(a) => TomlItemView::Array(a@.len()),
            TomlItem::Table(t) => TomlItemView::Table(toml_entries(*t)),
            TomlItem::Other => TomlItemView::Other,
        }
    }
}

#[verifier::external_type_specification]
#[verifier::external_body]
pub struct ExTomlValue(toml::Value);

/// The top-level keys of a parsed TOML value and the item each one holds
/// (empty for a value that is not a table); a nested table's item is in turn
/// the map of its own keys.
pub uninterp spec fn toml_entries(doc: toml::Value) -> Map<Seq<char>, TomlItemView>;

/// The top-level keys and items of a TOML document, or `None` when the text
/// is not valid TOML.
pub uninterp spec fn toml_document(contents: Seq<char>) -> Option<Map<Seq<char>, TomlItemView>>;

/// Calls `toml::from_str::<toml::Value>`. Trusted to fail exactly when
/// `toml_document` is `None`, and otherwise to give a value whose entries are
/// those of `toml_document`; which texts are valid TOML is not stated.
#[verifier::external_body]
fn parse_toml(contents: &str) -> (r: Option<toml::Value>)
    ensures
        match r {
            Some(doc) => toml_document(contents@) == Some(toml_entries(doc)),
            None => toml_document(contents@) is None,
        },
{
    toml::from_str::<toml::Value>(contents).ok()
}

/// Calls `toml::Value::get` with a string key and tells the variants of the
/// value found apart. Trusted to return the entry of `toml_entries` under
/// `key`, if there is one.
#[verifier::external_body]
fn toml_get(doc: &toml::Value, key: &str) -> (r: Option<TomlItem>)
    ensures
        match r {
            Some(item) => toml_entries(*doc).get(key@) == Some(item@),
            None => toml_entries(*doc).get(key@) is None,
        },
{
    match doc.get(key) {
        Some(toml::Value::String(s)) => Some(TomlItem::Text(s.clone())),
        Some(toml::Value::Integer(n)) => Some(TomlItem::Integer(*n)),
        Some(toml::Value::Boolean(b)) => Some(TomlItem::Boolean(*b)),
        Some(toml::Value::Float(_)) => Some(TomlItem::Other),
        Some(toml::Value::Datetime(_)) => Some(TomlItem::Other),
        Some(toml::Value::Array(a)) => Some(TomlItem::Array(a.clone())),
        Some(v @ toml::Value::Table(_)) => Some(TomlItem::Table(v.clone())),
        None => None,
    }
}

/// Calls `toml::map::Map::len` on the table a TOML value holds. Trusted to
/// give the number of its keys (a finite set), or `None` when the value is
/// not a table (and so has no entries).
#[verifier::external_body]
fn toml_table_len(v: &toml::Value) -> (r: Option<usize>)
    ensures
        match r {
            Some(n) => n == toml_entries(*v).len() && toml_entries(*v).dom().finite(),
            None => toml_entries(*v).dom() == Set::<Seq<char>>::empty(),
        },
{
    match v {
        toml::Value::Table(t) => Some(t.len()),
        toml::Value::String(_) => None,
        toml::Value::Integer(_) => None,
        toml::Value::Float(_) => None,
        toml::Value::Boolean(_) => None,
        toml::Value::Datetime(_) => None,
        toml::Value::Array(_) => None,
    }
}

/// User configuration.
#[derive(Debug, Clone, PartialEq, Eq)]
pub struct Config {
    pub matching: MatchingMode,
    pub max_suggestions: usize,
    pub case_sensitive: bool,
    pub history_file: String,
}

/// The abstract form of a `Config`.
pub struct ConfigView {
    pub matching: MatchingMode,
    pub max_suggestions: usize,
    pub case_sensitive: bool,
    pub history_file: Seq<char>,
}

impl View for Config {
    type V = ConfigView;

    open spec fn view(&self) -> ConfigView {
        ConfigView {
            matching: self.matching,
            max_suggestions: self.max_suggestions,
            case_sensitive: self.case_sensitive,
            history_file: self.history_file@,
        }
    }
}

/// Prefix matching, ten suggestions, case-insensitive, Zsh's history file.
pub open spec fn default_config() -> ConfigView {
    ConfigView {
        matching: MatchingMode::Prefix,
        max_suggestions: 10,
        case_sensitive: false,
        history_file: "~/.zsh_history"@,
    }
}

/// The defaults for a shell: Bash reads `~/.bash_history`, any other shell
/// the common defaults.
pub open spec fn config_for_shell(shell: Seq<char>) -> ConfigView {
    if shell == "bash"@ {
        ConfigView { history_file: "~/.bash_history"@, ..default_config() }
    } else {
        default_config()
    }
}

/// The mode a variant name stands for: `"prefix"` or `"contains"`.
pub open spec fn mode_of_name(s: Seq<char>) -> Option<MatchingMode> {
    if s == "prefix"@ {
        Some(MatchingMode::Prefix)
    } else if s == "contains"@ {
        Some(MatchingMode::Contains)
    } else {
        None
    }
}

/// An empty array or an empty table: what a unit variant may carry.
pub open spec fn is_unit_value(item: TomlItemView) -> bool {
    match item {
        TomlItemView::Array(n) => n == 0,
        TomlItemView::Table(m) => m.dom() == Set::<Seq<char>>::empty(),
        _ => false,
    }
}

/// The matching mode a configuration value names: a variant name as a
/// string, or a table whose only key is a variant name and whose value is an
/// empty array or table.
pub open spec fn mode_named(item: Option<TomlItemView>) -> Option<MatchingMode> {
    match item {
        Some(TomlItemView::Text(s)) => mode_of_name(s),
        Some(TomlItemView::Table(m)) => if m.dom() == set!["prefix"@] && is_unit_value(
            m["prefix"@],
        ) {
            Some(MatchingMode::Prefix)
        } else if m.dom() == set!["contains"@] && is_unit_value(m["contains"@]) {
            Some(MatchingMode::Contains)
        } else {
            None
        },
        _ => None,
    }
}

/// `base` with each setting replaced by the configured value when that value
/// has the right kind: a mode name, an integer that fits in `usize`, a
/// boolean, a string.
pub open spec fn with_settings_spec(
    base: ConfigView,
    matching: Option<TomlItemView>,
    max_suggestions: Option<TomlItemView>,
    case_sensitive: Option<TomlItemView>,
    history_file: Option<TomlItemView>,
) -> ConfigView {
    ConfigView {
        matching: match mode_named(matching) {
            Some(m) => m,
            None => base.matching,
        },
        max_suggestions: match max_suggestions {
            Some(TomlItemView::Integer(n)) => if 0 <= n <= usize::MAX {
                n as usize
            } else {
                base.max_suggestions
            },
            _ => base.max_suggestions,
        },
        case_sensitive: match case_sensitive {
            Some(TomlItemView::Boolean(b)) => b,
            _ => base.case_sensitive,
        },
        history_file: match history_file {
            Some(TomlItemView::Text(s)) => s,
            _ => base.history_file,
        },
    }
}

/// The configuration a shell gets from the text of its configuration file
/// (`None` when there is no readable file): the shell's defaults, overridden
/// by the file's top-level `matching`, `max_suggestions`, `case_sensitive`
/// and `history_file` when it is valid TOML.
pub open spec fn loaded_config(shell: Seq<char>, contents: Option<Seq<char>>) -> ConfigView {
    let base = config_for_shell(shell);
    match contents {
        None => base,
        Some(c) => match toml_document(c) {
            None => base,
            Some(t) => with_settings_spec(
                base,
                t.get("matching"@),
                t.get("max_suggestions"@),
                t.get("case_sensitive"@),
                t.get("history_file"@),
            ),
        },
    }
}

/// `rest` appended to `base` as a path: an absolute `rest` replaces `base`;
/// otherwise a `'/'` separates them unless `base` is empty or ends in one.
pub open spec fn path_join(base: Seq<char>, rest: Seq<char>) -> Seq<char> {
    if rest.len() > 0 && rest[0] == '/' {
        rest
    } else if base.len() > 0 && base.last() != '/' {
        base + seq!['/'] + rest
    } else {
        base + rest
    }
}

/// A path with a leading `~` resolved against the home directory, when one
/// is known: `"~"` is the home directory and `"~/rest"` is `rest` under it.
pub open spec fn expanded_path(home: Option<Seq<char>>, value: Seq<char>) -> Seq<char> {
    match home {
        Some(h) => if value == seq!['~'] {
            h
        } else if seq!['~', '/'].is_prefix_of(value) {
            path_join(h, value.skip(2))
        } else {
            value
        },
        None => value,
    }
}

/// The characters of an optional string.
pub open spec fn optional_view(s: Option<&str>) -> Option<Seq<char>> {
    match s {
        Some(t) => Some(t@),
        None => None,
    }
}

/// Without a configuration file, or with one that is not valid TOML, a shell
/// gets its defaults; in a valid file, absent keys keep the defaults too.
pub proof fn law_missing_settings_keep_defaults(shell: Seq<char>, contents: Option<Seq<char>>)
    ensures
        (contents is None || toml_document(contents->0) is None) ==> loaded_config(shell, contents)
            == config_for_shell(shell),
        with_settings_spec(config_for_shell(shell), None, None, None, None) == config_for_shell(
            shell,
        ),
{
}

/// Each setting is read from its own key alone: a value of the wrong kind
/// for a key leaves that setting as it was.
pub proof fn law_wrong_kinds_are_ignored(base: ConfigView, n: i64, b: bool, t: Seq<char>)
    ensures
        with_settings_spec(
            base,
            Some(TomlItemView::Integer(n)),
            Some(TomlItemView::Text(t)),
            Some(TomlItemView::Text(t)),
            Some(TomlItemView::Boolean(b)),
        ) == base,
        with_settings_spec(
            base,
            Some(TomlItemView::Boolean(b)),
            Some(TomlItemView::Other),
            Some(TomlItemView::Integer(n)),
            Some(TomlItemView::Integer(n)),
        ) == base,
{
}

/// Only Bash changes a default: its history file.
pub proof fn law_shell_defaults(shell: Seq<char>)
    ensures
        config_for_shell(shell).matching == MatchingMode::Prefix,
        config_for_shell(shell).max_suggestions == 10,
        !config_for_shell(shell).case_sensitive,
        config_for_shell(shell).history_file == (if shell == "bash"@ {
            "~/.bash_history"@
        } else {
            "~/.zsh_history"@
        }),
{
}

/// Each setting of the right kind is taken as given, whatever the other
/// keys hold: any integer from 0 to `usize::MAX` becomes the limit, a boolean
/// the case rule, a string the history file, and `"prefix"` / `"contains"`
/// the matching mode; each other setting stays as it was.
pub proof fn law_settings_are_taken_as_given(
    base: ConfigView,
    n: i64,
    b: bool,
    t: Seq<char>,
    other: Option<TomlItemView>,
)
    ensures
        0 <= n <= usize::MAX ==> with_settings_spec(
            base,
            other,
            Some(TomlItemView::Integer(n)),
            other,
            other,
        ).max_suggestions == n,
        with_settings_spec(base, other, other, Some(TomlItemView::Boolean(b)), other).case_sensitive
            == b,
        with_settings_spec(base, other, other, other, Some(TomlItemView::Text(t))).history_file
            == t,
        with_settings_spec(base, Some(TomlItemView::Text("prefix"@)), other, other, other).matching
            == MatchingMode::Prefix,
        with_settings_spec(base, Some(TomlItemView::Text("contains"@)), other, other, other).matching
            == MatchingMode::Contains,
        with_settings_spec(base, None, Some(TomlItemView::Integer(n)), None, None).matching
            == base.matching,
        with_settings_spec(base, None, Some(TomlItemView::Integer(n)), None, None).case_sensitive
            == base.case_sensitive,
        with_settings_spec(base, None, Some(TomlItemView::Integer(n)), None, None).history_file
            == base.history_file,
        with_settings_spec(
            base,
            Some(TomlItemView::Text(t)),
            None,
            Some(TomlItemView::Boolean(b)),
            Some(TomlItemView::Text(t)),
        ).max_suggestions == base.max_suggestions,
{
    reveal_strlit("prefix");
    reveal_strlit("contains");
    assert("prefix"@ != "contains"@) by {
        assert("prefix"@[0] != "contains"@[0]);
    }
}

/// `"~"` is the home directory; `"~/" + rest` is `rest` under the home
/// directory — the home directory, then a `'/'` unless it already ends in
/// one, then `rest` — unless `rest` is itself absolute, which it replaces;
/// values not starting with `~`, or with no home directory known, stay.
pub proof fn law_tilde_expansion(h: Seq<char>, rest: Seq<char>, value: Seq<char>)
    ensures
        expanded_path(Some(h), seq!['~']) == h,
        !(rest.len() > 0 && rest[0] == '/') ==> {
            let p = expanded_path(Some(h), seq!['~', '/'] + rest);
            &&& h.is_prefix_of(p)
            &&& p.len() >= rest.len()
            &&& p.skip(p.len() - rest.len()) == rest
            &&& p == (if h.len() > 0 && h.last() != '/' {
                h + seq!['/'] + rest
            } else {
                h + rest
            })
        },
        rest.len() > 0 && rest[0] == '/' ==> expanded_path(Some(h), seq!['~', '/'] + rest) == rest,
        (value.len() == 0 || value[0] != '~') ==> expanded_path(Some(h), value) == value,
        expanded_path(None, value) == value,
{
    let v = seq!['~', '/'] + rest;
    assert(v.take(2) =~= seq!['~', '/']);
    assert(v.skip(2) =~= rest);
    assert(v != seq!['~']) by {
        assert(v.len() != 1);
    }
    let p = expanded_path(Some(h), v);
    if !(rest.len() > 0 && rest[0] == '/') {
        if h.len() > 0 && h.last() != '/' {
            assert((h + seq!['/'] + rest).take(h.len() as int) =~= h);
            assert(p.skip(p.len() - rest.len()) =~= rest);
        } else {
            assert((h + rest).take(h.len() as int) =~= h);
            assert(p.skip(p.len() - rest.len()) =~= rest);
        }
    }
    if value.len() == 0 || value[0] != '~' {
        assert(value != seq!['~']) by {
            if value == seq!['~'] {
                assert(value[0] == '~');
            }
        }
        assert(!seq!['~', '/'].is_prefix_of(value)) by {
            if seq!['~', '/'].is_prefix_of(value) {
                assert(value.take(2)[0] == '~');
            }
        }
    }
}

impl Default for Config {
    fn default() -> (c: Self)
        ensures
            c@ == default_config(),
    {
        let history_file = "~/.zsh_history".to_owned();
        Config { matching: MatchingMode::Prefix, max_suggestions: 10, case_sensitive: false, history_file }
    }
}

/// Whether a value is an empty array or an empty table.
fn is_unit_item(item: &TomlItem) -> (r: bool)
    ensures
        r == is_unit_value(item@),
{
    match item {
        TomlItem::Array(a) => {
            let empty = a.len() == 0;
            assert(empty == (a@.len() == 0));
            empty
        },
        TomlItem::Table(t) => match toml_table_len(t) {
            Some(n) => {
                if n == 0 {
                    proof {
                        toml_entries(*t).dom().lemma_len0_is_empty();
                    }
                    true
                } else {
                    false
                }
            },
            None => true,
        },
        _ => false,
    }
}

/// The mode a variant name stands for.
fn mode_of_text(s: &str) -> (r: Option<MatchingMode>)
    ensures
        r == mode_of_name(s@),
{
    if text_equals(s, "prefix") {
        Some(MatchingMode::Prefix)
    } else if text_equals(s, "contains") {
        Some(MatchingMode::Contains)
    } else {
        None
    }
}

/// A finite set of one element that holds `k` is `{k}`.
proof fn lemma_single_key(s: Set<Seq<char>>, k: Seq<char>)
    requires
        s.finite(),
        s.len() == 1,
        s.contains(k),
    ensures
        s == set![k],
{
    s.remove(k).lemma_len0_is_empty();
    assert(s =~= set![k]) by {
        assert forall|x: Seq<char>| s.contains(x) implies x == k by {
            if x != k {
                assert(s.remove(k).contains(x));
            }
        }
    }
}

/// The variant that a table of one key names (see `mode_named`).
fn mode_of_table(t: &toml::Value) -> (r: Option<MatchingMode>)
    ensures
        r == mode_named(Some(TomlItemView::Table(toml_entries(*t)))),
{
    let ghost m = toml_entries(*t);
    match toml_table_len(t) {
        Some(n) => {
            if n != 1 {
                assert(m.dom() != set!["prefix"@] && m.dom() != set!["contains"@]) by {
                    assert(set!["prefix"@].len() == 1);
                    assert(set!["contains"@].len() == 1);
                }
                return None;
            }
        },
        None => {
            assert(m.dom() != set!["prefix"@] && m.dom() != set!["contains"@]) by {
                assert(set!["prefix"@].finite());
                assert(set!["contains"@].finite());
                assert(set!["prefix"@].len() == 1);
                assert(set!["contains"@].len() == 1);
                if m.dom() == set!["prefix"@] || m.dom() == set!["contains"@] {
                    assert(m.dom().finite());
                }
            }
            return None;
        },
    }
    proof {
        reveal_strlit("prefix");
        reveal_strlit("contains");
        assert("prefix"@ != "contains"@) by {
            assert("prefix"@[0] != "contains"@[0]);
        }
    }
    match toml_get(t, "prefix") {
        Some(inner) => {
            proof {
                lemma_single_key(m.dom(), "prefix"@);
            }
            if is_unit_item(&inner) {
                Some(MatchingMode::Prefix)
            } else {
                assert(m.dom() != set!["contains"@]) by {
                    assert(set!["prefix"@].contains("prefix"@));
                }
                None
            }
        },
        None => match toml_get(t, "contains") {
            Some(inner) => {
                proof {
                    lemma_single_key(m.dom(), "contains"@);
                }
                if is_unit_item(&inner) {
                    Some(MatchingMode::Contains)
                } else {
                    None
                }
            },
            None => {
                assert(m.dom() != set!["prefix"@] && m.dom() != set!["contains"@]) by {
                    assert(set!["prefix"@].contains("prefix"@));
                    assert(set!["contains"@].contains("contains"@));
                }
                None
            },
        },
    }
}

fn mode_of(item: &Option<TomlItem>) -> (r: Option<MatchingMode>)
    ensures
        r == mode_named(match item {
            Some(i) => Some(i@),
            None => None,
        }),
{
    match item {
        Some(TomlItem::Text(s)) => mode_of_text(s.as_str()),
        Some(TomlItem::Table(t)) => mode_of_table(t),
        _ => None,
    }
}

impl Config {
    /// The configuration of the default shell, Zsh (see `load_for_shell`).
    pub fn load(contents: Option<&str>) -> (c: Self)
        ensures
            c@ == loaded_config("zsh"@, optional_view(contents)),
    {
        Self::load_for_shell("zsh", contents)
    }

    /// The configuration of `shell`, given the text of its configuration file
    /// if one could be read.
    pub fn load_for_shell(shell: &str, contents: Option<&str>) -> (c: Self)
        ensures
            c@ == loaded_config(shell@, optional_view(contents)),
    {
        let config = Self::for_shell(shell);
        let Some(text) = contents else {
            return config;
        };
        let Some(table) = parse_toml(text) else {
            return config;
        };
        let matching = toml_get(&table, "matching");
        let max_suggestions = toml_get(&table, "max_suggestions");
        let case_sensitive = toml_get(&table, "case_sensitive");
        let history_file = toml_get(&table, "history_file");
        config.with_settings(matching, max_suggestions, case_sensitive, history_file)
    }

    /// This configuration with the given configuration values applied (see
    /// `with_settings_spec`).
    pub fn with_settings(
        self,
        matching: Option<TomlItem>,
        max_suggestions: Option<TomlItem>,
        case_sensitive: Option<TomlItem>,
        history_file: Option<TomlItem>,
    ) -> (c: Self)
        ensures
            c@ == with_settings_spec(
                self@,
                match matching {
                    Some(i) => Some(i@),
                    None => None,
                },
                match max_suggestions {
                    Some(i) => Some(i@),
                    None => None,
                },
                match case_sensitive {
                    Some(i) => Some(i@),
                    None => None,
                },
                match history_file {
                    Some(i) => Some(i@),
                    None => None,
                },
            ),
    {
        let mut config = self;
        if let Some(mode) = mode_of(&matching) {
            config.matching = mode;
        }
        if let Some(TomlItem::Integer(n)) = max_suggestions {
            if n >= 0 && (n as u64) <= (usize::MAX as u64) {
                config.max_suggestions = n as usize;
            }
        }
        if let Some(TomlItem::Boolean(b)) = case_sensitive {
            config.case_sensitive = b;
        }
        if let Some(TomlItem::Text(s)) = history_file {
            config.history_file = s;
        }
        config
    }

    /// The defaults for `shell` (see `config_for_shell`).
    pub fn for_shell(shell: &str) -> (c: Self)
        ensures
            c@ == config_for_shell(shell@),
    {
        let mut config = Self::default();
        if text_equals(shell, "bash") {
            config.history_file = "~/.bash_history".to_owned();
        }
        config
    }

    /// The history file with a leading `~` resolved against `home`.
    pub fn history_path(&self, home: Option<&str>) -> (p: String)
        ensures
            p@ == expanded_path(optional_view(home), self.history_file@),
    {
        expand_tilde(home, self.history_file.as_str())
    }
}

/// `value` with a leading `~` resolved against `home` (see `expanded_path`).
pub fn expand_tilde(home: Option<&str>, value: &str) -> (p: String)
    ensures
        p@ == expanded_path(optional_view(home), value@),
{
    let Some(home) = home else {
        return value.to_owned();
    };
    let v = chars_of(value);
    if v.len() == 1 && v[0] == '~' {
        assert(value@ =~= seq!['~']);
        return home.to_owned();
    }
    assert(value@ != seq!['~']) by {
        if value@ == seq!['~'] {
            assert(v@.len() == 1 && v@[0] == '~');
        }
    }
    if v.len() >= 2 && v[0] == '~' && v[1] == '/' {
        assert(seq!['~', '/'].is_prefix_of(value@)) by {
            assert(value@.take(2) =~= seq!['~', '/']);
        }
        let h = chars_of(home);
        let mut joined: Vec<char> = Vec::new();
        let rest_absolute = v.len() > 2 && v[2] == '/';
        if !rest_absolute {
            let mut k: usize = 0;
            while k < h.len()
                invariant
                    k <= h.len(),
                    joined@ == h@.take(k as int),
                decreases h.len() - k,
            {
                joined.push(h[k]);
                k = k + 1;
                assert(joined@ =~= h@.take(k as int));
            }
            assert(h@.take(h.len() as int) =~= h@);
            if h.len() > 0 && h[h.len() - 1] != '/' {
                joined.push('/');
            }
        }
        let ghost prefix = joined@;
        let mut k: usize = 2;
        while k < v.len()
            invariant
                2 <= k <= v.len(),
                joined@ == prefix + v@.subrange(2, k as int),
            decreases v.len() - k,
        {
            joined.push(v[k]);
            k = k + 1;
            assert(joined@ =~= prefix + v@.subrange(2, k as int));
        }
        assert(v@.subrange(2, v.len() as int) =~= value@.skip(2));
        proof {
            let rest = value@.skip(2);
            if rest_absolute {
                assert(prefix =~= Seq::<char>::empty());
                assert(joined@ =~= rest);
            } else if h@.len() > 0 && h@.last() != '/' {
                assert(prefix =~= home@ + seq!['/']);
            } else {
                assert(prefix =~= home@);
            }
        }
        return string_of(&joined);
    }
    assert(!seq!['~', '/'].is_prefix_of(value@)) by {
        if seq!['~', '/'].is_prefix_of(value@) {
            assert(value@.take(2)[0] == '~');
            assert(value@.take(2)[1] == '/');
        }
    }
    value.to_owned()
}

} // verus!
