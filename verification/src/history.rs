//! Shell-independent history representation and the line format that Zsh
//! (with or without `EXTENDED_HISTORY`) and Bash write.

use vstd::prelude::*;

use crate::matching::string_views;
use crate::text::{chars_of, string_of, text_equals};

verus! {

broadcast use vstd::string::group_string_axioms;

/// History entries, oldest first.
#[derive(Debug, Clone, PartialEq, Eq)]
pub struct History {
    entries: Vec<String>,
}

/// `s` with every element equal to `t` taken out, order kept.
pub open spec fn remove_every(s: Seq<Seq<char>>, t: Seq<char>) -> Seq<Seq<char>>
    decreases s.len(),
{
    if s.len() == 0 {
        seq![]
    } else {
        let rest = remove_every(s.drop_last(), t);
        if s.last() == t {
            rest
        } else {
            rest.push(s.last())
        }
    }
}

/// What follows the first occurrence of `c` in `s`, if `c` occurs.
pub open spec fn after_first(s: Seq<char>, c: char) -> Option<Seq<char>>
    decreases s.len(),
{
    if s.len() == 0 {
        None
    } else if s[0] == c {
        Some(s.drop_first())
    } else {
        after_first(s.drop_first(), c)
    }
}

/// The command a history line holds: for a line that starts with `": "`
/// (the extended format `: timestamp:duration;command`), what follows the
/// first `;`; for any other line, the line itself. Empty commands, and
/// extended lines without `;`, hold none.
pub open spec fn line_command(line: Seq<char>) -> Option<Seq<char>> {
    let command = if seq![':', ' '].is_prefix_of(line) {
        after_first(line, ';')
    } else {
        Some(line)
    };
    match command {
        Some(c) => if c.len() > 0 {
            Some(c)
        } else {
            None
        },
        None => None,
    }
}

/// A line without the `'\r'` that ends it, if one does.
pub open spec fn strip_cr(line: Seq<char>) -> Seq<char> {
    if line.len() > 0 && line.last() == '\r' {
        line.drop_last()
    } else {
        line
    }
}

/// The lines of `s`, given the characters `current` already read of the
/// line in progress: a line ends at `'\n'` (a `'\r'` just before it is
/// dropped); text after the last `'\n'` forms a last line if non-empty.
pub open spec fn lines_from(s: Seq<char>, current: Seq<char>) -> Seq<Seq<char>>
    decreases s.len(),
{
    if s.len() == 0 {
        if current.len() == 0 {
            seq![]
        } else {
            seq![current]
        }
    } else if s[0] == '\n' {
        seq![strip_cr(current)] + lines_from(s.drop_first(), seq![])
    } else {
        lines_from(s.drop_first(), current.push(s[0]))
    }
}

/// The lines of a text.
pub open spec fn lines_of(s: Seq<char>) -> Seq<Seq<char>> {
    lines_from(s, seq![])
}

/// The commands that a sequence of lines holds, in order.
pub open spec fn commands_of(lines: Seq<Seq<char>>) -> Seq<Seq<char>>
    decreases lines.len(),
{
    if lines.len() == 0 {
        seq![]
    } else {
        let rest = commands_of(lines.drop_last());
        match line_command(lines.last()) {
            Some(c) => rest.push(c),
            None => rest,
        }
    }
}

/// The history a file's text holds.
pub open spec fn history_of(contents: Seq<char>) -> Seq<Seq<char>> {
    commands_of(lines_of(contents))
}

proof fn lemma_commands_of_push(lines: Seq<Seq<char>>, line: Seq<char>)
    ensures
        commands_of(lines.push(line)) == match line_command(line) {
            Some(c) => commands_of(lines).push(c),
            None => commands_of(lines),
        },
{
    assert(lines.push(line).drop_last() =~= lines);
}

/// After removing `t`, no entry equals `t`; every remaining entry was there
/// before; every other entry stays; and removing `t` again changes nothing.
pub proof fn law_remove_all(s: Seq<Seq<char>>, t: Seq<char>)
    ensures
        !remove_every(s, t).contains(t),
        forall|e: Seq<char>| #[trigger] remove_every(s, t).contains(e) ==> s.contains(e),
        forall|e: Seq<char>| #[trigger] s.contains(e) && e != t ==> remove_every(s, t).contains(e),
        remove_every(remove_every(s, t), t) == remove_every(s, t),
    decreases s.len(),
{
    if s.len() > 0 {
        let rest = remove_every(s.drop_last(), t);
        law_remove_all(s.drop_last(), t);
        assert forall|e: Seq<char>| #[trigger] remove_every(s, t).contains(e) implies s.contains(
            e,
        ) by {
            if rest.contains(e) {
                let j = choose|j: int| 0 <= j < s.drop_last().len() && s.drop_last()[j] == e;
                assert(s[j] == e);
            } else {
                assert(s[s.len() - 1] == e);
            }
        }
        assert forall|e: Seq<char>| #[trigger] s.contains(e) && e != t implies remove_every(
            s,
            t,
        ).contains(e) by {
            let j = choose|j: int| 0 <= j < s.len() && s[j] == e;
            if j < s.len() - 1 {
                assert(s.drop_last()[j] == e);
                assert(s.drop_last().contains(e));
                let k = choose|k: int| 0 <= k < rest.len() && rest[k] == e;
                if s.last() != t {
                    assert(rest.push(s.last())[k] == e);
                }
            } else {
                assert(rest.push(s.last())[rest.len() as int] == e);
            }
        }
        if s.last() != t {
            let r = rest.push(s.last());
            assert(r.drop_last() =~= rest);
            assert(!r.contains(t)) by {
                if r.contains(t) {
                    let k = choose|k: int| 0 <= k < r.len() && r[k] == t;
                    if k < rest.len() {
                        assert(rest[k] == t);
                    }
                }
            }
        }
    }
}

/// No line holds a `'\n'` when the line in progress holds none.
proof fn lemma_lines_have_no_newline(s: Seq<char>, current: Seq<char>)
    requires
        !current.contains('\n'),
    ensures
        forall|k: int|
            0 <= k < lines_from(s, current).len() ==> !(#[trigger] lines_from(s, current)[k]).contains(
                '\n',
            ),
    decreases s.len(),
{
    if s.len() > 0 {
        if s[0] == '\n' {
            lemma_lines_have_no_newline(s.drop_first(), seq![]);
            let first = strip_cr(current);
            assert(!first.contains('\n')) by {
                if first.contains('\n') {
                    let j = choose|j: int| 0 <= j < first.len() && first[j] == '\n';
                    assert(current[j] == '\n');
                }
            }
            let l = lines_from(s, current);
            let r = lines_from(s.drop_first(), seq![]);
            assert forall|k: int| 0 <= k < l.len() implies !(#[trigger] l[k]).contains('\n') by {
                if k > 0 {
                    assert(l[k] == r[k - 1]);
                } else {
                    assert(l[0] == first);
                }
            }
        } else {
            let c = current.push(s[0]);
            assert(!c.contains('\n')) by {
                if c.contains('\n') {
                    let j = choose|j: int| 0 <= j < c.len() && c[j] == '\n';
                    if j < current.len() {
                        assert(current[j] == '\n');
                    }
                }
            }
            lemma_lines_have_no_newline(s.drop_first(), c);
            assert(lines_from(s, current) == lines_from(s.drop_first(), c));
        }
    } else if current.len() > 0 {
        assert(lines_from(s, current) =~= seq![current]);
    } else {
        assert(lines_from(s, current) =~= Seq::<Seq<char>>::empty());
    }
}

/// The command of a line is part of the line: a suffix of it.
proof fn lemma_after_first_suffix(s: Seq<char>, c: char)
    ensures
        after_first(s, c) matches Some(r) ==> r.len() <= s.len() && r =~= s.skip(
            s.len() - r.len(),
        ),
    decreases s.len(),
{
    if s.len() > 0 && s[0] != c {
        lemma_after_first_suffix(s.drop_first(), c);
    }
}

/// Every command of a line is non-empty and holds no `'\n'` when the line
/// holds none.
proof fn lemma_line_command_shape(line: Seq<char>)
    requires
        !line.contains('\n'),
    ensures
        line_command(line) matches Some(c) ==> c.len() > 0 && !c.contains('\n'),
{
    lemma_after_first_suffix(line, ';');
    if let Some(c) = line_command(line) {
        assert(!c.contains('\n')) by {
            if c.contains('\n') {
                let j = choose|j: int| 0 <= j < c.len() && c[j] == '\n';
                assert(line[line.len() - c.len() + j] == '\n');
            }
        }
    }
}

proof fn lemma_commands_shape(lines: Seq<Seq<char>>)
    requires
        forall|k: int| 0 <= k < lines.len() ==> !(#[trigger] lines[k]).contains('\n'),
    ensures
        forall|k: int|
            0 <= k < commands_of(lines).len() ==> (#[trigger] commands_of(lines)[k]).len() > 0
                && !commands_of(lines)[k].contains('\n'),
    decreases lines.len(),
{
    if lines.len() > 0 {
        let init = lines.drop_last();
        assert forall|k: int| 0 <= k < init.len() implies !(#[trigger] init[k]).contains('\n') by {
            assert(init[k] == lines[k]);
        }
        lemma_commands_shape(init);
        lemma_line_command_shape(lines.last());
        let c = commands_of(lines);
        let r = commands_of(init);
        assert forall|k: int| 0 <= k < c.len() implies (#[trigger] c[k]).len() > 0 && !c[k].contains(
            '\n',
        ) by {
            if k < r.len() {
                assert(c[k] == r[k]);
            }
        }
    }
}

/// A parsed history holds one non-empty command per entry, none of which
/// spans a line break.
pub proof fn law_parsed_entries_are_single_commands(contents: Seq<char>)
    ensures
        forall|k: int|
            0 <= k < history_of(contents).len() ==> (#[trigger] history_of(contents)[k]).len() > 0
                && !history_of(contents)[k].contains('\n'),
{
    lemma_lines_have_no_newline(contents, seq![]);
    lemma_commands_shape(lines_of(contents));
}

/// What follows the first `c` of `p + [c] + rest`, when `p` holds no `c`.
proof fn lemma_after_first_split(p: Seq<char>, c: char, rest: Seq<char>)
    requires
        !p.contains(c),
    ensures
        after_first(p + seq![c] + rest, c) == Some(rest),
    decreases p.len(),
{
    let s = p + seq![c] + rest;
    if p.len() == 0 {
        assert(s[0] == c);
        assert(s.drop_first() =~= rest);
    } else {
        assert(s[0] == p[0]);
        assert(p[0] != c);
        assert(!p.drop_first().contains(c)) by {
            if p.drop_first().contains(c) {
                let j = choose|j: int| 0 <= j < p.drop_first().len() && p.drop_first()[j] == c;
                assert(p[j + 1] == c);
            }
        }
        assert(s.drop_first() =~= p.drop_first() + seq![c] + rest);
        lemma_after_first_split(p.drop_first(), c, rest);
    }
}

/// A Zsh extended line `": " + header + ";" + command`, with a header (the
/// timestamp and duration) holding no `';'`, holds exactly `command` when it
/// is non-empty, whatever the header says, and nothing when it is empty. A
/// line that does not start with `": "` holds itself when non-empty.
pub proof fn law_line_commands(header: Seq<char>, command: Seq<char>, plain: Seq<char>)
    requires
        !header.contains(';'),
    ensures
        line_command(seq![':', ' '] + header + seq![';'] + command) == (if command.len() > 0 {
            Some(command)
        } else {
            None
        }),
        !seq![':', ' '].is_prefix_of(plain) && plain.len() > 0 ==> line_command(plain) == Some(
            plain,
        ),
{
    let p = seq![':', ' '] + header;
    assert(!p.contains(';')) by {
        if p.contains(';') {
            let j = choose|j: int| 0 <= j < p.len() && p[j] == ';';
            if j >= 2 {
                assert(header[j - 2] == ';');
            }
        }
    }
    lemma_after_first_split(p, ';', command);
    let line = p + seq![';'] + command;
    assert(line.take(2) =~= seq![':', ' ']);
    assert(seq![':', ' '].is_prefix_of(line));
}

/// The commands a line holds, as a sequence of zero or one.
pub open spec fn command_seq(line: Seq<char>) -> Seq<Seq<char>> {
    match line_command(line) {
        Some(c) => seq![c],
        None => seq![],
    }
}

/// Reading a line up to its `'\n'`: the line (less a final `'\r'`) comes
/// first, then the lines after it.
proof fn lemma_lines_first_line(p: Seq<char>, current: Seq<char>, rest: Seq<char>)
    requires
        !p.contains('\n'),
    ensures
        lines_from(p + seq!['\n'] + rest, current) == seq![strip_cr(current + p)] + lines_of(rest),
    decreases p.len(),
{
    let s = p + seq!['\n'] + rest;
    if p.len() == 0 {
        assert(s[0] == '\n');
        assert(s.drop_first() =~= rest);
        assert(current + p =~= current);
    } else {
        assert(s[0] == p[0]);
        assert(p[0] != '\n');
        assert(!p.drop_first().contains('\n')) by {
            if p.drop_first().contains('\n') {
                let j = choose|j: int| 0 <= j < p.drop_first().len() && p.drop_first()[j] == '\n';
                assert(p[j + 1] == '\n');
            }
        }
        assert(s.drop_first() =~= p.drop_first() + seq!['\n'] + rest);
        lemma_lines_first_line(p.drop_first(), current.push(p[0]), rest);
        assert(current.push(p[0]) + p.drop_first() =~= current + p);
    }
}

/// Text without a `'\n'` is one line, if it is not empty.
proof fn lemma_lines_last_line(p: Seq<char>, current: Seq<char>)
    requires
        !p.contains('\n'),
    ensures
        lines_from(p, current) == (if (current + p).len() == 0 {
            Seq::<Seq<char>>::empty()
        } else {
            seq![current + p]
        }),
    decreases p.len(),
{
    if p.len() == 0 {
        assert(current + p =~= current);
    } else {
        assert(p[0] != '\n');
        assert(!p.drop_first().contains('\n')) by {
            if p.drop_first().contains('\n') {
                let j = choose|j: int| 0 <= j < p.drop_first().len() && p.drop_first()[j] == '\n';
                assert(p[j + 1] == '\n');
            }
        }
        lemma_lines_last_line(p.drop_first(), current.push(p[0]));
        assert(current.push(p[0]) + p.drop_first() =~= current + p);
    }
}

/// The commands of a first line followed by more lines.
proof fn lemma_commands_of_prepend(line: Seq<char>, lines: Seq<Seq<char>>)
    ensures
        commands_of(seq![line] + lines) == command_seq(line) + commands_of(lines),
    decreases lines.len(),
{
    if lines.len() == 0 {
        assert(seq![line] + lines =~= seq![line]);
        assert(seq![line].drop_last() =~= Seq::<Seq<char>>::empty());
        assert(commands_of(Seq::<Seq<char>>::empty()) == Seq::<Seq<char>>::empty());
        assert(seq![line].last() == line);
        match line_command(line) {
            Some(c) => {
                assert(Seq::<Seq<char>>::empty().push(c) =~= seq![c]);
            },
            None => {},
        }
        assert(command_seq(line) + Seq::<Seq<char>>::empty() =~= command_seq(line));
    } else {
        lemma_commands_of_prepend(line, lines.drop_last());
        assert((seq![line] + lines).drop_last() =~= seq![line] + lines.drop_last());
        assert((seq![line] + lines).last() == lines.last());
        match line_command(lines.last()) {
            Some(c) => {
                assert(command_seq(line) + commands_of(lines.drop_last()).push(c) =~= (command_seq(
                    line,
                ) + commands_of(lines.drop_last())).push(c));
            },
            None => {},
        }
    }
}

/// A history file is read line by line: a first line (less a `'\r'` before
/// its `'\n'`) gives its command ahead of the commands of the rest, and a
/// last line without `'\n'` gives its command too.
pub proof fn law_history_line_by_line(line: Seq<char>, rest: Seq<char>)
    requires
        !line.contains('\n'),
    ensures
        history_of(line + seq!['\n'] + rest) == command_seq(strip_cr(line)) + history_of(rest),
        history_of(line) == command_seq(line),
{
    lemma_lines_first_line(line, seq![], line.subrange(0, 0) + rest.subrange(0, 0) + rest);
    assert(line.subrange(0, 0) + rest.subrange(0, 0) + rest =~= rest);
    assert(Seq::<char>::empty() + line =~= line);
    lemma_commands_of_prepend(strip_cr(line), lines_of(rest));
    lemma_lines_last_line(line, seq![]);
    if line.len() == 0 {
        assert(line_command(line) is None);
        assert(lines_of(line) =~= Seq::<Seq<char>>::empty());
        assert(command_seq(line) =~= Seq::<Seq<char>>::empty());
    } else {
        assert(lines_of(line) =~= seq![line]);
        lemma_commands_of_prepend(line, Seq::<Seq<char>>::empty());
        assert(seq![line] + Seq::<Seq<char>>::empty() =~= seq![line]);
        assert(command_seq(line) + commands_of(Seq::<Seq<char>>::empty()) =~= command_seq(line));
    }
}

/// Removing `t` keeps exactly the entries that differ from `t`, in their
/// order and with their repeats: each other command keeps its count, `t`
/// has none left.
pub proof fn law_remove_all_keeps_the_rest(s: Seq<Seq<char>>, t: Seq<char>)
    ensures
        remove_every(s, t) == s.filter(|e: Seq<char>| e != t),
        forall|e: Seq<char>|
            #[trigger] remove_every(s, t).to_multiset().count(e) == if e == t {
                0
            } else {
                s.to_multiset().count(e)
            },
    decreases s.len(),
{
    broadcast use vstd::seq_lib::group_to_multiset_ensures;

    reveal(Seq::filter);
    if s.len() == 0 {
        assert(remove_every(s, t).to_multiset() =~= s.to_multiset());
    } else {
        let init = s.drop_last();
        law_remove_all_keeps_the_rest(init, t);
        assert(s =~= init.push(s.last()));
        let r = remove_every(s, t);
        assert forall|e: Seq<char>| #[trigger] r.to_multiset().count(e) == if e == t {
            0
        } else {
            s.to_multiset().count(e)
        } by {
            assert(s.to_multiset() =~= init.to_multiset().insert(s.last()));
            if s.last() != t {
                assert(r.to_multiset() =~= remove_every(init, t).to_multiset().insert(s.last()));
            }
        }
    }
}

impl View for History {
    type V = Seq<Seq<char>>;

    closed spec fn view(&self) -> Seq<Seq<char>> {
        string_views(self.entries@)
    }
}

impl Default for History {
    fn default() -> (h: Self)
        ensures
            h@ == Seq::<Seq<char>>::empty(),
    {
        let h = History { entries: Vec::new() };
        assert(h@ =~= Seq::<Seq<char>>::empty());
        h
    }
}

impl History {
    pub fn new(entries: Vec<String>) -> (h: Self)
        ensures
            h@ == string_views(entries@),
    {
        History { entries }
    }

    pub fn entries(&self) -> (r: &[String])
        ensures
            string_views(r@) == self@,
    {
        self.entries.as_slice()
    }

    /// Removes every entry equal to `target`, keeping the others in order.
    pub fn remove_all(&mut self, target: &str)
        ensures
            final(self)@ == remove_every(old(self)@, target@),
    {
        let ghost before = self@;
        let mut kept: Vec<String> = Vec::new();
        let n = self.entries.len();
        let mut i: usize = 0;
        while i < n
            invariant
                i <= n,
                n == self.entries@.len(),
                before == string_views(self.entries@),
                string_views(kept@) == remove_every(before.take(i as int), target@),
            decreases n - i,
        {
            let ghost prev = kept@;
            if !text_equals(self.entries[i].as_str(), target) {
                kept.push(self.entries[i].clone());
                assert(string_views(kept@) =~= string_views(prev).push(before[i as int]));
            }
            assert(before.take(i + 1).drop_last() =~= before.take(i as int));
            i = i + 1;
        }
        assert(before.take(n as int) =~= before);
        self.entries = kept;
    }
}

/// The position just after the first `';'` of `v`, if there is one.
fn find_after_semicolon(v: &Vec<char>) -> (r: Option<usize>)
    ensures
        match r {
            Some(k) => 0 < k <= v.len() && after_first(v@, ';') == Some(v@.skip(k as int)),
            None => after_first(v@, ';') is None,
        },
{
    let mut k: usize = 0;
    assert(v@.skip(0) =~= v@);
    while k < v.len()
        invariant
            k <= v.len(),
            after_first(v@, ';') == after_first(v@.skip(k as int), ';'),
        decreases v.len() - k,
    {
        assert(v@.skip(k as int).drop_first() =~= v@.skip(k + 1));
        if v[k] == ';' {
            return Some(k + 1);
        }
        k = k + 1;
    }
    None
}

/// The command a history line holds (see `line_command`).
pub fn parse_line(line: &str) -> (r: Option<&str>)
    ensures
        match r {
            Some(c) => line_command(line@) == Some(c@),
            None => line_command(line@) is None,
        },
{
    let v = chars_of(line);
    let n = v.len();
    if n >= 2 && v[0] == ':' && v[1] == ' ' {
        assert(seq![':', ' '].is_prefix_of(line@)) by {
            assert(line@.take(2) =~= seq![':', ' ']);
        }
        match find_after_semicolon(&v) {
            Some(k) => {
                if k == n {
                    None
                } else {
                    let command = line.substring_char(k, n);
                    assert(command@ =~= line@.skip(k as int));
                    Some(command)
                }
            },
            None => None,
        }
    } else {
        assert(!seq![':', ' '].is_prefix_of(line@)) by {
            if seq![':', ' '].is_prefix_of(line@) {
                assert(line@.take(2)[0] == ':');
                assert(line@.take(2)[1] == ' ');
            }
        }
        if n == 0 {
            None
        } else {
            Some(line)
        }
    }
}

/// Adds the command of one finished line, if it holds one.
fn push_command(out: &mut Vec<String>, line: &Vec<char>)
    ensures
        string_views(final(out)@) == match line_command(line@) {
            Some(c) => string_views(old(out)@).push(c),
            None => string_views(old(out)@),
        },
{
    let text = string_of(line);
    let ghost before = out@;
    match parse_line(text.as_str()) {
        Some(command) => {
            out.push(command.to_owned());
            assert(string_views(out@) =~= string_views(before).push(command@));
        },
        None => {},
    }
}

/// The history that the text of a history file holds: one command per line,
/// oldest first.
pub fn parse_history(contents: &str) -> (h: History)
    ensures
        h@ == history_of(contents@),
{
    let s = chars_of(contents);
    let n = s.len();
    let mut out: Vec<String> = Vec::new();
    let mut current: Vec<char> = Vec::new();
    let ghost mut done: Seq<Seq<char>> = seq![];
    let mut i: usize = 0;
    assert(s@.skip(0) =~= s@);
    assert(current@ =~= Seq::<char>::empty());
    assert(done + lines_from(s@, current@) =~= lines_from(s@, current@));
    while i < n
        invariant
            i <= n,
            n == s@.len(),
            s@ == contents@,
            lines_of(s@) == done + lines_from(s@.skip(i as int), current@),
            string_views(out@) == commands_of(done),
        decreases n - i,
    {
        let c = s[i];
        assert(s@.skip(i as int).drop_first() =~= s@.skip(i + 1));
        assert(s@.skip(i as int)[0] == c);
        if c == '\n' {
            let mut line = current;
            if line.len() > 0 && line[line.len() - 1] == '\r' {
                line.pop();
            }
            assert(line@ == strip_cr(current@));
            push_command(&mut out, &line);
            proof {
                lemma_commands_of_push(done, line@);
                assert(done + lines_from(s@.skip(i as int), current@) =~= done.push(line@)
                    + lines_from(s@.skip(i + 1), seq![]));
                done = done.push(line@);
            }
            current = Vec::new();
            assert(current@ =~= Seq::<char>::empty());
        } else {
            current.push(c);
        }
        i = i + 1;
    }
    assert(s@.skip(n as int) =~= Seq::<char>::empty());
    if current.len() > 0 {
        push_command(&mut out, &current);
        proof {
            lemma_commands_of_push(done, current@);
            assert(done + seq![current@] =~= done.push(current@));
        }
    } else {
        assert(done + Seq::<Seq<char>>::empty() =~= done);
    }
    History { entries: out }
}

} // verus!
