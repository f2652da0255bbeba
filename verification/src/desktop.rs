//! Freedesktop `.desktop` entries.
//!
//! Scanning the XDG data directories is the application's job; what an
//! entry's text means, and how its `Exec=` line becomes a command, is decided
//! here.
use vstd::prelude::*;
use crate::lists::{index_of, keep, lemma_index_of, lemma_index_prefix};
use crate::paths::{file_stem, file_stem_exec, split_all, split_all_vec};
use crate::text::{
    contains_char, lex_less, seq_eq, split_once, str_less, split_once_vec, strings, strip_prefix, strip_prefix_vec,
    chars_of, concat, contains, contains_vec, is_whitespace, is_ws, slice_of, starts_with, string_of,
    trim, trim_start, trim_vec,
};

verus! {

/// A single `Desktop Action` group, surfaced in the right-click menu.
#[derive(Debug)]
pub struct Action {
    pub id: String,
    pub name: String,
    pub exec_line: String,
}

impl Clone for Action {
    fn clone(&self) -> (r: Self)
        ensures
            r == *self,
    {
        Action { id: self.id.clone(), name: self.name.clone(), exec_line: self.exec_line.clone() }
    }
}

/// A desktop action by its characters.
pub struct ActionView {
    pub id: Seq<char>,
    pub name: Seq<char>,
    pub exec_line: Seq<char>,
}

pub open spec fn action_view(a: Action) -> ActionView {
    ActionView { id: a.id@, name: a.name@, exec_line: a.exec_line@ }
}

pub open spec fn actions_view(s: Seq<Action>) -> Seq<ActionView> {
    s.map_values(|a: Action| action_view(a))
}

#[derive(Debug)]
pub struct Entry {
    /// Desktop id without the `.desktop` suffix, e.g. `org.gnome.Nautilus`.
    pub id: String,
    pub name: String,
    pub icon: String,
    pub exec_line: String,
    /// `StartupWMClass`, when the app declares one.
    pub wm_class: Option<String>,
    pub no_display: bool,
    pub terminal: bool,
    pub actions: Vec<Action>,
    pub path: String,
}

/// Field codes a launcher substitutes: `%f %F %u %U %i %c %k` and the
/// deprecated `%d %D %n %N %v %m`.
pub open spec fn is_field_code(c: char) -> bool {
    c == 'f' || c == 'F' || c == 'u' || c == 'U' || c == 'i' || c == 'c' || c == 'k' || c == 'd'
        || c == 'D' || c == 'n' || c == 'N' || c == 'v' || c == 'm'
}

/// `s` with field codes removed and `%%` turned into `%`, before trimming.
pub open spec fn without_field_codes(s: Seq<char>) -> Seq<char>
    decreases s.len(),
{
    if s.len() == 0 {
        s
    } else if s[0] == '%' && s.len() >= 2 && s[1] == '%' {
        seq!['%'] + without_field_codes(s.subrange(2, s.len() as int))
    } else if s[0] == '%' && s.len() >= 2 && is_field_code(s[1]) {
        without_field_codes(s.subrange(2, s.len() as int))
    } else {
        seq![s[0]] + without_field_codes(s.subrange(1, s.len() as int))
    }
}

/// The command an `Exec=` value runs, with field codes stripped.
///
/// `%f %F %u %U …` are launcher placeholders, not arguments; passing them
/// through makes apps open files literally named "%U".
pub open spec fn command_of(exec: Seq<char>) -> Seq<char> {
    trim(without_field_codes(exec))
}

pub fn strip_field_codes(exec: &str) -> (r: String)
    ensures
        r@ == command_of(exec@),
{
    let s = chars_of(exec);
    let mut out: Vec<char> = Vec::new();
    let mut i: usize = 0;
    assert(s@.subrange(0, s.len() as int) =~= s@);
    while i < s.len()
        invariant
            i <= s.len(),
            out@ + without_field_codes(s@.subrange(i as int, s.len() as int)) == without_field_codes(
                s@,
            ),
        decreases s.len() - i,
    {
        let ghost rest = s@.subrange(i as int, s.len() as int);
        let c = s[i];
        if c == '%' && i + 1 < s.len() && s[i + 1] == '%' {
            assert(rest.subrange(2, rest.len() as int) =~= s@.subrange(i + 2, s.len() as int));
            assert(out@ + (seq!['%'] + without_field_codes(rest.subrange(2, rest.len() as int)))
                =~= out@.push('%') + without_field_codes(s@.subrange(i + 2, s.len() as int)));
            out.push('%');
            i = i + 2;
        } else if c == '%' && i + 1 < s.len() && is_code(s[i + 1]) {
            assert(rest.subrange(2, rest.len() as int) =~= s@.subrange(i + 2, s.len() as int));
            i = i + 2;
        } else {
            assert(rest.subrange(1, rest.len() as int) =~= s@.subrange(i + 1, s.len() as int));
            assert(out@ + (seq![c] + without_field_codes(rest.subrange(1, rest.len() as int)))
                =~= out@.push(c) + without_field_codes(s@.subrange(i + 1, s.len() as int)));
            out.push(c);
            i = i + 1;
        }
    }
    assert(s@.subrange(i as int, s.len() as int) =~= Seq::<char>::empty());
    assert(out@ + Seq::<char>::empty() =~= out@);
    string_of(&trim_vec(&out))
}

fn is_code(c: char) -> (r: bool)
    ensures
        r == is_field_code(c),
{
    c == 'f' || c == 'F' || c == 'u' || c == 'U' || c == 'i' || c == 'c' || c == 'k' || c == 'd'
        || c == 'D' || c == 'n' || c == 'N' || c == 'v' || c == 'm'
}

impl Entry {
    /// The command to run, with field codes stripped.
    pub fn command(&self) -> (r: String)
        ensures
            r@ == command_of(self.exec_line@),
    {
        strip_field_codes(self.exec_line.as_str())
    }
}

/// A `StartupWMClass` value, or `None` when it cannot be a real window class.
///
/// Arch's `chromium.desktop` ships `StartupWMClass=@@startup_wm_class` — an
/// unsubstituted build template — so the key is validated rather than
/// trusted.
pub open spec fn sane_wm_class_of(value: Seq<char>) -> Option<Seq<char>> {
    let v = trim(value);
    let bogus = v.len() == 0 || contains(v, "@@"@) || contains(v, "${"@) || starts_with(v, "@"@)
        || exists|i: int| 0 <= i < v.len() && is_ws(v[i]);
    if bogus {
        None
    } else {
        Some(v)
    }
}

pub fn sane_wm_class(value: &str) -> (r: Option<String>)
    ensures
        match r {
            Some(s) => sane_wm_class_of(value@) == Some(s@),
            None => sane_wm_class_of(value@) is None,
        },
{
    let v = trim_vec(&chars_of(value));
    let mut has_ws = false;
    let mut i: usize = 0;
    while i < v.len()
        invariant
            i <= v.len(),
            has_ws == exists|j: int| 0 <= j < i && is_ws(v@[j]),
        decreases v.len() - i,
    {
        if is_whitespace(v[i]) {
            has_ws = true;
        }
        i = i + 1;
    }
    let bogus = v.len() == 0 || contains_vec(&v, &chars_of("@@")) || contains_vec(
        &v,
        &chars_of("${"),
    ) || (v.len() > 0 && v[0] == '@') || has_ws;
    proof {
        reveal_strlit("@");
        let at = "@"@;
        assert(at.len() == 1 && at[0] == '@');
        if v@.len() > 0 {
            assert(v@.subrange(0, 1)[0] == v@[0]);
            if v@[0] == '@' {
                assert(v@.subrange(0, 1) =~= at);
            }
        }
    }
    if bogus {
        None
    } else {
        Some(string_of(&v))
    }
}


// ── the file format ─────────────────────────────────────────────────────────

/// The group of a desktop file that the lines being read belong to.
pub enum Section {
    /// `[Desktop Entry]`.
    Main,
    /// `[Desktop Action …]`: the action at this position.
    Action(int),
    /// Any other group, whose keys are ignored.
    Other,
}

/// What has been read of a desktop file so far.
pub struct ParsedView {
    pub name: Seq<char>,
    pub icon: Seq<char>,
    pub exec_line: Seq<char>,
    pub wm_class: Option<Seq<char>>,
    pub no_display: bool,
    pub terminal: bool,
    pub actions: Seq<ActionView>,
    pub section: Section,
    /// The ids listed by `Actions=`.
    pub ids: Seq<Seq<char>>,
}

pub open spec fn nothing_read() -> ParsedView {
    ParsedView {
        name: Seq::empty(),
        icon: Seq::empty(),
        exec_line: Seq::empty(),
        wm_class: None,
        no_display: false,
        terminal: false,
        actions: Seq::empty(),
        section: Section::Other,
        ids: Seq::empty(),
    }
}

pub open spec fn is_header(line: Seq<char>) -> bool {
    line.len() >= 2 && line[0] == '[' && line[line.len() - 1] == ']'
}

/// The predicate "this string is not empty".
pub open spec fn nonempty() -> spec_fn(Seq<char>) -> bool {
    |s: Seq<char>| s.len() > 0
}

/// `key=value` applied to what has been read, in the current group.
pub open spec fn apply_key(p: ParsedView, key: Seq<char>, value: Seq<char>) -> ParsedView {
    match p.section {
        Section::Main => if key == "Name"@ {
            ParsedView { name: value, ..p }
        } else if key == "Icon"@ {
            ParsedView { icon: value, ..p }
        } else if key == "Exec"@ {
            ParsedView { exec_line: value, ..p }
        } else if key == "StartupWMClass"@ {
            ParsedView { wm_class: sane_wm_class_of(value), ..p }
        } else if key == "NoDisplay"@ || key == "Hidden"@ {
            ParsedView { no_display: p.no_display || value == "true"@, ..p }
        } else if key == "Terminal"@ {
            ParsedView { terminal: value == "true"@, ..p }
        } else if key == "Actions"@ {
            ParsedView { ids: keep(split_all(value, ';'), nonempty()), ..p }
        } else {
            p
        },
        Section::Action(i) => if key == "Name"@ {
            ParsedView { actions: p.actions.update(i, ActionView { name: value, ..p.actions[i] }), ..p }
        } else if key == "Exec"@ {
            ParsedView {
                actions: p.actions.update(i, ActionView { exec_line: value, ..p.actions[i] }),
                ..p
            }
        } else {
            p
        },
        Section::Other => p,
    }
}

/// One line of a desktop file applied to what has been read. Blank lines and
/// `#` comments change nothing; a `[group]` header switches group, and a
/// `Desktop Action` header opens a new action named after its id; localised
/// keys such as `Name[de]` are skipped.
pub open spec fn read_line(p: ParsedView, raw: Seq<char>) -> ParsedView {
    let line = trim(raw);
    if line.len() == 0 || line[0] == '#' {
        p
    } else if is_header(line) {
        let header = line.subrange(1, line.len() - 1);
        if header == "Desktop Entry"@ {
            ParsedView { section: Section::Main, ..p }
        } else {
            match strip_prefix(header, "Desktop Action "@) {
                Some(id) => ParsedView {
                    actions: p.actions.push(ActionView { id, name: id, exec_line: Seq::empty() }),
                    section: Section::Action(p.actions.len() as int),
                    ..p
                },
                None => ParsedView { section: Section::Other, ..p },
            }
        }
    } else {
        match split_once(line, "="@) {
            Some((k, v)) => if trim(k).contains('[') {
                p
            } else {
                apply_key(p, trim(k), trim(v))
            },
            None => p,
        }
    }
}

pub open spec fn read_lines(lines: Seq<Seq<char>>) -> ParsedView
    decreases lines.len(),
{
    if lines.len() == 0 {
        nothing_read()
    } else {
        read_line(read_lines(lines.drop_last()), lines.last())
    }
}

/// The predicate "this action is the one `ids` lists at position `k`".
pub open spec fn listed_at(ids: Seq<Seq<char>>, k: int) -> spec_fn(ActionView) -> bool {
    |a: ActionView| index_of(ids, a.id) == Some(k)
}

/// The actions listed at the first `k` positions of `ids`, in that order.
pub open spec fn listed(actions: Seq<ActionView>, ids: Seq<Seq<char>>, k: nat) -> Seq<ActionView>
    decreases k,
{
    if k == 0 {
        Seq::empty()
    } else {
        listed(actions, ids, (k - 1) as nat) + keep(actions, listed_at(ids, k - 1))
    }
}

/// Only the actions an entry advertises in `Actions=`, in the order it lists
/// them; none when it lists none.
pub open spec fn advertised(actions: Seq<ActionView>, ids: Seq<Seq<char>>) -> Seq<ActionView> {
    listed(actions, ids, ids.len())
}

/// What a desktop file's text says. Lines are split at `\n`; a trailing
/// `\r` is trimmed with the rest of the line's whitespace.
pub open spec fn parsed_text(text: Seq<char>) -> ParsedView {
    let p = read_lines(split_all(text, '\n'));
    ParsedView { actions: advertised(p.actions, p.ids), ..p }
}

/// Reading one more line never unhides an entry.
proof fn lemma_read_keeps_hidden(p: ParsedView, raw: Seq<char>)
    ensures
        p.no_display ==> read_line(p, raw).no_display,
        !is_header(trim(raw)) ==> read_line(p, raw).section == p.section,
{
}

/// The first `n` lines read, then line `n`.
proof fn lemma_read_one_more(lines: Seq<Seq<char>>, n: int)
    requires
        0 <= n < lines.len(),
    ensures
        read_lines(lines.take(n + 1)) == read_line(read_lines(lines.take(n)), lines[n]),
{
    assert(lines.take(n + 1).drop_last() =~= lines.take(n));
}

/// Once hidden after `n` lines, hidden after every later count.
proof fn lemma_hidden_from(lines: Seq<Seq<char>>, n: int, m: int)
    requires
        0 <= n <= m <= lines.len(),
        read_lines(lines.take(n)).no_display,
    ensures
        read_lines(lines.take(m)).no_display,
    decreases m - n,
{
    if n < m {
        lemma_read_one_more(lines, n);
        lemma_read_keeps_hidden(read_lines(lines.take(n)), lines[n]);
        lemma_hidden_from(lines, n + 1, m);
    }
}

/// Lines that open no group leave the reader in the group it was in.
proof fn lemma_same_group(lines: Seq<Seq<char>>, n: int, m: int)
    requires
        0 <= n <= m <= lines.len(),
        forall|j: int| n <= j < m ==> !is_header(trim(#[trigger] lines[j])),
    ensures
        read_lines(lines.take(m)).section == read_lines(lines.take(n)).section,
    decreases m - n,
{
    if n < m {
        lemma_read_one_more(lines, n);
        lemma_read_keeps_hidden(read_lines(lines.take(n)), lines[n]);
        lemma_same_group(lines, n + 1, m);
    }
}

/// A `key = value` line read in a group gives that key its trimmed value,
/// when the key is a plain one: not empty, not localised, not starting a
/// comment or a header.
proof fn lemma_key_line(p: ParsedView, raw: Seq<char>, key: Seq<char>, value: Seq<char>)
    requires
        split_once(trim(raw), "="@) == Some((key, value)),
        trim(key).len() > 0,
        trim(key)[0] != '#' && trim(key)[0] != '[',
        forall|j: int| 0 <= j < trim(key).len() ==> trim(key)[j] != '[',
    ensures
        read_line(p, raw) == apply_key(p, trim(key), trim(value)),
{
    reveal_strlit("=");
    let line = trim(raw);
    let tk = trim(key);
    crate::text::lemma_find_from_first(line, "="@, 0);
    let at = crate::text::find(line, "="@)->0;
    assert(key == line.subrange(0, at));
    crate::text::lemma_trim_start_len(raw);
    crate::text::lemma_trim_end_prefix(trim_start(raw));
    crate::text::lemma_trim_start_len(key);
    crate::text::lemma_trim_end_prefix(trim_start(key));
    assert(key.len() > 0);
    assert(line[0] == trim_start(raw)[0]);
    assert(!is_ws(line[0]));
    assert(key[0] == line[0]);
    assert(trim_start(key) == key);
    assert(tk[0] == key[0]);
    assert(!is_header(line));
    assert(!tk.contains('['));
}

/// Text from a group's key the reader keeps: the entry's name, icon or
/// command line.
pub open spec fn main_field(p: ParsedView, key: Seq<char>) -> Seq<char> {
    if key == "Name"@ {
        p.name
    } else if key == "Icon"@ {
        p.icon
    } else {
        p.exec_line
    }
}

/// A line that does not set `key` leaves the entry's `key` as it was.
proof fn lemma_field_kept(p: ParsedView, raw: Seq<char>, key: Seq<char>)
    requires
        key == "Name"@ || key == "Icon"@ || key == "Exec"@,
        split_once(trim(raw), "="@) matches Some((k2, _)) ==> trim(k2) != key,
    ensures
        main_field(read_line(p, raw), key) == main_field(p, key),
{
    reveal_strlit("Name");
    reveal_strlit("Icon");
    reveal_strlit("Exec");
    assert("Name"@[0] != "Icon"@[0] && "Name"@[0] != "Exec"@[0] && "Icon"@[0] != "Exec"@[0]);
}

/// Over lines that do not set `key`, the entry's `key` stays.
proof fn lemma_field_kept_from(lines: Seq<Seq<char>>, n: int, m: int, key: Seq<char>)
    requires
        0 <= n <= m <= lines.len(),
        key == "Name"@ || key == "Icon"@ || key == "Exec"@,
        forall|j: int| n <= j < m ==> (split_once(trim(#[trigger] lines[j]), "="@) matches Some((k2, _))
            ==> trim(k2) != key),
    ensures
        main_field(read_lines(lines.take(m)), key) == main_field(read_lines(lines.take(n)), key),
    decreases m - n,
{
    if n < m {
        lemma_read_one_more(lines, n);
        lemma_field_kept(read_lines(lines.take(n)), lines[n], key);
        lemma_field_kept_from(lines, n + 1, m, key);
    }
}

/// The entry's name, icon and command line are what the last line setting
/// them in the `[Desktop Entry]` group says: when some line is the
/// `[Desktop Entry]` header, a later line in that group is `key = value`
/// with `key` one of `Name`, `Icon` and `Exec`, and no line after it sets
/// `key` again, the entry read has that value, trimmed.
pub proof fn lemma_last_main_key_wins(
    path: Seq<char>,
    text: Seq<char>,
    e: Entry,
    h: int,
    k: int,
    key: Seq<char>,
    value: Seq<char>,
)
    requires
        entry_from(e, path, text),
        0 <= h < k < split_all(text, '\n').len(),
        trim(split_all(text, '\n')[h]) == "[Desktop Entry]"@,
        forall|j: int| h < j < k ==> !is_header(trim(#[trigger] split_all(text, '\n')[j])),
        split_once(trim(split_all(text, '\n')[k]), "="@) == Some((key, value)),
        trim(key) == "Name"@ || trim(key) == "Icon"@ || trim(key) == "Exec"@,
        forall|j: int| k < j < split_all(text, '\n').len() ==> (split_once(
            trim(#[trigger] split_all(text, '\n')[j]),
            "="@,
        ) matches Some((k2, _)) ==> trim(k2) != trim(key)),
    ensures
        trim(key) == "Name"@ ==> e.name@ == trim(value),
        trim(key) == "Icon"@ ==> e.icon@ == trim(value),
        trim(key) == "Exec"@ ==> e.exec_line@ == trim(value),
{
    let lines = split_all(text, '\n');
    let tk = trim(key);
    reveal_strlit("[Desktop Entry]");
    reveal_strlit("Desktop Entry");
    reveal_strlit("Name");
    reveal_strlit("Icon");
    reveal_strlit("Exec");
    reveal_strlit("StartupWMClass");
    reveal_strlit("NoDisplay");
    reveal_strlit("Hidden");
    reveal_strlit("Terminal");
    reveal_strlit("Actions");
    assert("Name"@[0] != "Icon"@[0] && "Name"@[0] != "Exec"@[0] && "Icon"@[0] != "Exec"@[0]);
    lemma_read_one_more(lines, h);
    let hl = trim(lines[h]);
    assert(is_header(hl));
    assert(hl.subrange(1, hl.len() - 1) =~= "Desktop Entry"@);
    lemma_same_group(lines, h + 1, k);
    let p = read_lines(lines.take(k));
    assert(p.section == Section::Main);
    assert forall|j: int| 0 <= j < tk.len() implies tk[j] != '[' by {}
    lemma_key_line(p, lines[k], key, value);
    lemma_read_one_more(lines, k);
    assert(main_field(read_lines(lines.take(k + 1)), tk) == trim(value));
    lemma_field_kept_from(lines, k + 1, lines.len() as int, tk);
    assert(lines.take(lines.len() as int) =~= lines);
}

/// `NoDisplay=true` or `Hidden=true` in the `[Desktop Entry]` group hides
/// the entry, whatever else the file says before or after it: when some
/// line of the file is the `[Desktop Entry]` header, a later line is
/// `key = value` with `key` one of those two and `value` `true`, and no
/// group header stands between them, the entry read from the file is not
/// to be shown.
pub proof fn lemma_no_display_hides(
    path: Seq<char>,
    text: Seq<char>,
    e: Entry,
    h: int,
    k: int,
    key: Seq<char>,
    value: Seq<char>,
)
    requires
        entry_from(e, path, text),
        0 <= h < k < split_all(text, '\n').len(),
        trim(split_all(text, '\n')[h]) == "[Desktop Entry]"@,
        split_once(trim(split_all(text, '\n')[k]), "="@) == Some((key, value)),
        trim(key) == "NoDisplay"@ || trim(key) == "Hidden"@,
        trim(value) == "true"@,
        forall|j: int| h < j < k ==> !is_header(trim(#[trigger] split_all(text, '\n')[j])),
    ensures
        e.no_display,
{
    let lines = split_all(text, '\n');
    reveal_strlit("[Desktop Entry]");
    reveal_strlit("Desktop Entry");
    reveal_strlit("NoDisplay");
    reveal_strlit("Hidden");
    reveal_strlit("Name");
    reveal_strlit("Icon");
    reveal_strlit("Exec");
    reveal_strlit("StartupWMClass");
    reveal_strlit("true");
    reveal_strlit("=");
    // The header opens the main group.
    lemma_read_one_more(lines, h);
    let hl = trim(lines[h]);
    assert(is_header(hl));
    assert(hl.subrange(1, hl.len() - 1) =~= "Desktop Entry"@);
    assert(read_lines(lines.take(h + 1)).section == Section::Main);
    // Nothing in between leaves it.
    lemma_same_group(lines, h + 1, k);
    let p = read_lines(lines.take(k));
    assert(p.section == Section::Main);
    // The line itself hides the entry.
    lemma_read_one_more(lines, k);
    lemma_key_line(p, lines[k], key, value);
    assert(read_lines(lines.take(k + 1)).no_display);
    lemma_hidden_from(lines, k + 1, lines.len() as int);
    assert(lines.take(lines.len() as int) =~= lines);
}

/// In particular, a `[Desktop Entry]` line that reads `NoDisplay=true`
/// or `Hidden=true` hides the entry.
pub proof fn lemma_no_display_line_hides(
    path: Seq<char>,
    text: Seq<char>,
    e: Entry,
    h: int,
    k: int,
    key: Seq<char>,
)
    requires
        entry_from(e, path, text),
        0 <= h < k < split_all(text, '\n').len(),
        trim(split_all(text, '\n')[h]) == "[Desktop Entry]"@,
        key == "NoDisplay"@ || key == "Hidden"@,
        trim(split_all(text, '\n')[k]) == key + "=true"@,
        forall|j: int| h < j < k ==> !is_header(trim(#[trigger] split_all(text, '\n')[j])),
    ensures
        e.no_display,
{
    reveal_strlit("NoDisplay");
    reveal_strlit("Hidden");
    reveal_strlit("=true");
    reveal_strlit("=");
    reveal_strlit("true");
    let value = "true"@;
    assert(key + "=true"@ =~= key + "="@ + value);
    assert forall|i: int| 0 <= i < key.len() implies key[i] != "="@[0] by {}
    crate::text::lemma_split_first(key, "="@, value);
    assert(trim_start(key) == key);
    assert(trim(key) == key);
    assert(trim_start(value) == value);
    assert(trim(value) == value);
    lemma_no_display_hides(path, text, e, h, k, key, value);
}

/// Whether `e` is the entry read from `text` at `path`.
pub open spec fn entry_from(e: Entry, path: Seq<char>, text: Seq<char>) -> bool {
    let p = parsed_text(text);
    &&& file_stem(path) == Some(e.id@)
    &&& e.path@ == path
    &&& e.name@ == p.name
    &&& e.icon@ == p.icon
    &&& e.exec_line@ == p.exec_line
    &&& match e.wm_class {
        Some(w) => p.wm_class == Some(w@),
        None => p.wm_class is None,
    }
    &&& e.no_display == p.no_display
    &&& e.terminal == p.terminal
    &&& actions_view(e.actions@) == p.actions
}


// ── reading a desktop file ──────────────────────────────────────────────────

enum Group {
    Main,
    Action(usize),
    Other,
}

/// The parser's state: the entry's fields so far, the current group, and
/// the action ids the entry advertises.
struct Reader {
    name: String,
    icon: String,
    exec_line: String,
    wm_class: Option<String>,
    no_display: bool,
    terminal: bool,
    actions: Vec<Action>,
    group: Group,
    ids: Vec<String>,
}

spec fn reader_view(r: Reader) -> ParsedView {
    ParsedView {
        name: r.name@,
        icon: r.icon@,
        exec_line: r.exec_line@,
        wm_class: match r.wm_class {
            Some(w) => Some(w@),
            None => None,
        },
        no_display: r.no_display,
        terminal: r.terminal,
        actions: actions_view(r.actions@),
        section: match r.group {
            Group::Main => Section::Main,
            Group::Action(i) => Section::Action(i as int),
            Group::Other => Section::Other,
        },
        ids: strings(r.ids@),
    }
}

spec fn reader_wf(r: Reader) -> bool {
    match r.group {
        Group::Action(i) => i < r.actions@.len(),
        _ => true,
    }
}

/// The non-empty pieces of `v` between `;`s.
fn listed_ids(v: &Vec<char>) -> (r: Vec<String>)
    ensures
        strings(r@) == keep(split_all(v@, ';'), nonempty()),
{
    let pieces = split_all_vec(v, ';');
    let ghost pv = pieces@.map_values(|w: Vec<char>| w@);
    let mut out: Vec<String> = Vec::new();
    let mut i: usize = 0;
    assert(strings(out@) =~= keep(pv.take(0), nonempty()));
    while i < pieces.len()
        invariant
            i <= pieces@.len(),
            pv == pieces@.map_values(|w: Vec<char>| w@),
            pv == split_all(v@, ';'),
            strings(out@) == keep(pv.take(i as int), nonempty()),
        decreases pieces.len() - i,
    {
        assert(pv.take(i + 1).drop_last() =~= pv.take(i as int));
        if pieces[i].len() > 0 {
            let ghost before = strings(out@);
            out.push(string_of(&pieces[i]));
            assert(strings(out@) =~= before.push(pv[i as int]));
        }
        i = i + 1;
    }
    assert(pv.take(pieces.len() as int) =~= pv);
    out
}

/// `key=value`, applied in the current group.
fn apply_key_exec(r: &mut Reader, key: &Vec<char>, value: &Vec<char>)
    requires
        reader_wf(*old(r)),
    ensures
        reader_wf(*final(r)),
        reader_view(*final(r)) == apply_key(reader_view(*old(r)), key@, value@),
{
    let is_true = seq_eq(value, &chars_of("true"));
    match r.group {
        Group::Main => {
            if seq_eq(key, &chars_of("Name")) {
                r.name = string_of(value);
            } else if seq_eq(key, &chars_of("Icon")) {
                r.icon = string_of(value);
            } else if seq_eq(key, &chars_of("Exec")) {
                r.exec_line = string_of(value);
            } else if seq_eq(key, &chars_of("StartupWMClass")) {
                r.wm_class = sane_wm_class(string_of(value).as_str());
            } else if seq_eq(key, &chars_of("NoDisplay")) || seq_eq(key, &chars_of("Hidden")) {
                r.no_display = r.no_display || is_true;
            } else if seq_eq(key, &chars_of("Terminal")) {
                r.terminal = is_true;
            } else if seq_eq(key, &chars_of("Actions")) {
                r.ids = listed_ids(value);
            }
        },
        Group::Action(i) => {
            if seq_eq(key, &chars_of("Name")) {
                let mut a = r.actions[i].clone();
                a.name = string_of(value);
                let ghost before = r.actions@;
                r.actions.set(i, a);
                assert(actions_view(r.actions@) =~= actions_view(before).update(
                    i as int,
                    ActionView { name: value@, ..actions_view(before)[i as int] },
                ));
            } else if seq_eq(key, &chars_of("Exec")) {
                let mut a = r.actions[i].clone();
                a.exec_line = string_of(value);
                let ghost before = r.actions@;
                r.actions.set(i, a);
                assert(actions_view(r.actions@) =~= actions_view(before).update(
                    i as int,
                    ActionView { exec_line: value@, ..actions_view(before)[i as int] },
                ));
            }
        },
        Group::Other => {},
    }
}

/// One line of the file.
fn read_line_exec(r: &mut Reader, raw: &Vec<char>)
    requires
        reader_wf(*old(r)),
    ensures
        reader_wf(*final(r)),
        reader_view(*final(r)) == read_line(reader_view(*old(r)), raw@),
{
    let line = trim_vec(raw);
    if line.len() == 0 || line[0] == '#' {
        return;
    }
    if line.len() >= 2 && line[0] == '[' && line[line.len() - 1] == ']' {
        let header = slice_of(&line, 1, line.len() - 1);
        if seq_eq(&header, &chars_of("Desktop Entry")) {
            r.group = Group::Main;
        } else {
            match strip_prefix_vec(&header, &chars_of("Desktop Action ")) {
                Some(id) => {
                    let ghost before = r.actions@;
                    let name = string_of(&id);
                    r.actions.push(Action { id: string_of(&id), name, exec_line: String::new() });
                    r.group = Group::Action(r.actions.len() - 1);
                    assert(actions_view(r.actions@) =~= actions_view(before).push(
                        ActionView { id: id@, name: id@, exec_line: Seq::empty() },
                    ));
                },
                None => {
                    r.group = Group::Other;
                },
            }
        }
        return;
    }
    match split_once_vec(&line, &chars_of("=")) {
        Some((k, v)) => {
            let k = trim_vec(&k);
            let v = trim_vec(&v);
            if !contains_char(&k, '[') {
                apply_key_exec(r, &k, &v);
            }
        },
        None => {},
    }
}

/// The first position of `s` in `ids`.
fn position_in(ids: &Vec<String>, s: &String) -> (r: Option<usize>)
    ensures
        match r {
            Some(k) => index_of(strings(ids@), s@) == Some(k as int),
            None => index_of(strings(ids@), s@) is None,
        },
{
    let ghost iv = strings(ids@);
    let want = chars_of(s.as_str());
    let mut i: usize = 0;
    while i < ids.len()
        invariant
            i <= ids@.len(),
            iv == strings(ids@),
            want@ == s@,
            index_of(iv.take(i as int), s@) is None,
        decreases ids.len() - i,
    {
        assert(iv.take(i + 1).drop_last() =~= iv.take(i as int));
        if seq_eq(&chars_of(ids[i].as_str()), &want) {
            assert(index_of(iv.take(i + 1), s@) == Some(i as int));
            proof {
                lemma_index_prefix(iv, s@, i + 1);
            }
            return Some(i);
        }
        i = i + 1;
    }
    assert(iv.take(ids.len() as int) =~= iv);
    None
}

/// The actions `ids` advertises, in its order; none when it is empty.
fn advertised_actions(actions: &Vec<Action>, ids: &Vec<String>) -> (r: Vec<Action>)
    ensures
        actions_view(r@) == advertised(actions_view(actions@), strings(ids@)),
{
    let ghost av = actions_view(actions@);
    let ghost iv = strings(ids@);
    let mut out: Vec<Action> = Vec::new();
    let mut k: usize = 0;
    assert(actions_view(out@) =~= listed(av, iv, 0));
    while k < ids.len()
        invariant
            k <= ids@.len(),
            av == actions_view(actions@),
            iv == strings(ids@),
            actions_view(out@) == listed(av, iv, k as nat),
        decreases ids.len() - k,
    {
        let ghost start = actions_view(out@);
        let mut j: usize = 0;
        assert(start + keep(av.take(0), listed_at(iv, k as int)) =~= start);
        while j < actions.len()
            invariant
                j <= actions@.len(),
                k < ids@.len(),
                av == actions_view(actions@),
                iv == strings(ids@),
                actions_view(out@) == start + keep(av.take(j as int), listed_at(iv, k as int)),
            decreases actions.len() - j,
        {
            assert(av.take(j + 1).drop_last() =~= av.take(j as int));
            let hit = match position_in(ids, &actions[j].id) {
                Some(at) => at == k,
                None => false,
            };
            if hit {
                let ghost before = actions_view(out@);
                out.push(actions[j].clone());
                assert(actions_view(out@) =~= before.push(av[j as int]));
            }
            j = j + 1;
        }
        assert(av.take(actions.len() as int) =~= av);
        k = k + 1;
    }
    out
}

/// Read one desktop file: `text` is its contents and `path` where it was
/// found, whose file stem is the entry's desktop id.
///
/// Only `[Desktop Entry]` and `[Desktop Action *]` groups are read; other
/// groups are skipped so unrelated keys cannot leak into the entry. An entry
/// without a `Name` is no entry.
pub fn parse(path: &str, text: &str) -> (r: Option<Entry>)
    ensures
        match r {
            Some(e) => entry_from(e, path@, text@) && parsed_text(text@).name.len() > 0,
            None => file_stem(path@) is None || parsed_text(text@).name.len() == 0,
        },
{
    let id = match file_stem_exec(path) {
        Some(s) => s,
        None => return None,
    };
    let lines = split_all_vec(&chars_of(text), '\n');
    let ghost lv = lines@.map_values(|w: Vec<char>| w@);
    let mut r = Reader {
        name: String::new(),
        icon: String::new(),
        exec_line: String::new(),
        wm_class: None,
        no_display: false,
        terminal: false,
        actions: Vec::new(),
        group: Group::Other,
        ids: Vec::new(),
    };
    assert(actions_view(r.actions@) =~= Seq::<ActionView>::empty());
    assert(strings(r.ids@) =~= Seq::<Seq<char>>::empty());
    assert(reader_view(r) == nothing_read());
    assert(lv.take(0) =~= Seq::<Seq<char>>::empty());
    let mut i: usize = 0;
    while i < lines.len()
        invariant
            i <= lines@.len(),
            lv == lines@.map_values(|w: Vec<char>| w@),
            reader_wf(r),
            reader_view(r) == read_lines(lv.take(i as int)),
        decreases lines.len() - i,
    {
        assert(lv.take(i + 1).drop_last() =~= lv.take(i as int));
        read_line_exec(&mut r, &lines[i]);
        i = i + 1;
    }
    assert(lv.take(lines.len() as int) =~= lv);
    if r.name.as_str().is_empty() {
        return None;
    }
    let actions = advertised_actions(&r.actions, &r.ids);
    Some(
        Entry {
            id: string_of(&id),
            name: r.name,
            icon: r.icon,
            exec_line: r.exec_line,
            wm_class: r.wm_class,
            no_display: r.no_display,
            terminal: r.terminal,
            actions,
            path: string_of(&chars_of(path)),
        },
    )
}


// ── the entry set ───────────────────────────────────────────────────────────

/// Whether some entry of `s` has desktop id `id`.
pub open spec fn has_id(s: Seq<Entry>, id: Seq<char>) -> bool {
    exists|j: int| 0 <= j < s.len() && #[trigger] s[j].id@ == id
}

/// The first entry for each desktop id, in the order found: directories are
/// scanned in XDG precedence order, so a user override in
/// `~/.local/share/applications` shadows the system copy.
pub open spec fn first_per_id(s: Seq<Entry>) -> Seq<Entry>
    decreases s.len(),
{
    if s.len() == 0 {
        s
    } else {
        let f = first_per_id(s.drop_last());
        if has_id(f, s.last().id@) {
            f
        } else {
            f.push(s.last())
        }
    }
}

pub open spec fn insert_by_id(sorted: Seq<Entry>, e: Entry) -> Seq<Entry>
    decreases sorted.len(),
{
    if sorted.len() == 0 {
        seq![e]
    } else if !lex_less(e.id@, sorted.last().id@) {
        sorted.push(e)
    } else {
        insert_by_id(sorted.drop_last(), e).push(sorted.last())
    }
}

/// Entries in desktop-id order: a stable sort.
pub open spec fn sort_by_id(s: Seq<Entry>) -> Seq<Entry>
    decreases s.len(),
{
    if s.len() == 0 {
        s
    } else {
        insert_by_id(sort_by_id(s.drop_last()), s.last())
    }
}

proof fn lemma_insert_by_id_at(s: Seq<Entry>, e: Entry, j: int)
    requires
        0 <= j <= s.len(),
        forall|k: int| j <= k < s.len() ==> lex_less(e.id@, #[trigger] s[k].id@),
        j == 0 || !lex_less(e.id@, s[j - 1].id@),
    ensures
        insert_by_id(s, e) == s.insert(j, e),
    decreases s.len(),
{
    if s.len() == 0 {
        assert(s.insert(j, e) =~= seq![e]);
    } else if !lex_less(e.id@, s.last().id@) {
        assert(j == s.len());
        assert(s.insert(j, e) =~= s.push(e));
    } else {
        let d = s.drop_last();
        lemma_insert_by_id_at(d, e, j);
        assert(d.insert(j, e).push(s.last()) =~= s.insert(j, e));
    }
}

/// No two entries of `s` share a desktop id.
pub open spec fn ids_distinct(s: Seq<Entry>) -> bool {
    forall|i: int, j: int|
        0 <= i < s.len() && 0 <= j < s.len() && i != j ==> #[trigger] s[i].id@ != #[trigger] s[j].id@
}

/// Entries strictly in desktop-id order.
pub open spec fn in_id_order(s: Seq<Entry>) -> bool {
    forall|i: int, j: int| 0 <= i < j < s.len() ==> lex_less(#[trigger] s[i].id@, #[trigger] s[j].id@)
}

/// `e` is the first entry of `found` with its desktop id.
pub open spec fn first_of_its_id(found: Seq<Entry>, e: Entry) -> bool {
    exists|k: int|
        #![trigger found[k]]
        0 <= k < found.len() && found[k] == e && forall|m: int| 0 <= m < k ==> #[trigger] found[m].id@ != e.id@
}

proof fn lemma_first_of_its_id_prefix(s: Seq<Entry>, e: Entry)
    requires
        s.len() > 0,
        first_of_its_id(s.drop_last(), e),
    ensures
        first_of_its_id(s, e),
{
    let d = s.drop_last();
    let k = choose|k: int|
        #![trigger d[k]]
        0 <= k < d.len() && d[k] == e && forall|m: int| 0 <= m < k ==> #[trigger] d[m].id@ != e.id@;
    assert(s[k] == e);
    assert forall|m: int| 0 <= m < k implies #[trigger] s[m].id@ != e.id@ by {
        assert(s[m] == d[m]);
    }
}

proof fn lemma_first_per_id(s: Seq<Entry>)
    ensures
        ids_distinct(first_per_id(s)),
        forall|k: int| 0 <= k < s.len() ==> has_id(first_per_id(s), #[trigger] s[k].id@),
        forall|i: int|
            0 <= i < first_per_id(s).len() ==> first_of_its_id(s, #[trigger] first_per_id(s)[i]),
    decreases s.len(),
{
    if s.len() > 0 {
        let d = s.drop_last();
        let f0 = first_per_id(d);
        let f = first_per_id(s);
        let last = s.last();
        lemma_first_per_id(d);
        assert forall|i: int| 0 <= i < f0.len() implies first_of_its_id(s, #[trigger] f0[i]) by {
            lemma_first_of_its_id_prefix(s, f0[i]);
        }
        if has_id(f0, last.id@) {
            assert forall|k: int| 0 <= k < s.len() implies has_id(f, #[trigger] s[k].id@) by {
                if k < d.len() {
                    assert(s[k] == d[k]);
                }
            }
        } else {
            assert(f == f0.push(last));
            assert forall|i: int, j: int|
                0 <= i < f.len() && 0 <= j < f.len() && i != j implies #[trigger] f[i].id@
                != #[trigger] f[j].id@ by {
                if i < f0.len() && j < f0.len() {
                    assert(f[i] == f0[i] && f[j] == f0[j]);
                } else if i < f0.len() {
                    assert(f[i] == f0[i]);
                } else {
                    assert(f[j] == f0[j]);
                }
            }
            assert forall|k: int| 0 <= k < s.len() implies has_id(f, #[trigger] s[k].id@) by {
                if k < d.len() {
                    assert(s[k] == d[k]);
                    assert(has_id(f0, d[k].id@));
                    let j = choose|j: int| 0 <= j < f0.len() && #[trigger] f0[j].id@ == d[k].id@;
                    assert(f[j] == f0[j]);
                } else {
                    assert(f[f0.len() as int] == last);
                }
            }
            assert(first_of_its_id(s, last)) by {
                let k = s.len() - 1;
                assert(s[k] == last);
                assert forall|m: int| 0 <= m < k implies #[trigger] s[m].id@ != last.id@ by {
                    assert(s[m] == d[m]);
                    assert(has_id(f0, d[m].id@));
                }
            }
            assert forall|i: int| 0 <= i < f.len() implies first_of_its_id(s, #[trigger] f[i]) by {
                if i < f0.len() {
                    assert(f[i] == f0[i]);
                } else {
                    assert(f[i] == last);
                }
            }
        }
    }
}

proof fn lemma_insert_by_id(t: Seq<Entry>, e: Entry)
    requires
        in_id_order(t),
        !has_id(t, e.id@),
    ensures
        in_id_order(insert_by_id(t, e)),
        insert_by_id(t, e).len() == t.len() + 1,
        forall|x: Entry| #[trigger] insert_by_id(t, e).contains(x) <==> (t.contains(x) || x == e),
    decreases t.len(),
{
    let r = insert_by_id(t, e);
    if t.len() == 0 {
        assert forall|x: Entry| #[trigger] r.contains(x) <==> (t.contains(x) || x == e) by {
            if r.contains(x) {
                assert(r[0] == e);
            }
            if x == e {
                assert(r[0] == e);
            }
        }
    } else if !lex_less(e.id@, t.last().id@) {
        let n = t.len() - 1;
        assert(t[n].id@ != e.id@);
        crate::text::lemma_lex_less_order(e.id@, t[n].id@, e.id@);
        assert(lex_less(t[n].id@, e.id@));
        assert(r == t.push(e));
        assert forall|i: int, j: int| 0 <= i < j < r.len() implies lex_less(
            #[trigger] r[i].id@,
            #[trigger] r[j].id@,
        ) by {
            if j < t.len() {
                assert(r[i] == t[i] && r[j] == t[j]);
            } else {
                assert(r[i] == t[i] && r[j] == e);
                if i < n {
                    assert(lex_less(t[i].id@, t[n].id@));
                    crate::text::lemma_lex_less_order(t[i].id@, t[n].id@, e.id@);
                }
            }
        }
        assert forall|x: Entry| #[trigger] r.contains(x) <==> (t.contains(x) || x == e) by {
            if r.contains(x) {
                let i = choose|i: int| 0 <= i < r.len() && r[i] == x;
                if i < t.len() {
                    assert(t[i] == x);
                }
            }
            if t.contains(x) {
                let i = choose|i: int| 0 <= i < t.len() && t[i] == x;
                assert(r[i] == x);
            }
            if x == e {
                assert(r[t.len() as int] == e);
            }
        }
    } else {
        let d = t.drop_last();
        let last = t.last();
        let n = t.len() - 1;
        assert(in_id_order(d)) by {
            assert forall|i: int, j: int| 0 <= i < j < d.len() implies lex_less(
                #[trigger] d[i].id@,
                #[trigger] d[j].id@,
            ) by {
                assert(d[i] == t[i] && d[j] == t[j]);
            }
        }
        assert(!has_id(d, e.id@)) by {
            if has_id(d, e.id@) {
                let j = choose|j: int| 0 <= j < d.len() && #[trigger] d[j].id@ == e.id@;
                assert(t[j] == d[j]);
            }
        }
        lemma_insert_by_id(d, e);
        let q = insert_by_id(d, e);
        assert(r == q.push(last));
        assert forall|i: int, j: int| 0 <= i < j < r.len() implies lex_less(
            #[trigger] r[i].id@,
            #[trigger] r[j].id@,
        ) by {
            if j < q.len() {
                assert(r[i] == q[i] && r[j] == q[j]);
            } else {
                assert(r[i] == q[i] && r[j] == last);
                assert(q.contains(q[i]));
                if q[i] != e {
                    let k = choose|k: int| 0 <= k < d.len() && d[k] == q[i];
                    assert(t[k] == q[i]);
                    assert(lex_less(t[k].id@, t[n].id@));
                }
            }
        }
        assert forall|x: Entry| #[trigger] r.contains(x) <==> (t.contains(x) || x == e) by {
            if r.contains(x) {
                let i = choose|i: int| 0 <= i < r.len() && r[i] == x;
                if i < q.len() {
                    assert(q[i] == x);
                    assert(q.contains(x));
                    if x != e {
                        let k = choose|k: int| 0 <= k < d.len() && d[k] == x;
                        assert(t[k] == x);
                    }
                } else {
                    assert(t[n] == x);
                }
            }
            if t.contains(x) {
                let i = choose|i: int| 0 <= i < t.len() && t[i] == x;
                if i < n {
                    assert(d[i] == x);
                    assert(d.contains(x));
                    assert(q.contains(x));
                    let k = choose|k: int| 0 <= k < q.len() && q[k] == x;
                    assert(r[k] == x);
                } else {
                    assert(r[q.len() as int] == x);
                }
            }
            if x == e {
                assert(q.contains(e));
                let k = choose|k: int| 0 <= k < q.len() && q[k] == e;
                assert(r[k] == e);
            }
        }
    }
}

proof fn lemma_sort_by_id(s: Seq<Entry>)
    requires
        ids_distinct(s),
    ensures
        in_id_order(sort_by_id(s)),
        sort_by_id(s).len() == s.len(),
        forall|x: Entry| #[trigger] sort_by_id(s).contains(x) <==> s.contains(x),
    decreases s.len(),
{
    if s.len() > 0 {
        let d = s.drop_last();
        let last = s.last();
        assert(ids_distinct(d)) by {
            assert forall|i: int, j: int| 0 <= i < d.len() && 0 <= j < d.len() && i != j implies #[trigger] d[i].id@
                != #[trigger] d[j].id@ by {
                assert(d[i] == s[i] && d[j] == s[j]);
            }
        }
        lemma_sort_by_id(d);
        let t = sort_by_id(d);
        assert(!has_id(t, last.id@)) by {
            if has_id(t, last.id@) {
                let j = choose|j: int| 0 <= j < t.len() && #[trigger] t[j].id@ == last.id@;
                assert(t.contains(t[j]));
                let k = choose|k: int| 0 <= k < d.len() && d[k] == t[j];
                assert(s[k] == d[k]);
                assert(s[s.len() - 1] == last);
            }
        }
        lemma_insert_by_id(t, last);
        assert forall|x: Entry| #[trigger] sort_by_id(s).contains(x) <==> s.contains(x) by {
            if s.contains(x) {
                let i = choose|i: int| 0 <= i < s.len() && s[i] == x;
                if i < d.len() {
                    assert(d[i] == x);
                    assert(d.contains(x));
                }
            }
            if d.contains(x) {
                let i = choose|i: int| 0 <= i < d.len() && d[i] == x;
                assert(s[i] == x);
            }
            if x == last {
                assert(s[s.len() - 1] == x);
            }
        }
    }
}

/// The dock's entry set holds, for every desktop id found, exactly one
/// entry, and it is the first one found: directories are scanned in XDG
/// precedence order, so a user override in `~/.local/share/applications`
/// shadows the system copy. The entries are in desktop-id order.
pub proof fn lemma_entry_set(found: Seq<Entry>)
    ensures
        in_id_order(sort_by_id(first_per_id(found))),
        forall|k: int|
            0 <= k < found.len() ==> has_id(sort_by_id(first_per_id(found)), #[trigger] found[k].id@),
        forall|i: int|
            0 <= i < sort_by_id(first_per_id(found)).len() ==> first_of_its_id(
                found,
                #[trigger] sort_by_id(first_per_id(found))[i],
            ),
{
    let f = first_per_id(found);
    let r = sort_by_id(f);
    lemma_first_per_id(found);
    lemma_sort_by_id(f);
    assert forall|k: int| 0 <= k < found.len() implies has_id(r, #[trigger] found[k].id@) by {
        assert(has_id(f, found[k].id@));
        let j = choose|j: int| 0 <= j < f.len() && #[trigger] f[j].id@ == found[k].id@;
        assert(f.contains(f[j]));
        assert(r.contains(f[j]));
        let i = choose|i: int| 0 <= i < r.len() && r[i] == f[j];
        assert(r[i].id@ == found[k].id@);
    }
    assert forall|i: int| 0 <= i < r.len() implies first_of_its_id(found, #[trigger] r[i]) by {
        assert(r.contains(r[i]));
        assert(f.contains(r[i]));
        let j = choose|j: int| 0 <= j < f.len() && f[j] == r[i];
        assert(first_of_its_id(found, f[j]));
    }
}

fn has_id_exec(s: &Vec<Entry>, id: &String) -> (r: bool)
    ensures
        r == has_id(s@, id@),
{
    let want = chars_of(id.as_str());
    let mut j: usize = 0;
    while j < s.len()
        invariant
            j <= s@.len(),
            want@ == id@,
            forall|k: int| 0 <= k < j ==> s@[k].id@ != id@,
        decreases s.len() - j,
    {
        if seq_eq(&chars_of(s[j].id.as_str()), &want) {
            return true;
        }
        j = j + 1;
    }
    false
}

/// The dock's entry set from the entries found, directory by directory in
/// precedence order: the first entry for each desktop id, sorted by id.
pub fn collect_entries(found: Vec<Entry>) -> (r: Vec<Entry>)
    ensures
        r@ == sort_by_id(first_per_id(found@)),
{
    let ghost orig = found@;
    let mut rest = found;
    let mut firsts: Vec<Entry> = Vec::new();
    let mut k: usize = 0;
    let total = rest.len();
    assert(orig.skip(0) =~= orig);
    while rest.len() > 0
        invariant
            k <= orig.len() == total,
            rest@ == orig.skip(k as int),
            firsts@ == first_per_id(orig.take(k as int)),
        decreases rest.len(),
    {
        assert(orig.take(k + 1).drop_last() =~= orig.take(k as int));
        assert(orig.skip(k as int)[0] == orig[k as int]);
        let e = rest.remove(0);
        assert(rest@ =~= orig.skip(k + 1));
        if !has_id_exec(&firsts, &e.id) {
            firsts.push(e);
        }
        k = k + 1;
    }
    assert(orig.take(k as int) =~= orig);
    let ghost f = firsts@;
    let mut sorted: Vec<Entry> = Vec::new();
    let mut n: usize = 0;
    let count = firsts.len();
    assert(f.skip(0) =~= f);
    while firsts.len() > 0
        invariant
            n <= f.len() == count,
            firsts@ == f.skip(n as int),
            sorted@ == sort_by_id(f.take(n as int)),
        decreases firsts.len(),
    {
        assert(f.take(n + 1).drop_last() =~= f.take(n as int));
        assert(f.skip(n as int)[0] == f[n as int]);
        let e = firsts.remove(0);
        assert(firsts@ =~= f.skip(n + 1));
        let mut j: usize = sorted.len();
        while j > 0 && str_less(e.id.as_str(), sorted[j - 1].id.as_str())
            invariant
                j <= sorted@.len(),
                forall|m: int| j <= m < sorted@.len() ==> lex_less(e.id@, #[trigger] sorted@[m].id@),
            decreases j,
        {
            j = j - 1;
        }
        proof {
            lemma_insert_by_id_at(sorted@, e, j as int);
        }
        sorted.insert(j, e);
        n = n + 1;
    }
    assert(f.take(n as int) =~= f);
    sorted
}

} // verus!
