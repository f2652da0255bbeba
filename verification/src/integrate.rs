//! Making the dock a first-class Omarchy citizen: the texts it installs into
//! Omarchy's extension points, and the edits it makes to files it shares with
//! the user.
//!
//! Three extension points are wired up, all installed and removed together:
//! a `theme-set` hook, a shell plugin that supervises the dock, and a menu
//! extension. The menu extension is the one file shared with the user, so it
//! is edited between markers and never rewritten wholesale; the optional
//! Hyprland blur rule is fenced the same way. Reading and writing the files
//! is the application's job; what goes into them is decided here.
use vstd::prelude::*;
use crate::hypr::{join_path, join_path_exec};
use crate::text::{
    opt_strings, push_char,
    find, lemma_find_from_first, lemma_find_is, lemma_matches_in_front, lemma_trim_end_prefix,
    matches_at, chars_of, concat, ends_with, ends_with_vec, is_whitespace, is_ws, rfind_char,
    rfind_char_vec, seq_eq, slice_of,
    split_once, split_once_vec, string_of, trim, trim_end, trim_end_vec, trim_start_char,
    trim_start_char_vec, trim_vec,
};

verus! {

/// Plugin id, and the directory name under `~/.config/omarchy/plugins/`.
pub const PLUGIN_ID: &'static str = "omarchy-dock";

/// Basename of the hook dropped into `theme-set.d`.
pub const HOOK_NAME: &'static str = "omarchy-dock";

/// Fences around the block the dock owns inside the user's menu extension.
pub const MENU_BEGIN: &'static str = "  // >>> omarchy-dock — managed block, edits are overwritten >>>";

pub const MENU_END: &'static str = "  // <<< omarchy-dock <<<";

/// Fences around the block the dock owns inside the user's Hyprland config.
pub const HYPR_BEGIN: &'static str = "-- >>> omarchy-dock — managed block, edits are overwritten >>>";

pub const HYPR_END: &'static str = "-- <<< omarchy-dock <<<";

// ── where things live ───────────────────────────────────────────────────────

/// Omarchy's config directory inside the user's config directory
/// `config_dir` (the current directory when there is none).
pub fn omarchy_config_dir(config_dir: Option<&str>) -> (r: String)
    ensures
        r@ == join_path(
            match config_dir {
                Some(d) => d@,
                None => "."@,
            },
            "omarchy"@,
        ),
{
    match config_dir {
        Some(d) => join_path_exec(d, "omarchy"),
        None => join_path_exec(".", "omarchy"),
    }
}

/// The theme-set hook inside Omarchy's config directory `omarchy_dir`.
pub fn hook_path(omarchy_dir: &str) -> (r: String)
    ensures
        r@ == join_path(join_path(omarchy_dir@, "hooks/theme-set.d"@), HOOK_NAME@),
{
    let hooks = join_path_exec(omarchy_dir, "hooks/theme-set.d");
    join_path_exec(hooks.as_str(), HOOK_NAME)
}

/// The plugin's directory inside Omarchy's config directory `omarchy_dir`.
pub fn plugin_dir(omarchy_dir: &str) -> (r: String)
    ensures
        r@ == join_path(join_path(omarchy_dir@, "plugins"@), PLUGIN_ID@),
{
    let plugins = join_path_exec(omarchy_dir, "plugins");
    join_path_exec(plugins.as_str(), PLUGIN_ID)
}

/// The menu extension file inside Omarchy's config directory `omarchy_dir`.
pub fn menu_extension_path(omarchy_dir: &str) -> (r: String)
    ensures
        r@ == join_path(omarchy_dir@, "extensions/omarchy-menu.jsonc"@),
{
    join_path_exec(omarchy_dir, "extensions/omarchy-menu.jsonc")
}

/// The shell's `shell.json` inside Omarchy's config directory `omarchy_dir`.
pub fn shell_json_path(omarchy_dir: &str) -> (r: String)
    ensures
        r@ == join_path(omarchy_dir@, "shell.json"@),
{
    join_path_exec(omarchy_dir, "shell.json")
}

/// Hyprland's look-and-feel file inside the user's config directory
/// `config_dir` (the current directory when there is none).
pub fn looknfeel_path(config_dir: Option<&str>) -> (r: String)
    ensures
        r@ == join_path(
            match config_dir {
                Some(d) => d@,
                None => "."@,
            },
            "hypr/looknfeel.lua"@,
        ),
{
    match config_dir {
        Some(d) => join_path_exec(d, "hypr/looknfeel.lua"),
        None => join_path_exec(".", "hypr/looknfeel.lua"),
    }
}

/// What one piece of integration is called and where it lives, for
/// reporting.
#[derive(Debug)]
pub struct Report {
    pub label: &'static str,
    pub path: String,
    pub installed: bool,
    pub note: Option<String>,
}

// ── reading JSONC ───────────────────────────────────────────────────────────

/// Scanning JSONC from position `i` outside strings and comments, with
/// `last` the last significant character so far.
pub open spec fn scan_code(s: Seq<char>, i: int, last: Option<char>) -> Option<char>
    decreases s.len() - i,
{
    if i < 0 || i >= s.len() {
        last
    } else if s[i] == '"' {
        scan_str(s, i + 1, false, Some('"'))
    } else if s[i] == '/' && i + 1 < s.len() && s[i + 1] == '/' {
        scan_line(s, i + 2, last)
    } else if s[i] == '/' && i + 1 < s.len() && s[i + 1] == '*' {
        scan_block(s, i + 2, false, last)
    } else if is_ws(s[i]) {
        scan_code(s, i + 1, last)
    } else {
        scan_code(s, i + 1, Some(s[i]))
    }
}

/// Inside a string, where every character counts; `escaped` after a
/// backslash.
pub open spec fn scan_str(s: Seq<char>, i: int, escaped: bool, last: Option<char>) -> Option<char>
    decreases s.len() - i,
{
    if i < 0 || i >= s.len() {
        last
    } else if escaped {
        scan_str(s, i + 1, false, Some(s[i]))
    } else if s[i] == '\\' {
        scan_str(s, i + 1, true, Some(s[i]))
    } else if s[i] == '"' {
        scan_code(s, i + 1, Some(s[i]))
    } else {
        scan_str(s, i + 1, false, Some(s[i]))
    }
}

/// Inside a `//` comment, up to and including the newline.
pub open spec fn scan_line(s: Seq<char>, i: int, last: Option<char>) -> Option<char>
    decreases s.len() - i,
{
    if i < 0 || i >= s.len() {
        last
    } else if s[i] == '\n' {
        scan_code(s, i + 1, last)
    } else {
        scan_line(s, i + 1, last)
    }
}

/// Inside a `/* */` comment, `star` telling whether the character before
/// position `i` was a `*` of the comment (never the opening one).
pub open spec fn scan_block(s: Seq<char>, i: int, star: bool, last: Option<char>) -> Option<char>
    decreases s.len() - i,
{
    if i < 0 || i >= s.len() {
        last
    } else if star && s[i] == '/' {
        scan_code(s, i + 1, last)
    } else {
        scan_block(s, i + 1, s[i] == '*', last)
    }
}

/// The last character of `s` that is JSONC content: whitespace and comments
/// do not count, string contents do.
pub open spec fn significant_last(s: Seq<char>) -> Option<char> {
    scan_code(s, 0, None)
}

/// Where a JSONC scan stands: in code, in a string (just after a
/// backslash), in a `//` comment, or in a `/* */` comment, just after one of
/// its `*` or not.
pub enum Mode {
    Code,
    Str,
    Escaped,
    Line,
    Block(bool),
}

spec fn resume(s: Seq<char>, i: int, mode: Mode, last: Option<char>) -> Option<char> {
    match mode {
        Mode::Code => scan_code(s, i, last),
        Mode::Str => scan_str(s, i, false, last),
        Mode::Escaped => scan_str(s, i, true, last),
        Mode::Line => scan_line(s, i, last),
        Mode::Block(p) => scan_block(s, i, p, last),
    }
}

/// Where scanning `s` from position `i` in `mode`, with `last` the last
/// significant character so far, stands at the end of `s`, and the last
/// significant character by then.
pub open spec fn state_after(s: Seq<char>, i: int, mode: Mode, last: Option<char>) -> (Mode, Option<char>)
    decreases s.len() - i,
{
    if i < 0 || i >= s.len() {
        (mode, last)
    } else {
        match mode {
            Mode::Code => if s[i] == '"' {
                state_after(s, i + 1, Mode::Str, Some('"'))
            } else if s[i] == '/' && i + 1 < s.len() && s[i + 1] == '/' {
                state_after(s, i + 2, Mode::Line, last)
            } else if s[i] == '/' && i + 1 < s.len() && s[i + 1] == '*' {
                state_after(s, i + 2, Mode::Block(false), last)
            } else if is_ws(s[i]) {
                state_after(s, i + 1, Mode::Code, last)
            } else {
                state_after(s, i + 1, Mode::Code, Some(s[i]))
            },
            Mode::Str => if s[i] == '\\' {
                state_after(s, i + 1, Mode::Escaped, Some(s[i]))
            } else if s[i] == '"' {
                state_after(s, i + 1, Mode::Code, Some(s[i]))
            } else {
                state_after(s, i + 1, Mode::Str, Some(s[i]))
            },
            Mode::Escaped => state_after(s, i + 1, Mode::Str, Some(s[i])),
            Mode::Line => if s[i] == '\n' {
                state_after(s, i + 1, Mode::Code, last)
            } else {
                state_after(s, i + 1, Mode::Line, last)
            },
            Mode::Block(star) => if star && s[i] == '/' {
                state_after(s, i + 1, Mode::Code, last)
            } else {
                state_after(s, i + 1, Mode::Block(s[i] == '*'), last)
            },
        }
    }
}

/// Whether `s` ends inside a string or a `/* */` comment that it leaves
/// open.
pub open spec fn open_at_end(s: Seq<char>) -> bool {
    match state_after(s, 0, Mode::Code, None).0 {
        Mode::Code | Mode::Line => false,
        _ => true,
    }
}

/// Scanning `t + u` goes through `t` as scanning `t` alone does, when `u`
/// starts with a line break (which ends no token that `t` began).
proof fn lemma_scan_through(t: Seq<char>, u: Seq<char>, i: int, mode: Mode, last: Option<char>)
    requires
        0 <= i <= t.len(),
        u.len() > 0,
        u[0] == '\n',
    ensures
        ({
            let st = state_after(t, i, mode, last);
            resume(t + u, i, mode, last) == resume(t + u, t.len() as int, st.0, st.1)
        }),
    decreases t.len() - i,
{
    let s = t + u;
    if i < t.len() {
        assert(s[i] == t[i]);
        if i + 1 < t.len() {
            assert(s[i + 1] == t[i + 1]);
        } else {
            assert(s[i + 1] == '\n');
        }
        match mode {
            Mode::Code => {
                if t[i] == '"' {
                    lemma_scan_through(t, u, i + 1, Mode::Str, Some('"'));
                } else if t[i] == '/' && i + 1 < t.len() && t[i + 1] == '/' {
                    lemma_scan_through(t, u, i + 2, Mode::Line, last);
                } else if t[i] == '/' && i + 1 < t.len() && t[i + 1] == '*' {
                    lemma_scan_through(t, u, i + 2, Mode::Block(false), last);
                } else if is_ws(t[i]) {
                    lemma_scan_through(t, u, i + 1, Mode::Code, last);
                } else {
                    lemma_scan_through(t, u, i + 1, Mode::Code, Some(t[i]));
                }
            },
            Mode::Str => {
                if t[i] == '\\' {
                    lemma_scan_through(t, u, i + 1, Mode::Escaped, Some(t[i]));
                } else if t[i] == '"' {
                    lemma_scan_through(t, u, i + 1, Mode::Code, Some(t[i]));
                } else {
                    lemma_scan_through(t, u, i + 1, Mode::Str, Some(t[i]));
                }
            },
            Mode::Escaped => {
                lemma_scan_through(t, u, i + 1, Mode::Str, Some(t[i]));
            },
            Mode::Line => {
                if t[i] == '\n' {
                    lemma_scan_through(t, u, i + 1, Mode::Code, last);
                } else {
                    lemma_scan_through(t, u, i + 1, Mode::Line, last);
                }
            },
            Mode::Block(star) => {
                if star && t[i] == '/' {
                    lemma_scan_through(t, u, i + 1, Mode::Code, last);
                } else {
                    lemma_scan_through(t, u, i + 1, Mode::Block(t[i] == '*'), last);
                }
            },
        }
    }
}

/// The last character that is actual JSONC content, ignoring comments.
///
/// String contents count: a value ending in `"` is an entry that needs a
/// comma after it. Comments do not, which is the whole point — the extension
/// file Omarchy ships is an empty object wrapped in a page of examples.
pub fn last_significant_char(s: &str) -> (r: Option<char>)
    ensures
        r == significant_last(s@),
{
    let v = chars_of(s);
    let mut mode = Mode::Code;
    let mut last: Option<char> = None;
    let mut i: usize = 0;
    while i < v.len()
        invariant
            i <= v@.len(),
            v@ == s@,
            resume(v@, i as int, mode, last) == significant_last(s@),
        decreases v.len() - i,
    {
        let c = v[i];
        match mode {
            Mode::Code => {
                if c == '"' {
                    mode = Mode::Str;
                    last = Some(c);
                    i = i + 1;
                } else if c == '/' && i + 1 < v.len() && v[i + 1] == '/' {
                    mode = Mode::Line;
                    i = i + 2;
                } else if c == '/' && i + 1 < v.len() && v[i + 1] == '*' {
                    mode = Mode::Block(false);
                    i = i + 2;
                } else if is_whitespace(c) {
                    i = i + 1;
                } else {
                    last = Some(c);
                    i = i + 1;
                }
            },
            Mode::Str => {
                if c == '\\' {
                    mode = Mode::Escaped;
                } else if c == '"' {
                    mode = Mode::Code;
                }
                last = Some(c);
                i = i + 1;
            },
            Mode::Escaped => {
                mode = Mode::Str;
                last = Some(c);
                i = i + 1;
            },
            Mode::Line => {
                if c == '\n' {
                    mode = Mode::Code;
                }
                i = i + 1;
            },
            Mode::Block(star) => {
                if star && c == '/' {
                    mode = Mode::Code;
                } else {
                    mode = Mode::Block(c == '*');
                }
                i = i + 1;
            },
        }
    }
    last
}


// ── the menu extension ──────────────────────────────────────────────────────

/// What follows the end marker in `rest`; nothing when the marker is
/// missing.
pub open spec fn after_marker(rest: Seq<char>, end: Seq<char>) -> Seq<char> {
    match split_once(rest, end) {
        Some((_, a)) => a,
        None => Seq::empty(),
    }
}

/// Whether a separating comma is needed after `before`: its last content is
/// an entry, not an opening brace or a comma already.
pub open spec fn needs_comma(before: Seq<char>) -> bool {
    match significant_last(before) {
        Some(c) => c != ',' && c != '{',
        None => false,
    }
}

/// What goes between the text kept in front of a spliced block and the
/// block: a comma when an entry precedes it, straight after the text when it
/// counts as content there, else on a line of its own (the text ends in a
/// line comment, which would swallow it); a blank line when that text
/// already ends in a comma of the user's own, so that removal can tell it
/// from one splicing added and leave it; else a line break.
pub open spec fn separator_for(before: Seq<char>) -> Seq<char> {
    let t = trim_end(before);
    if needs_comma(before) {
        if significant_last(t + ",\n"@) == Some(',') {
            ",\n"@
        } else {
            "\n,\n"@
        }
    } else if t.len() > 0 && t.last() == ',' {
        "\n\n"@
    } else {
        "\n"@
    }
}

/// `existing` with `block` spliced in: in place of a block already between
/// the markers, or else just before the last closing brace, after the text
/// in front of the brace, trimmed, and its separator. `None` when there is
/// no closing brace.
pub open spec fn spliced(existing: Seq<char>, block: Seq<char>) -> Option<Seq<char>> {
    match split_once(existing, MENU_BEGIN@) {
        Some((before, rest)) => Some(before + block + after_marker(rest, MENU_END@)),
        None => match rfind_char(existing, '}') {
            Some(at) => {
                let before = existing.subrange(0, at);
                let after = existing.subrange(at, existing.len() as int);
                Some(trim_end(before) + separator_for(before) + block + "\n"@ + after)
            },
            None => None,
        },
    }
}

/// The text in front of a block, without the comma splicing added: only a
/// comma directly followed by the line break in front of the block is one,
/// since a comma of the user's own is set off by a blank line.
pub open spec fn without_added_comma(before: Seq<char>) -> Seq<char> {
    if ends_with(before, ",\n"@) {
        before.subrange(0, before.len() - 2)
    } else {
        before
    }
}

/// `existing` without the dock's block and the separator in front of it,
/// which become one line break; unchanged when there is no block.
pub open spec fn unspliced(existing: Seq<char>) -> Seq<char> {
    match split_once(existing, MENU_BEGIN@) {
        Some((before, rest)) => trim_end(without_added_comma(before)) + "\n"@ + trim_start_char(
            after_marker(rest, MENU_END@),
            '\n',
        ),
        None => existing,
    }
}

/// A block as the dock writes it: the `begin` marker, then its rows, then
/// the `end` marker, which first occurs at the very end.
pub open spec fn fenced_by(b: Seq<char>, begin: Seq<char>, end: Seq<char>) -> bool {
    let (bl, el) = (begin.len(), end.len());
    &&& b.len() >= bl + el
    &&& b.take(bl as int) == begin
    &&& find(b.skip(bl as int), end) == Some(b.len() - bl - el)
}

/// A menu block as the dock writes it.
pub open spec fn fenced(b: Seq<char>) -> bool {
    fenced_by(b, MENU_BEGIN@, MENU_END@)
}

/// Where a block is spliced into a file without one: before its last
/// closing brace.
pub open spec fn splice_point(x: Seq<char>) -> int {
    rfind_char(x, '}')->0
}

/// What stays in front of a spliced block: the text before the closing
/// brace, without trailing whitespace.
pub open spec fn splice_head(x: Seq<char>) -> Seq<char> {
    trim_end(x.subrange(0, splice_point(x)))
}

/// What separates the head from a spliced block.
pub open spec fn splice_sep(x: Seq<char>) -> Seq<char> {
    separator_for(x.subrange(0, splice_point(x)))
}

/// What follows a spliced block: the closing brace and the rest.
pub open spec fn splice_tail(x: Seq<char>) -> Seq<char> {
    x.subrange(splice_point(x), x.len() as int)
}

/// In a file spliced for the first time, the begin marker first occurs
/// where the block starts, and the end marker of the block is the first one
/// after it.
proof fn lemma_first_splice_parts(x: Seq<char>, b: Seq<char>)
    requires
        find(x, MENU_BEGIN@) is None,
        spliced(x, b) is Some,
        fenced(b),
    ensures
        split_once(spliced(x, b)->0, MENU_BEGIN@) matches Some((a, rest)) && a == splice_head(x)
            + splice_sep(x) && after_marker(rest, MENU_END@) == "\n"@ + splice_tail(x),
        spliced(x, b) == Some(splice_head(x) + splice_sep(x) + b + "\n"@ + splice_tail(x)),
        0 <= splice_point(x) < x.len() && x[splice_point(x)] == '}',
{
    let bm = MENU_BEGIN@;
    let em = MENU_END@;
    reveal_strlit("  // >>> omarchy-dock — managed block, edits are overwritten >>>");
    assert(forall|i: int| 0 <= i < bm.len() ==> bm[i] != '\n');
    assert(bm[bm.len() - 1] == '>');
    crate::text::lemma_rfind_bound(x, '}', x.len() as int);
    let before = x.subrange(0, splice_point(x));
    let t = splice_head(x);
    lemma_trim_end_prefix(before);
    let sep = splice_sep(x);
    reveal_strlit(",\n");
    reveal_strlit("\n,\n");
    reveal_strlit("\n\n");
    reveal_strlit("\n");
    assert(sep == ",\n"@ || sep == "\n,\n"@ || sep == "\n\n"@ || sep == "\n"@);
    assert(1 <= sep.len() <= 3 && sep[sep.len() - 1] == '\n');
    assert(forall|k: int| 0 <= k < sep.len() ==> (#[trigger] sep[k] == ',' || sep[k] == '\n'));
    let a = t + sep;
    let y = spliced(x, b)->0;
    assert(y =~= a + b + "\n"@ + splice_tail(x));
    let bl = bm.len() as int;
    assert(y.subrange(a.len() as int, a.len() + bl) =~= b.take(bl));
    lemma_find_from_first(x, bm, 0);
    assert forall|j: int| 0 <= j < a.len() implies !matches_at(y, bm, j) by {
        if matches_at(y, bm, j) {
            if j + bl <= t.len() {
                assert(y.subrange(j, j + bl) =~= x.subrange(j, j + bl)) by {
                    assert forall|q: int| 0 <= q < bl implies #[trigger] y.subrange(j, j + bl)[q]
                        == x.subrange(j, j + bl)[q] by {
                        assert(y[j + q] == t[j + q]);
                        assert(t[j + q] == before[j + q]);
                    }
                }
                assert(matches_at(x, bm, j));
            } else if j + bl >= a.len() {
                let q = a.len() - 1 - j;
                assert(y[a.len() - 1] == '\n');
                assert(y.subrange(j, j + bl)[q] == bm[q]);
            } else {
                let p = j + bl - 1;
                assert(t.len() <= p < a.len());
                assert(y[p] == sep[p - t.len()]);
                assert(sep[p - t.len()] == ',' || sep[p - t.len()] == '\n');
                assert(y.subrange(j, j + bl)[bl - 1] == bm[bl - 1]);
            }
        }
    }
    lemma_find_is(y, bm, a.len() as int);
    assert(y.subrange(0, a.len() as int) =~= a);
    let u = b.skip(bl);
    let v = "\n"@ + splice_tail(x);
    let rest = y.subrange(a.len() + bl, y.len() as int);
    assert(rest =~= u + v);
    let m = b.len() - bl - em.len();
    lemma_find_from_first(u, em, 0);
    lemma_matches_in_front(u, v, em, m);
    assert forall|j: int| 0 <= j < m implies !matches_at(rest, em, j) by {
        lemma_matches_in_front(u, v, em, j);
    }
    lemma_find_is(rest, em, m);
    assert(after_marker(rest, em) =~= v);
}

/// A block written as the begin marker, a line break, rows with no end
/// marker in them, a line break and the end marker is fenced: the laws
/// about reinstalling and uninstalling hold of every block of that shape.
pub proof fn lemma_written_blocks_are_fenced(rows: Seq<char>)
    requires
        find(rows, MENU_END@) is None,
    ensures
        fenced(MENU_BEGIN@ + "\n"@ + rows + "\n"@ + MENU_END@),
{
    let bm = MENU_BEGIN@;
    let em = MENU_END@;
    reveal_strlit("  // <<< omarchy-dock <<<");
    reveal_strlit("\n");
    assert(forall|i: int| 0 <= i < em.len() ==> em[i] != '\n');
    let b = bm + "\n"@ + rows + "\n"@ + em;
    let bl = bm.len() as int;
    let el = em.len() as int;
    assert(b.take(bl) =~= bm);
    let u = b.skip(bl);
    let m = rows.len() + 2int;
    let n = rows.len() as int;
    assert(u =~= "\n"@ + rows + "\n"@ + em);
    assert(u.subrange(m, m + el) =~= em);
    lemma_find_from_first(rows, em, 0);
    assert forall|j: int| 0 <= j < m implies !matches_at(u, em, j) by {
        if matches_at(u, em, j) {
            if j == 0 {
                assert(u.subrange(j, j + el)[0] == em[0]);
                assert(u[0] == '\n');
            } else if j + el <= n + 1 {
                assert(u.subrange(j, j + el) =~= rows.subrange(j - 1, j - 1 + el));
                assert(matches_at(rows, em, j - 1));
            } else {
                let q = n + 1 - j;
                assert(u[n + 1] == '\n');
                assert(u.subrange(j, j + el)[q] == em[q]);
            }
        }
    }
    lemma_find_is(u, em, m);
}

/// Installing the menu block again replaces the block rather than adding a
/// second one: splicing `b2` into a file that already had `b1` spliced in
/// gives what splicing `b2` into the untouched file gives.
pub proof fn lemma_reinstall_replaces_the_block(x: Seq<char>, b1: Seq<char>, b2: Seq<char>)
    requires
        find(x, MENU_BEGIN@) is None,
        spliced(x, b1) is Some,
        fenced(b1),
    ensures
        spliced(spliced(x, b1)->0, b2) == spliced(x, b2),
{
    lemma_first_splice_parts(x, b1);
    let y = spliced(x, b1)->0;
    assert(spliced(y, b2)->0 =~= spliced(x, b2)->0);
}

/// Trimming what is already trimmed changes nothing.
proof fn lemma_trim_end_trimmed(s: Seq<char>)
    ensures
        trim_end(trim_end(s)) == trim_end(s),
    decreases s.len(),
{
    if s.len() > 0 && is_ws(s.last()) {
        lemma_trim_end_trimmed(s.drop_last());
    }
}

/// Uninstalling restores what the user had, up to the whitespace before the
/// closing brace, which becomes one line break: removing a block spliced
/// into a file without one gives the file's text before its last closing
/// brace, trimmed, a line break, and the brace with what follows it. Only a
/// comma splicing added goes; one the user wrote stays. A file whose text
/// before the brace is already trimmed and ends in one line break comes back
/// exactly.
pub proof fn lemma_uninstall_restores(x: Seq<char>, b: Seq<char>)
    requires
        find(x, MENU_BEGIN@) is None,
        spliced(x, b) is Some,
        fenced(b),
    ensures
        unspliced(spliced(x, b)->0) == splice_head(x) + "\n"@ + splice_tail(x),
        x.subrange(0, splice_point(x)) == splice_head(x) + "\n"@ ==> unspliced(spliced(x, b)->0)
            == x,
{
    lemma_first_splice_parts(x, b);
    reveal_strlit(",\n");
    reveal_strlit("\n,\n");
    reveal_strlit("\n\n");
    reveal_strlit("\n");
    let t = splice_head(x);
    let tail = splice_tail(x);
    let sep = splice_sep(x);
    let nl_tail = "\n"@ + tail;
    assert(nl_tail.drop_first() =~= tail);
    assert(nl_tail[0] == '\n');
    assert(tail[0] == '}');
    assert(trim_start_char(tail, '\n') == tail);
    assert(trim_start_char(nl_tail, '\n') == tail);
    lemma_trim_end_trimmed(x.subrange(0, splice_point(x)));
    let a = t + sep;
    if needs_comma(x.subrange(0, splice_point(x))) {
        assert(a.subrange(a.len() - 2, a.len() as int) =~= ",\n"@);
        if sep == ",\n"@ {
            assert(a.subrange(0, a.len() - 2) =~= t);
        } else {
            let a1 = t + "\n"@;
            assert(a.subrange(0, a.len() - 2) =~= a1);
            assert(a1.drop_last() =~= t);
            assert(trim_end(a1) == t);
        }
    } else if t.len() > 0 && t.last() == ',' {
        assert(a.subrange(a.len() - 2, a.len() as int)[0] != ",\n"@[0]);
        let a1 = t + "\n"@;
        assert(a.drop_last() =~= a1);
        assert(a1.drop_last() =~= t);
        assert(trim_end(a1) == t);
        assert(trim_end(a) == t);
    } else {
        if a.len() >= 2 {
            assert(a.subrange(a.len() - 2, a.len() as int)[0] == t.last());
            assert(a.subrange(a.len() - 2, a.len() as int)[0] != ",\n"@[0]);
        }
        assert(a.drop_last() =~= t);
        assert(trim_end(a) == t);
    }
    assert(without_added_comma(a) == t || trim_end(without_added_comma(a)) == t);
    if x.subrange(0, splice_point(x)) == t + "\n"@ {
        assert(x =~= x.subrange(0, splice_point(x)) + tail);
    }
}

/// The comma splicing adds is content, never commented out: when an entry
/// precedes the block, the text kept in front of it ends in a comma that
/// counts, either straight after the entry or, where the entry's line ends
/// in a `//` comment, on a line of its own. Only text ending inside a string
/// or `/*` comment it leaves open, where no comma could count, is left out.
pub proof fn lemma_added_comma_is_content(x: Seq<char>)
    requires
        needs_comma(x.subrange(0, splice_point(x))),
        !open_at_end(splice_head(x)),
    ensures
        significant_last(splice_head(x) + splice_sep(x)) == Some(','),
{
    let t = splice_head(x);
    let u = "\n,\n"@;
    reveal_strlit("\n,\n");
    reveal_strlit(",\n");
    if splice_sep(x) == u {
        lemma_scan_through(t, u, 0, Mode::Code, None);
        let st = state_after(t, 0, Mode::Code, None);
        let s = t + u;
        let n = t.len() as int;
        assert(s[n] == '\n' && s[n + 1] == ',' && s[n + 2] == '\n' && s.len() == n + 3);
        assert(is_ws('\n') && !is_ws(','));
        assert(scan_code(s, n + 3, Some(',')) == Some(','));
        assert(scan_code(s, n + 2, Some(',')) == Some(','));
        assert(scan_code(s, n + 1, st.1) == Some(','));
        assert(scan_code(s, n, st.1) == Some(','));
        assert(scan_line(s, n, st.1) == Some(','));
    }
}

/// Uninstalling touches nothing it did not write: a menu extension without
/// the dock's block comes back unchanged, and a Hyprland config without the
/// blur block is not to be rewritten at all.
pub proof fn lemma_untouched_files_are_left_alone(menu: Seq<char>, hypr: Seq<char>)
    requires
        find(menu, MENU_BEGIN@) is None,
        find(hypr, HYPR_BEGIN@) is None,
    ensures
        unspliced(menu) == menu,
        without_blur(hypr) is None,
{
}

/// What follows `end` in `rest`, or nothing.
fn after_marker_exec(rest: &Vec<char>, end: &str) -> (r: Vec<char>)
    ensures
        r@ == after_marker(rest@, end@),
{
    match split_once_vec(rest, &chars_of(end)) {
        Some((_, a)) => a,
        None => Vec::new(),
    }
}

/// Splice the dock's block into the user's menu extension, between markers.
///
/// The file is shared with the user and may have anything in it, so it is
/// never rewritten: an existing block is replaced in place, so reinstalling
/// after an upgrade picks up new rows instead of duplicating old ones, and a
/// new one is inserted just before the closing brace, after a comma when an
/// entry precedes it (on a line of its own when the entry's line ends in a
/// `//` comment, which would swallow it), or after a blank line when the
/// user's last entry already has its own trailing comma, which removal then
/// leaves alone. Returns `None` when the file has no closing brace to insert before, which
/// means it is not something to edit.
pub fn splice_menu_block(existing: &str, block: &str) -> (r: Option<String>)
    ensures
        match r {
            Some(t) => spliced(existing@, block@) == Some(t@),
            None => spliced(existing@, block@) is None,
        },
{
    let ev = chars_of(existing);
    let bv = chars_of(block);
    if let Some((before, rest)) = split_once_vec(&ev, &chars_of(MENU_BEGIN)) {
        let after = after_marker_exec(&rest, MENU_END);
        return Some(string_of(&concat(&concat(&before, &bv), &after)));
    }
    let at = match rfind_char_vec(&ev, '}') {
        Some(at) => at,
        None => return None,
    };
    proof {
        crate::text::lemma_rfind_bound(ev@, '}', ev@.len() as int);
    }
    let before = slice_of(&ev, 0, at);
    let after = slice_of(&ev, at, ev.len());
    let comma = match last_significant_char(string_of(&before).as_str()) {
        Some(c) => c != ',' && c != '{',
        None => false,
    };
    let t = trim_end_vec(&before);
    let sep = if comma {
        let inline = chars_of(",\n");
        if last_significant_char(string_of(&concat(&t, &inline)).as_str()) == Some(',') {
            inline
        } else {
            chars_of("\n,\n")
        }
    } else if t.len() > 0 && t[t.len() - 1] == ',' {
        chars_of("\n\n")
    } else {
        chars_of("\n")
    };
    let head = concat(&concat(&t, &sep), &bv);
    Some(string_of(&concat(&concat(&head, &chars_of("\n")), &after)))
}

/// Remove the dock's block, leaving the rest of the file untouched.
///
/// The separator that was inserted goes with it, or the file would
/// accumulate blank lines and stray commas across install/uninstall cycles;
/// only the comma splicing added is taken, never one the user wrote.
pub fn remove_menu_block(existing: &str) -> (r: String)
    ensures
        r@ == unspliced(existing@),
{
    let ev = chars_of(existing);
    match split_once_vec(&ev, &chars_of(MENU_BEGIN)) {
        Some((before, rest)) => {
            let after = after_marker_exec(&rest, MENU_END);
            proof {
                reveal_strlit(",\n");
            }
            let kept = if ends_with_vec(&before, &chars_of(",\n")) {
                slice_of(&before, 0, before.len() - 2)
            } else {
                before
            };
            let b = trim_end_vec(&kept);
            let tail = trim_start_char_vec(&after, '\n');
            string_of(&concat(&concat(&b, &chars_of("\n")), &tail))
        },
        None => string_of(&ev),
    }
}


// ── what gets installed ─────────────────────────────────────────────────────

/// The rows added to the Omarchy menu. Dotted ids give the tree its shape,
/// so `dock.settings` lands inside `dock` and `dock` lands on the root menu.
/// Glyphs are Nerd Font codepoints written as escapes, so the file stays
/// plain ASCII.
pub const MENU_ROW_DOCK: &'static str = r#""dock": {"icon":"\uf07c","label":"Dock","description":"Application dock"}"#;

pub const MENU_ROW_REVEAL: &'static str = r#""dock.reveal": {"icon":"\uf06e","label":"Reveal","action":"omarchy-dockctl reveal"}"#;

pub const MENU_ROW_AUTOHIDE: &'static str = r#""dock.toggle_autohide": {"icon":"\uf070","label":"Toggle auto-hide","action":"omarchy-dockctl toggle-autohide"}"#;

pub const MENU_ROW_SETTINGS: &'static str = r#""dock.settings": {"icon":"\uf013","label":"Settings","description":"Edit config.toml","action":"omarchy-launch-config-editor ~/.config/omarchy-dock/config.toml"}"#;

pub const MENU_ROW_RELOAD: &'static str = r#""dock.reload": {"icon":"\uf021","label":"Reload","description":"Re-read config and rebuild","action":"omarchy-dockctl reload"}"#;

pub const MENU_ROW_RESTART: &'static str = r#""dock.restart": {"icon":"\uf01e","label":"Restart","action":"pkill -x omarchy-dock; setsid uwsm-app -- omarchy-dock >/dev/null 2>&1 &"}"#;

pub open spec fn menu_rows() -> Seq<Seq<char>> {
    seq![
        MENU_ROW_DOCK@,
        MENU_ROW_REVEAL@,
        MENU_ROW_AUTOHIDE@,
        MENU_ROW_SETTINGS@,
        MENU_ROW_RELOAD@,
        MENU_ROW_RESTART@,
    ]
}

/// Each row on a line of its own, indented to match the file, with a
/// trailing comma on every row: JSONC allows it, and it lets the block be
/// removed without touching what follows.
pub open spec fn rows_text(rows: Seq<Seq<char>>) -> Seq<char>
    decreases rows.len(),
{
    if rows.len() == 0 {
        Seq::empty()
    } else {
        rows_text(rows.drop_last()) + "\n  "@ + rows.last() + ","@
    }
}

pub open spec fn menu_text() -> Seq<char> {
    MENU_BEGIN@ + rows_text(menu_rows()) + "\n"@ + MENU_END@
}

/// The dock's block for the Omarchy menu, between its markers.
pub fn menu_block() -> (r: String)
    ensures
        r@ == menu_text(),
{
    let mut rows: Vec<&str> = Vec::new();
    rows.push(MENU_ROW_DOCK);
    rows.push(MENU_ROW_REVEAL);
    rows.push(MENU_ROW_AUTOHIDE);
    rows.push(MENU_ROW_SETTINGS);
    rows.push(MENU_ROW_RELOAD);
    rows.push(MENU_ROW_RESTART);
    let ghost rv = rows@.map_values(|r: &str| r@);
    assert(rv =~= menu_rows());
    let mut out = chars_of(MENU_BEGIN);
    let mut i: usize = 0;
    while i < rows.len()
        invariant
            i <= rows@.len(),
            rv == rows@.map_values(|r: &str| r@),
            out@ == MENU_BEGIN@ + rows_text(rv.take(i as int)),
        decreases rows.len() - i,
    {
        assert(rv.take(i + 1).drop_last() =~= rv.take(i as int));
        let line = concat(&concat(&chars_of("\n  "), &chars_of(rows[i])), &chars_of(","));
        let ghost before = out@;
        out = concat(&out, &line);
        assert(out@ =~= before + "\n  "@ + rv[i as int] + ","@);
        i = i + 1;
    }
    assert(rv.take(rows.len() as int) =~= rv);
    string_of(&concat(&concat(&out, &chars_of("\n")), &chars_of(MENU_END)))
}

/// The `theme-set` hook. Omarchy runs every executable in `theme-set.d`
/// after applying a theme, once all of the theme's files are in place, so
/// the dock can never restyle from a half-written theme.
///
/// Not `exec … || true`: exec replaces the shell, so the `|| true` would
/// never run and a missing `omarchy-dockctl` would turn every theme change
/// into a failing hook.
pub const HOOK_SCRIPT: &'static str = "#!/usr/bin/env bash\n\
     # Installed by omarchy-dock. Removed by `omarchy-dockctl uninstall`.\n\
     #\n\
     # Omarchy runs this after a theme is fully applied, which is the only\n\
     # moment every theme file is guaranteed to be written. Restyling here\n\
     # rather than on an inotify event means the dock can never pick up a\n\
     # half-written theme.\n\
     #\n\
     # Best-effort throughout: the dock may not be installed or not running,\n\
     # and neither may make a theme change fail.\n\
     if command -v omarchy-dockctl >/dev/null 2>&1; then\n\
     \x20 omarchy-dockctl restyle >/dev/null 2>&1 || true\n\
     fi\n\
     exit 0\n";

pub fn hook_script() -> (r: String)
    ensures
        r@ == HOOK_SCRIPT@,
{
    string_of(&chars_of(HOOK_SCRIPT))
}

pub const MANIFEST_HEAD: &'static str = "{\n  \"schemaVersion\": 1,\n  \"id\": \"";

pub const MANIFEST_NAME: &'static str = "\",\n  \"name\": \"Omarchy Dock\",\n  \"version\": \"";

pub const MANIFEST_TAIL: &'static str = "\",\n  \"license\": \"MIT\",\n  \"description\": \"macOS-style application dock drawn with the Omarchy shell's own design tokens.\",\n  \"kinds\": [\n    \"service\"\n  ],\n  \"entryPoints\": {\n    \"service\": \"Service.qml\"\n  },\n  \"tags\": [\n    \"dock\",\n    \"launcher\",\n    \"hyprland\"\n  ]\n}\n";

/// The shell plugin's manifest, for dock version `version`. The dock is a
/// separate process, so the plugin is a supervisor service.
pub fn plugin_manifest(version: &str) -> (r: String)
    ensures
        r@ == MANIFEST_HEAD@ + PLUGIN_ID@ + MANIFEST_NAME@ + version@ + MANIFEST_TAIL@,
{
    let head = concat(&chars_of(MANIFEST_HEAD), &chars_of(PLUGIN_ID));
    let mid = concat(&concat(&head, &chars_of(MANIFEST_NAME)), &chars_of(version));
    string_of(&concat(&mid, &chars_of(MANIFEST_TAIL)))
}

/// The plugin's service: it only decides whether the dock runs, so that
/// Omarchy's plugin manager is the single switch a user reaches for.
pub const SERVICE_QML: &'static str = r#"import QtQuick
import Quickshell.Io

// Installed by omarchy-dock. Removed by `omarchy-dockctl uninstall`.
//
// omarchy-dock is a separate GTK4 layer-shell process rather than QML, so this
// plugin supervises it instead of drawing it: enabling the plugin starts the
// dock, disabling it stops the dock. That is what makes the dock appear in
// `omarchy menu plugin` and the plugin managers alongside every other
// component, and gives it an autostart tied to the shell's own lifecycle.
Item {
  id: root

  // Injected by omarchy-shell's service loader.
  property var shell: null

  // Start only if one is not already running: the user may have launched the
  // dock by hand, and two docks would fight over the control socket.
  //
  // The missing-binary case is handled explicitly rather than left to fail.
  // `omarchy plugin add` only clones a repo — it never builds anything — so a
  // plugin installed on its own has no binary behind it, and a bare
  // "command not found" at login says nothing about what to do next.
  Process {
    id: starter
    command: ["bash", "-lc",
      "if ! command -v omarchy-dock >/dev/null 2>&1; then " +
        "omarchy notification send --app-name Dock -u critical " +
        "'Dock is not installed' " +
        "'This plugin is only the supervisor. Install the dock with: omarchy pkg aur add omarchy-dock-bin'; " +
        "exit 0; " +
      "fi; " +
      "pgrep -x omarchy-dock >/dev/null || setsid uwsm-app -- omarchy-dock >/dev/null 2>&1 &"]
    running: true
  }

  Process {
    id: stopper
    command: ["pkill", "-x", "omarchy-dock"]
  }

  // Stopping on teardown is what makes disabling the plugin actually disable
  // the dock, rather than leaving an orphan running until the next login.
  Component.onDestruction: stopper.running = true
}
"#;

pub fn plugin_service_qml() -> (r: String)
    ensures
        r@ == SERVICE_QML@,
{
    string_of(&chars_of(SERVICE_QML))
}

// ── the Hyprland blur rule ──────────────────────────────────────────────────

/// The blur setup the glass style needs: Omarchy ships blur disabled
/// globally, and Hyprland's per-layer blur does nothing until the subsystem
/// is on, so this turns it on and opts only the dock's own layer in.
pub const HYPR_BODY: &'static str = "-- Only needed for `theme.style = \"glass\"`. The Omarchy style is opaque\n\
     -- and needs none of this. Remove with `omarchy-dockctl uninstall`.\n\
     --\n\
     -- Omarchy ships blur disabled globally, and Hyprland's per-layer blur\n\
     -- does nothing until the subsystem is on — so this turns it on, then\n\
     -- opts only the dock's own layer into it.\n\
     hl.config({ decoration = { blur = { enabled = true, size = 6, passes = 3 } } })\n\
     hl.layer_rule({ match = { namespace = \"^omarchy-dock$\" }, blur = true, ignore_alpha = 0.2 })\n";

pub open spec fn hypr_text() -> Seq<char> {
    HYPR_BEGIN@ + "\n"@ + HYPR_BODY@ + HYPR_END@
}

pub fn hypr_block() -> (r: String)
    ensures
        r@ == hypr_text(),
{
    let head = concat(&chars_of(HYPR_BEGIN), &chars_of("\n"));
    string_of(&concat(&concat(&head, &chars_of(HYPR_BODY)), &chars_of(HYPR_END)))
}

/// `existing` Hyprland config with `block` in it: replacing a block already
/// between the markers, so an upgrade picks up a changed rule, or appended
/// after a blank line.
pub open spec fn with_blur(existing: Seq<char>, block: Seq<char>) -> Seq<char> {
    match split_once(existing, HYPR_BEGIN@) {
        Some((before, rest)) => before + block + after_marker(rest, HYPR_END@),
        None => trim_end(existing) + "\n\n"@ + block + "\n"@,
    }
}

pub fn blur_config(existing: &str, block: &str) -> (r: String)
    ensures
        r@ == with_blur(existing@, block@),
{
    let ev = chars_of(existing);
    let bv = chars_of(block);
    match split_once_vec(&ev, &chars_of(HYPR_BEGIN)) {
        Some((before, rest)) => {
            let after = after_marker_exec(&rest, HYPR_END);
            string_of(&concat(&concat(&before, &bv), &after))
        },
        None => {
            let head = concat(&concat(&trim_end_vec(&ev), &chars_of("\n\n")), &bv);
            string_of(&concat(&head, &chars_of("\n")))
        },
    }
}

/// `existing` without the dock's blur block, or `None` when it has none and
/// the file is to be left as it is.
pub open spec fn without_blur(existing: Seq<char>) -> Option<Seq<char>> {
    match split_once(existing, HYPR_BEGIN@) {
        Some((before, rest)) => Some(
            trim_end(before) + "\n"@ + trim_start_char(after_marker(rest, HYPR_END@), '\n'),
        ),
        None => None,
    }
}

/// In a file given the blur block for the first time, the begin marker
/// first occurs where the block starts, and what follows the block's end
/// marker is the one line break appended after it.
proof fn lemma_first_blur_parts(x: Seq<char>, b: Seq<char>)
    requires
        find(x, HYPR_BEGIN@) is None,
        fenced_by(b, HYPR_BEGIN@, HYPR_END@),
    ensures
        split_once(with_blur(x, b), HYPR_BEGIN@) matches Some((a, rest)) && a == trim_end(x)
            + "\n\n"@ && after_marker(rest, HYPR_END@) == "\n"@,
{
    let bm = HYPR_BEGIN@;
    let em = HYPR_END@;
    reveal_strlit("-- >>> omarchy-dock — managed block, edits are overwritten >>>");
    reveal_strlit("\n\n");
    reveal_strlit("\n");
    assert(forall|i: int| 0 <= i < bm.len() ==> bm[i] != '\n');
    let t = trim_end(x);
    lemma_trim_end_prefix(x);
    let a = t + "\n\n"@;
    let y = with_blur(x, b);
    assert(y =~= a + b + "\n"@);
    let bl = bm.len() as int;
    assert(y.subrange(a.len() as int, a.len() + bl) =~= b.take(bl));
    lemma_find_from_first(x, bm, 0);
    assert forall|j: int| 0 <= j < a.len() implies !matches_at(y, bm, j) by {
        if matches_at(y, bm, j) {
            if j + bl <= t.len() {
                assert(y.subrange(j, j + bl) =~= x.subrange(j, j + bl)) by {
                    assert forall|q: int| 0 <= q < bl implies #[trigger] y.subrange(j, j + bl)[q]
                        == x.subrange(j, j + bl)[q] by {
                        assert(y[j + q] == t[j + q]);
                        assert(t[j + q] == x[j + q]);
                    }
                }
                assert(matches_at(x, bm, j));
            } else {
                let at = if j <= t.len() {
                    t.len() as int
                } else {
                    t.len() + 1int
                };
                assert(y[at] == '\n');
                assert(y.subrange(j, j + bl)[at - j] == bm[at - j]);
            }
        }
    }
    lemma_find_is(y, bm, a.len() as int);
    assert(y.subrange(0, a.len() as int) =~= a);
    let u = b.skip(bl);
    let v = "\n"@;
    let rest = y.subrange(a.len() + bl, y.len() as int);
    assert(rest =~= u + v);
    let m = b.len() - bl - em.len();
    lemma_find_from_first(u, em, 0);
    lemma_matches_in_front(u, v, em, m);
    assert forall|j: int| 0 <= j < m implies !matches_at(rest, em, j) by {
        lemma_matches_in_front(u, v, em, j);
    }
    lemma_find_is(rest, em, m);
    assert(after_marker(rest, em) =~= v);
}

/// Installing the blur rule again replaces it rather than adding a second
/// one: writing `b2` into a config that already had `b1` written in gives
/// what writing `b2` into the untouched config gives.
pub proof fn lemma_blur_reinstall_replaces_the_block(x: Seq<char>, b1: Seq<char>, b2: Seq<char>)
    requires
        find(x, HYPR_BEGIN@) is None,
        fenced_by(b1, HYPR_BEGIN@, HYPR_END@),
    ensures
        with_blur(with_blur(x, b1), b2) == with_blur(x, b2),
{
    lemma_first_blur_parts(x, b1);
    lemma_trim_end_trimmed(x);
    reveal_strlit("\n\n");
    reveal_strlit("\n");
    let t = trim_end(x);
    let tt = t + "\n\n"@;
    assert(tt.drop_last().drop_last() =~= t);
    assert(trim_end(tt.drop_last()) == trim_end(t));
    assert(trim_end(tt) == t);
    assert(with_blur(with_blur(x, b1), b2) =~= t + "\n\n"@ + b2 + "\n"@);
}

/// Removing the blur rule gives back the config as it was before it was
/// written, up to its trailing whitespace, which becomes one line break.
pub proof fn lemma_blur_uninstall_restores(x: Seq<char>, b: Seq<char>)
    requires
        find(x, HYPR_BEGIN@) is None,
        fenced_by(b, HYPR_BEGIN@, HYPR_END@),
    ensures
        without_blur(with_blur(x, b)) == Some(trim_end(x) + "\n"@),
{
    lemma_first_blur_parts(x, b);
    lemma_trim_end_trimmed(x);
    reveal_strlit("\n\n");
    reveal_strlit("\n");
    let t = trim_end(x);
    let tt = t + "\n\n"@;
    assert(tt.drop_last().drop_last() =~= t);
    assert(trim_end(tt.drop_last()) == trim_end(t));
    assert(trim_end(tt) == t);
    let nl = "\n"@;
    let none = Seq::<char>::empty();
    assert(nl.drop_first() =~= none);
    assert(nl[0] == '\n');
    assert(trim_start_char(none, '\n') == none);
    assert(trim_start_char(nl, '\n') == none);
    assert(without_blur(with_blur(x, b))->0 =~= t + "\n"@);
}

pub fn remove_blur_block(existing: &str) -> (r: Option<String>)
    ensures
        match r {
            Some(t) => without_blur(existing@) == Some(t@),
            None => without_blur(existing@) is None,
        },
{
    let ev = chars_of(existing);
    match split_once_vec(&ev, &chars_of(HYPR_BEGIN)) {
        Some((before, rest)) => {
            let after = after_marker_exec(&rest, HYPR_END);
            let head = concat(&trim_end_vec(&before), &chars_of("\n"));
            Some(string_of(&concat(&head, &trim_start_char_vec(&after, '\n'))))
        },
        None => None,
    }
}

pub const BLUR_OK_NOTE: &'static str = "global blur on, dock layer opted in — needed only by `theme.style = \"glass\"`";

pub const BLUR_ERRORS_NOTE: &'static str = "Hyprland reports config errors after this: ";

/// What to say after writing the blur rule, given what `hyprctl
/// configerrors` printed: Hyprland reloads on save, so its verdict on the
/// new config is passed on rather than a broken config left behind silently.
pub open spec fn blur_note_of(output: Seq<char>) -> Seq<char> {
    let errors = trim(output);
    if errors.len() == 0 || errors == "no errors"@ {
        BLUR_OK_NOTE@
    } else {
        BLUR_ERRORS_NOTE@ + errors
    }
}

pub fn blur_note(output: &str) -> (r: String)
    ensures
        r@ == blur_note_of(output@),
{
    let errors = trim_vec(&chars_of(output));
    if errors.len() == 0 || seq_eq(&errors, &chars_of("no errors")) {
        string_of(&chars_of(BLUR_OK_NOTE))
    } else {
        string_of(&concat(&chars_of(BLUR_ERRORS_NOTE), &errors))
    }
}

/// Whether Hyprland reports blur on, from `hyprctl getoption
/// decoration:blur:enabled`: the option's value comes typed, under `bool` or
/// under `int`, and reading the wrong one would silently yield false.
pub fn blur_reported(as_bool: Option<bool>, as_int: Option<i64>) -> (r: bool)
    ensures
        r == match as_bool {
            Some(b) => b,
            None => as_int == Some(1i64),
        },
{
    match as_bool {
        Some(b) => b,
        None => match as_int {
            Some(n) => n == 1,
            None => false,
        },
    }
}

// ── the shell plugin's files ────────────────────────────────────────────────

/// What installing or uninstalling does with the plugin's directory.
#[derive(Debug, Clone, Copy, PartialEq, Eq, Structural)]
pub enum PluginFiles {
    /// Write the manifest and the service into it.
    Write,
    /// Delete it.
    Remove,
    /// Leave it be.
    Leave,
}

/// A plugin directory that is a git checkout belongs to `omarchy plugin`,
/// which updates and removes it: install skips it, so `omarchy plugin
/// update` keeps working, and uninstall does not delete it. Any other
/// plugin directory is the dock's to write and to delete.
pub fn plugin_files(installing: bool, git_checkout: bool) -> (r: PluginFiles)
    ensures
        r == if git_checkout {
            PluginFiles::Leave
        } else if installing {
            PluginFiles::Write
        } else {
            PluginFiles::Remove
        },
{
    if git_checkout {
        PluginFiles::Leave
    } else if installing {
        PluginFiles::Write
    } else {
        PluginFiles::Remove
    }
}

// ── the shell plugin's switch ───────────────────────────────────────────────

/// How `shell.json`'s `plugins` list changes to enable or disable the dock.
#[derive(Debug, Clone, Copy, PartialEq, Eq, Structural)]
pub enum PluginChange {
    /// Add `{ "id": PLUGIN_ID }` at the end.
    Append,
    /// Drop the entry at this position.
    Remove(usize),
    /// Already in the state wanted.
    Keep,
}

/// The first entry whose id is the dock's.
pub open spec fn plugin_position(ids: Seq<Option<Seq<char>>>) -> Option<int>
    decreases ids.len(),
{
    if ids.len() == 0 {
        None
    } else {
        match plugin_position(ids.drop_last()) {
            Some(i) => Some(i),
            None => if ids.last() == Some(PLUGIN_ID@) {
                Some(ids.len() - 1)
            } else {
                None
            },
        }
    }
}

/// Disabling the plugin undoes enabling it: when the list does not name
/// the dock, enabling appends an entry that names it, which disabling then
/// finds, at the end, and removes, giving the list back as it was.
pub proof fn lemma_plugin_switch_round_trip(ids: Seq<Option<Seq<char>>>)
    requires
        plugin_position(ids) is None,
    ensures
        plugin_position(ids.push(Some(PLUGIN_ID@))) == Some(ids.len() as int),
        ids.push(Some(PLUGIN_ID@)).remove(ids.len() as int) == ids,
{
    assert(ids.push(Some(PLUGIN_ID@)).drop_last() =~= ids);
    assert(ids.push(Some(PLUGIN_ID@)).remove(ids.len() as int) =~= ids);
}

/// The first entry of `ids` naming the dock.
fn find_plugin(ids: &Vec<Option<String>>) -> (r: Option<usize>)
    ensures
        match r {
            Some(k) => plugin_position(opt_strings(ids@)) == Some(k as int) && k < ids@.len(),
            None => plugin_position(opt_strings(ids@)) is None,
        },
{
    let ghost v = opt_strings(ids@);
    let mut i: usize = 0;
    while i < ids.len()
        invariant
            i <= ids@.len(),
            v == opt_strings(ids@),
            plugin_position(v.take(i as int)) is None,
        decreases ids.len() - i,
    {
        assert(v.take(i + 1).drop_last() =~= v.take(i as int));
        let hit = match &ids[i] {
            Some(s) => seq_eq(&chars_of(s.as_str()), &chars_of(PLUGIN_ID)),
            None => false,
        };
        assert(v.take(i + 1).last() == v[i as int]);
        if hit {
            proof {
                lemma_position_prefix(v, i + 1);
            }
            return Some(i);
        }
        i = i + 1;
    }
    assert(v.take(ids@.len() as int) =~= v);
    None
}

/// The change that turns the plugin `on` or off, given the `id` of each
/// entry of the `plugins` list (`None` for an entry without a string id).
/// The shell treats "enabled" as "referenced in shell.json".
pub fn plugin_change(on: bool, ids: &Vec<Option<String>>) -> (r: PluginChange)
    ensures
        match (on, plugin_position(opt_strings(ids@))) {
            (true, None) => r == PluginChange::Append,
            (false, Some(i)) => r == PluginChange::Remove(i as usize) && 0 <= i < ids@.len(),
            _ => r == PluginChange::Keep,
        },
{
    match (on, find_plugin(ids)) {
        (true, None) => PluginChange::Append,
        (false, Some(i)) => PluginChange::Remove(i),
        _ => PluginChange::Keep,
    }
}

proof fn lemma_position_prefix(ids: Seq<Option<Seq<char>>>, n: int)
    requires
        0 <= n <= ids.len(),
        plugin_position(ids.take(n)) is Some,
    ensures
        plugin_position(ids) == plugin_position(ids.take(n)),
    decreases ids.len() - n,
{
    if n < ids.len() {
        assert(ids.take(n + 1).drop_last() =~= ids.take(n));
        lemma_position_prefix(ids, n + 1);
    } else {
        assert(ids.take(n) =~= ids);
    }
}

/// Whether `shell.json`'s plugin ids reference the dock.
pub fn plugin_listed(ids: &Vec<Option<String>>) -> (r: bool)
    ensures
        r == plugin_position(opt_strings(ids@)) is Some,
{
    plugin_change(false, ids) != PluginChange::Keep
}


// ── reading and editing `shell.json` ────────────────────────────────────────

/// What `shell.json`'s text says of its `plugins` list: `None` when the text
/// is not JSON; `Some(None)` when it is not an object, or its `plugins` is
/// not a list; else the `id` of each entry of the list, where that is a
/// string, an absent list reading as an empty one.
pub uninterp spec fn json_plugin_ids(text: Seq<char>) -> Option<Option<Seq<Option<Seq<char>>>>>;

/// `shell.json`'s text with an entry `{"id": id}` added at the end of its
/// `plugins` list (the list created when absent), as serde_json
/// pretty-prints it.
pub uninterp spec fn json_plugin_added(text: Seq<char>, id: Seq<char>) -> Seq<char>;

/// `shell.json`'s text with the entry at position `i` of its `plugins` list
/// taken out, as serde_json pretty-prints it.
pub uninterp spec fn json_plugin_removed(text: Seq<char>, i: int) -> Seq<char>;

/// Parses `text` with `serde_json::from_str` into a `Value` and reads its
/// `plugins` entry: each element's `id`, by `Value::get` and
/// `Value::as_str`. Claimed: the result is `json_plugin_ids` of the text,
/// a name for what serde_json computes from the text alone.
#[verifier::external_body]
fn shell_plugin_ids(text: &str) -> (r: Option<Option<Vec<Option<String>>>>)
    ensures
        json_plugin_ids(text@) == match r {
            None => None,
            Some(None) => Some(None),
            Some(Some(v)) => Some(Some(opt_strings(v@))),
        },
{
    let Ok(v) = serde_json::from_str::<serde_json::Value>(text) else { return None };
    let Some(obj) = v.as_object() else { return Some(None) };
    let Some(list) = obj.get("plugins") else { return Some(Some(Vec::new())) };
    Some(list.as_array().map(|l| {
        l.iter().map(|e| e.get("id").and_then(|i| i.as_str()).map(str::to_owned)).collect()
    }))
}

/// Parses `text` with `serde_json::from_str`, pushes `{"id": id}` onto its
/// `plugins` list (`Map::entry` inserting an empty list when absent), and
/// prints the result with `serde_json::to_string_pretty`. Claimed: the result
/// is `json_plugin_added` of the text and the id.
#[verifier::external_body]
fn json_with_plugin(text: &str, id: &str) -> (r: String)
    ensures
        r@ == json_plugin_added(text@, id@),
{
    let Ok(mut v) = serde_json::from_str::<serde_json::Value>(text) else { return String::new() };
    let plugins = v.as_object_mut().map(|o| o.entry("plugins").or_insert_with(|| serde_json::Value::Array(Vec::new())));
    if let Some(list) = plugins.and_then(|p| p.as_array_mut()) {
        let mut entry = serde_json::Map::new();
        entry.insert("id".to_string(), serde_json::Value::String(id.to_string()));
        list.push(serde_json::Value::Object(entry));
    }
    serde_json::to_string_pretty(&v).unwrap_or_default()
}

/// Parses `text` with `serde_json::from_str`, removes element `i` of its
/// `plugins` list with `Vec::remove` (which panics past the end, hence the
/// requirement), and prints the result with `serde_json::to_string_pretty`.
/// Claimed: the result is `json_plugin_removed` of the text and `i`.
#[verifier::external_body]
fn json_without_plugin(text: &str, i: usize) -> (r: String)
    requires
        json_plugin_ids(text@) matches Some(Some(ids)) && i < ids.len(),
    ensures
        r@ == json_plugin_removed(text@, i as int),
{
    let Ok(mut v) = serde_json::from_str::<serde_json::Value>(text) else { return String::new() };
    if let Some(list) = v.get_mut("plugins").and_then(|p| p.as_array_mut()) {
        list.remove(i);
    }
    serde_json::to_string_pretty(&v).unwrap_or_default()
}

/// `shell.json` is not JSON.
#[derive(Debug, Clone, Copy, PartialEq, Eq, Structural)]
pub struct NotJson;

/// Whether `shell.json`'s text references the dock's plugin: only through a
/// `plugins` list of an object.
pub fn plugin_enabled_in(shell_json: &str) -> (r: bool)
    ensures
        r == match json_plugin_ids(shell_json@) {
            Some(Some(ids)) => plugin_position(ids) is Some,
            _ => false,
        },
{
    match shell_plugin_ids(shell_json) {
        Some(Some(ids)) => plugin_listed(&ids),
        _ => false,
    }
}

/// The new text of `shell.json` that turns the plugin `on` or off: the file
/// as serde_json prints it with the dock's entry added or removed, and a
/// final line break; `None` when nothing is to be written (the plugin is
/// already as wanted, or the text is not an object with a `plugins` list);
/// an error when the text is not JSON.
pub fn shell_json_after(shell_json: &str, on: bool) -> (r: Result<Option<String>, NotJson>)
    ensures
        match json_plugin_ids(shell_json@) {
            None => r is Err,
            Some(None) => r matches Ok(None),
            Some(Some(ids)) => match (on, plugin_position(ids)) {
                (true, None) => r matches Ok(Some(t)) && t@ == json_plugin_added(
                    shell_json@,
                    PLUGIN_ID@,
                ).push('\n'),
                (false, Some(i)) => r matches Ok(Some(t)) && t@ == json_plugin_removed(
                    shell_json@,
                    i,
                ).push('\n'),
                _ => r matches Ok(None),
            },
        },
{
    match shell_plugin_ids(shell_json) {
        None => Err(NotJson),
        Some(None) => Ok(None),
        Some(Some(ids)) => match plugin_change(on, &ids) {
            PluginChange::Append => {
                let mut t = json_with_plugin(shell_json, PLUGIN_ID);
                push_char(&mut t, '\n');
                Ok(Some(t))
            },
            PluginChange::Remove(i) => {
                assert(opt_strings(ids@).len() == ids@.len());
                assert(ids@.len() == ids.len());
                let mut t = json_without_plugin(shell_json, i);
                push_char(&mut t, '\n');
                Ok(Some(t))
            },
            PluginChange::Keep => Ok(None),
        },
    }
}

/// What `hyprctl getoption … -j` prints of an option's value: `None` when
/// the output is not JSON, else its `bool` field and its `int` field, each
/// where it holds one of those.
pub uninterp spec fn json_blur_fields(out: Seq<u8>) -> Option<(Option<bool>, Option<i64>)>;

/// Parses `out` with `serde_json::from_slice` into a `Value` and reads its
/// `bool` and `int` fields with `Value::get`, `as_bool` and `as_i64`.
/// Claimed: the result is `json_blur_fields` of the bytes.
#[verifier::external_body]
fn blur_fields(out: &[u8]) -> (r: Option<(Option<bool>, Option<i64>)>)
    ensures
        r == json_blur_fields(out@),
{
    let v = serde_json::from_slice::<serde_json::Value>(out).ok()?;
    Some((v.get("bool").and_then(|b| b.as_bool()), v.get("int").and_then(|n| n.as_i64())))
}

/// Whether Hyprland's answer to `hyprctl getoption decoration:blur:enabled
/// -j` reports blur on; output that is not JSON reports it off.
pub fn blur_enabled_in(out: &[u8]) -> (r: bool)
    ensures
        r == match json_blur_fields(out@) {
            Some((b, n)) => match b {
                Some(b) => b,
                None => n == Some(1i64),
            },
            None => false,
        },
{
    match blur_fields(out) {
        Some((b, n)) => blur_reported(b, n),
        None => false,
    }
}

} // verus!
