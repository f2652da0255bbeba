//! Dispatchers.
//!
//! Hyprland 0.56 replaced the classic `/dispatch <name> <args>` protocol with
//! Lua: the socket now evaluates `hl.dsp.*` expressions. This module builds
//! those expressions and judges Hyprland's reply; sending them is the
//! application's job.
//!
//! **Every dispatcher here targets an explicit window.** The bare forms
//! (`hl.dsp.window.close()`, `.move()`, …) act on whatever is *currently
//! focused*, which is almost never what a dock click means — the user clicked
//! a specific icon, and focus may have moved since.
use vstd::prelude::*;
use super::Address;
use crate::text::{
    chars_of, concat, eq_ignore_ascii_case, eq_ignore_ascii_case_vec, push_char, string_of, trim,
    trim_vec,
};

verus! {

/// `s` with each backslash and single quote escaped by a backslash.
pub open spec fn lua_escaped(s: Seq<char>) -> Seq<char>
    decreases s.len(),
{
    if s.len() == 0 {
        s
    } else {
        let c = s.last();
        lua_escaped(s.drop_last()) + if c == '\\' || c == '\'' {
            seq!['\\', c]
        } else {
            seq![c]
        }
    }
}

/// `s` as a single-quoted Lua literal.
pub open spec fn lua_literal(s: Seq<char>) -> Seq<char> {
    seq!['\''] + lua_escaped(s) + seq!['\'']
}

/// The text the body of a single-quoted Lua literal stands for, reading a
/// backslash as escaping the character after it; `None` when the body is not
/// one: a bare quote would close the literal early, or a backslash ends it.
pub open spec fn lua_body(t: Seq<char>) -> Option<Seq<char>>
    decreases t.len(),
{
    if t.len() == 0 {
        Some(t)
    } else if t[0] == '\\' {
        if t.len() < 2 {
            None
        } else {
            match lua_body(t.subrange(2, t.len() as int)) {
                Some(r) => Some(seq![t[1]] + r),
                None => None,
            }
        }
    } else if t[0] == '\'' {
        None
    } else {
        match lua_body(t.drop_first()) {
            Some(r) => Some(seq![t[0]] + r),
            None => None,
        }
    }
}

spec fn escape_one(c: char) -> Seq<char> {
    if c == '\\' || c == '\'' {
        seq!['\\', c]
    } else {
        seq![c]
    }
}

proof fn lemma_escaped_front(s: Seq<char>)
    requires
        s.len() > 0,
    ensures
        lua_escaped(s) == escape_one(s[0]) + lua_escaped(s.drop_first()),
    decreases s.len(),
{
    if s.len() == 1 {
        assert(s.drop_last() =~= Seq::<char>::empty());
        assert(s.drop_first() =~= Seq::<char>::empty());
        assert(lua_escaped(s) =~= escape_one(s[0]));
    } else {
        let d = s.drop_last();
        lemma_escaped_front(d);
        assert(d.drop_first() =~= s.drop_first().drop_last());
        assert(s.drop_first().last() == s.last());
        assert(lua_escaped(s) =~= escape_one(s[0]) + lua_escaped(s.drop_first()));
    }
}

/// What `lua_str` quotes, Lua reads back unchanged: the escaped text is a
/// literal body that stands for exactly `s`, so no quote or backslash in
/// `s` can end the literal early or change what it says.
pub proof fn lemma_lua_literal_reads_back(s: Seq<char>)
    ensures
        lua_body(lua_escaped(s)) == Some(s),
    decreases s.len(),
{
    if s.len() > 0 {
        lemma_escaped_front(s);
        lemma_lua_literal_reads_back(s.drop_first());
        let rest = lua_escaped(s.drop_first());
        let t = escape_one(s[0]) + rest;
        if s[0] == '\\' || s[0] == '\'' {
            assert(t.subrange(2, t.len() as int) =~= rest);
        } else {
            assert(t.drop_first() =~= rest);
        }
        assert(seq![s[0]] + s.drop_first() =~= s);
    }
}

/// Escape a string for embedding in a single-quoted Lua literal.
pub fn lua_str(s: &str) -> (r: String)
    ensures
        r@ == lua_literal(s@),
{
    let v = chars_of(s);
    let mut out = String::new();
    push_char(&mut out, '\'');
    let mut i: usize = 0;
    assert(v@.take(0) =~= Seq::<char>::empty());
    while i < v.len()
        invariant
            i <= v@.len(),
            v@ == s@,
            out@ == seq!['\''] + lua_escaped(v@.take(i as int)),
        decreases v.len() - i,
    {
        assert(v@.take(i + 1).drop_last() =~= v@.take(i as int));
        let c = v[i];
        let ghost before = out@;
        if c == '\\' || c == '\'' {
            push_char(&mut out, '\\');
        }
        push_char(&mut out, c);
        assert(out@ =~= before + if c == '\\' || c == '\'' {
            seq!['\\', c]
        } else {
            seq![c]
        });
        i = i + 1;
    }
    assert(v@.take(v.len() as int) =~= v@);
    push_char(&mut out, '\'');
    out
}

/// The Lua literal naming window `a`.
pub open spec fn window_literal(a: Seq<char>) -> Seq<char> {
    lua_literal("address:0x"@ + a)
}

fn window_lit(addr: &Address) -> (r: Vec<char>)
    ensures
        r@ == window_literal(addr@),
{
    let name = concat(&chars_of("address:"), &chars_of(addr.prefixed().as_str()));
    assert(name@ =~= "address:0x"@ + addr@) by {
        reveal_strlit("address:");
        reveal_strlit("0x");
        reveal_strlit("address:0x");
    }
    chars_of(lua_str(string_of(&name).as_str()).as_str())
}

/// The expression that focuses window `addr`.
pub fn focus_window(addr: &Address) -> (r: String)
    ensures
        r@ == "hl.dsp.focus({ window = "@ + window_literal(addr@) + " })"@,
{
    let head = concat(&chars_of("hl.dsp.focus({ window = "), &window_lit(addr));
    string_of(&concat(&head, &chars_of(" })")))
}

/// The expression that switches to workspace `name` (`"3"`, `"e+1"`,
/// `"previous"`).
pub fn focus_workspace(name: &str) -> (r: String)
    ensures
        r@ == "hl.dsp.focus({ workspace = "@ + lua_literal(name@) + " })"@,
{
    let head = concat(&chars_of("hl.dsp.focus({ workspace = "), &chars_of(lua_str(name).as_str()));
    string_of(&concat(&head, &chars_of(" })")))
}

/// The expression that toggles special workspace `name`.
pub fn toggle_special(name: &str) -> (r: String)
    ensures
        r@ == "hl.dsp.workspace.toggle_special("@ + lua_literal(name@) + ")"@,
{
    let head = concat(
        &chars_of("hl.dsp.workspace.toggle_special("),
        &chars_of(lua_str(name).as_str()),
    );
    string_of(&concat(&head, &chars_of(")")))
}

/// The expression that closes window `addr`, never the active one
/// implicitly.
pub fn close_window(addr: &Address) -> (r: String)
    ensures
        r@ == "hl.dsp.window.close({ window = "@ + window_literal(addr@) + " })"@,
{
    let head = concat(&chars_of("hl.dsp.window.close({ window = "), &window_lit(addr));
    string_of(&concat(&head, &chars_of(" })")))
}

/// The expression that moves window `addr` to `workspace`, following it
/// there when `follow`.
pub fn move_window_to_workspace(addr: &Address, workspace: &str, follow: bool) -> (r: String)
    ensures
        r@ == "hl.dsp.window.move({ window = "@ + window_literal(addr@) + ", workspace = "@
            + lua_literal(workspace@) + ", follow = "@ + (if follow {
            "true"@
        } else {
            "false"@
        }) + " })"@,
{
    let a = concat(&chars_of("hl.dsp.window.move({ window = "), &window_lit(addr));
    let b = concat(&concat(&a, &chars_of(", workspace = ")), &chars_of(lua_str(workspace).as_str()));
    let f = if follow {
        chars_of("true")
    } else {
        chars_of("false")
    };
    let c = concat(&concat(&b, &chars_of(", follow = ")), &f);
    string_of(&concat(&c, &chars_of(" })")))
}

/// The expression that launches `command` through Hyprland, so it inherits
/// the compositor's environment rather than the dock's.
pub fn exec(command: &str) -> (r: String)
    ensures
        r@ == "hl.dsp.exec_cmd("@ + lua_literal(command@) + ")"@,
{
    let head = concat(&chars_of("hl.dsp.exec_cmd("), &chars_of(lua_str(command).as_str()));
    string_of(&concat(&head, &chars_of(")")))
}

/// The expression that toggles the tiling layout's split orientation.
pub const TOGGLE_SPLIT: &'static str = "hl.dsp.layout('togglesplit')";

pub fn toggle_split() -> (r: String)
    ensures
        r@ == TOGGLE_SPLIT@,
{
    string_of(&chars_of(TOGGLE_SPLIT))
}

/// The request that runs dispatcher `expr`.
pub fn request(expr: &str) -> (r: String)
    ensures
        r@ == "/dispatch "@ + expr@,
{
    string_of(&concat(&chars_of("/dispatch "), &chars_of(expr)))
}

/// Whether Hyprland's `reply` to a dispatch means success: `ok` in any case,
/// or nothing at all; anything else is an `error: …` string.
pub fn succeeded(reply: &str) -> (r: bool)
    ensures
        r == (eq_ignore_ascii_case(trim(reply@), "ok"@) || trim(reply@).len() == 0),
{
    let t = trim_vec(&chars_of(reply));
    eq_ignore_ascii_case_vec(&t, &chars_of("ok")) || t.len() == 0
}

} // verus!
