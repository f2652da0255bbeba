//! Request/response IPC over `.socket.sock`.
//!
//! Each request is a fresh connection: write the command, read to EOF, done.
//! Commands prefixed `j/` return JSON. The connection is the application's;
//! what a reply means is decided here.
use vstd::prelude::*;
use crate::text::{chars_of, concat, seq_eq, slice_of, string_of, trim, trim_vec};

verus! {

/// How many bytes `c` takes in UTF-8.
pub open spec fn utf8_width(c: char) -> nat {
    if (c as u32) < 0x80 {
        1
    } else if (c as u32) < 0x800 {
        2
    } else if (c as u32) < 0x10000 {
        3
    } else {
        4
    }
}

/// How many bytes `s` takes in UTF-8.
pub open spec fn utf8_len(s: Seq<char>) -> nat
    decreases s.len(),
{
    if s.len() == 0 {
        0
    } else {
        utf8_width(s[0]) + utf8_len(s.drop_first())
    }
}

/// How many leading characters of `s` fit in `n` bytes.
pub open spec fn chars_within(s: Seq<char>, n: int) -> nat
    decreases s.len(),
{
    if s.len() == 0 || utf8_width(s[0]) > n {
        0
    } else {
        1 + chars_within(s.drop_first(), n - utf8_width(s[0]))
    }
}

/// Whether byte `n` of `s` falls between two characters.
pub open spec fn is_boundary(s: Seq<char>, n: int) -> bool {
    utf8_len(s.take(chars_within(s, n) as int)) == n
}

/// A reply as quoted in an error message: trimmed, and cut after 200 bytes.
pub open spec fn quoted(s: Seq<char>) -> Seq<char> {
    let t = trim(s);
    if utf8_len(t) > 200 {
        t.take(chars_within(t, 200) as int) + "…"@
    } else {
        t
    }
}

fn char_width(c: char) -> (r: u32)
    ensures
        r == utf8_width(c),
{
    let v = c as u32;
    if v < 0x80 {
        1
    } else if v < 0x800 {
        2
    } else if v < 0x10000 {
        3
    } else {
        4
    }
}

proof fn lemma_utf8_len_take(s: Seq<char>, k: int)
    requires
        0 <= k < s.len(),
    ensures
        utf8_len(s.take(k + 1)) == utf8_len(s.take(k)) + utf8_width(s[k]),
    decreases k,
{
    if k > 0 {
        let t = s.drop_first();
        lemma_utf8_len_take(t, k - 1);
        assert(s.take(k + 1).drop_first() =~= t.take(k));
        assert(s.take(k).drop_first() =~= t.take(k - 1));
    } else {
        assert(s.take(1).drop_first() =~= Seq::<char>::empty());
        assert(s.take(0) =~= Seq::<char>::empty());
    }
}

/// A reply shortened for an error message: trimmed, and cut after 200
/// bytes, which must fall between two characters.
pub fn truncate(s: &str) -> (r: String)
    requires
        utf8_len(trim(s@)) > 200 ==> is_boundary(trim(s@), 200),
    ensures
        r@ == quoted(s@),
{
    let t = trim_vec(&chars_of(s));
    let mut i: usize = 0;
    let mut w: u32 = 0;
    assert(t@.skip(0) =~= t@);
    assert(t@.take(0) =~= Seq::<char>::empty());
    while i < t.len()
        invariant
            i <= t@.len(),
            w <= 200,
            w == utf8_len(t@.take(i as int)),
            chars_within(t@, 200) == i + chars_within(t@.skip(i as int), 200 - w),
        ensures
            i <= t@.len(),
            w == utf8_len(t@.take(i as int)),
            chars_within(t@, 200) == i + chars_within(t@.skip(i as int), 200 - w),
            i == t@.len() || w + utf8_width(t@[i as int]) > 200,
        decreases t.len() - i,
    {
        let cw = char_width(t[i]);
        proof {
            assert(t@.skip(i as int)[0] == t@[i as int]);
            assert(t@.skip(i as int).drop_first() =~= t@.skip(i + 1));
        }
        if w + cw > 200 {
            break;
        }
        proof {
            lemma_utf8_len_take(t@, i as int);
        }
        w = w + cw;
        i = i + 1;
    }
    proof {
        if i == t@.len() {
            assert(t@.skip(i as int) =~= Seq::<char>::empty());
        } else {
            assert(t@.skip(i as int)[0] == t@[i as int]);
        }
    }
    let total = utf8_total(&t);
    if total > 200 {
        string_of(&concat(&slice_of(&t, 0, i), &chars_of("…")))
    } else {
        string_of(&t)
    }
}

/// The UTF-8 length of `v`, saturated just above 200 bytes.
fn utf8_total(v: &Vec<char>) -> (r: usize)
    ensures
        r > 200 <==> utf8_len(v@) > 200,
{
    let mut i: usize = v.len();
    let mut w: usize = 0;
    assert(v@.skip(v.len() as int) =~= Seq::<char>::empty());
    while i > 0
        invariant
            i <= v@.len(),
            w <= 201,
            w == 201 ==> utf8_len(v@.skip(i as int)) > 200,
            w < 201 ==> w == utf8_len(v@.skip(i as int)),
        decreases i,
    {
        proof {
            assert(v@.skip(i - 1).drop_first() =~= v@.skip(i as int));
            assert(v@.skip(i - 1)[0] == v@[i - 1]);
        }
        let cw = char_width(v[i - 1]) as usize;
        if w + cw > 200 {
            w = 201;
        } else {
            w = w + cw;
        }
        i = i - 1;
    }
    assert(v@.skip(0) =~= v@);
    w
}

/// Whether Hyprland's reply to `j/activewindow` says nothing is focused:
/// it answers `{}`, which is no window.
pub fn no_active_window(body: &str) -> (r: bool)
    ensures
        r == (trim(body@).len() == 0 || trim(body@) == "{}"@),
{
    let t = trim_vec(&chars_of(body));
    t.len() == 0 || seq_eq(&t, &chars_of("{}"))
}

} // verus!
