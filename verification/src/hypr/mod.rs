//! Hyprland IPC: the socket layout, window addresses, the push-event
//! grammar, the JSON model and the Lua dispatcher expressions.
//!
//! Two Unix sockets live in the instance's IPC directory:
//! `.socket.sock` for request/response and `.socket2.sock` for the push
//! event stream. Locating that directory reads the environment, which the
//! application does; the paths below it are fixed.
use vstd::prelude::*;
use crate::text::{
    ascii_lower, ascii_lower_char, ascii_lower_vec, chars_of, concat, is_ws, lemma_trim_end_prefix,
    lemma_trim_start_len, starts_with, string_of, strip_prefix, strip_prefix_vec, trim, trim_end,
    trim_start, trim_vec,
};

pub mod dispatch;
pub mod events;
pub mod model;
pub mod request;

verus! {

/// `dir` joined with `name`, as `Path::join` does: an absolute `name`
/// replaces `dir`.
pub open spec fn join_path(dir: Seq<char>, name: Seq<char>) -> Seq<char> {
    if dir.len() == 0 || (name.len() > 0 && name[0] == '/') {
        name
    } else if dir.last() == '/' {
        dir + name
    } else {
        dir + seq!['/'] + name
    }
}

pub fn join_path_exec(dir: &str, name: &str) -> (r: String)
    ensures
        r@ == join_path(dir@, name@),
{
    let d = chars_of(dir);
    let n = chars_of(name);
    if d.len() == 0 || (n.len() > 0 && n[0] == '/') {
        string_of(&n)
    } else if d[d.len() - 1] == '/' {
        string_of(&concat(&d, &n))
    } else {
        let mut slash: Vec<char> = Vec::new();
        slash.push('/');
        let ds = concat(&d, &slash);
        assert(ds@ == d@ + seq!['/']);
        string_of(&concat(&ds, &n))
    }
}

/// The request/response socket inside Hyprland's IPC directory `ipc_dir`.
pub fn request_socket(ipc_dir: &str) -> (r: String)
    ensures
        r@ == join_path(ipc_dir@, ".socket.sock"@),
{
    join_path_exec(ipc_dir, ".socket.sock")
}

/// The push event socket inside Hyprland's IPC directory `ipc_dir`.
pub fn event_socket(ipc_dir: &str) -> (r: String)
    ensures
        r@ == join_path(ipc_dir@, ".socket2.sock"@),
{
    join_path_exec(ipc_dir, ".socket2.sock")
}

/// A window address, normalised to lower-case hex without `0x`.
///
/// Hyprland's JSON carries `"0x5654cf797160"` while the event stream emits
/// the same address as bare `5654cf797160`; both normalise to one value so
/// the two sources can be cross-referenced.
#[derive(Debug, Hash)]
pub struct Address(pub String);

impl Clone for Address {
    fn clone(&self) -> (r: Self)
        ensures
            r == *self,
    {
        Address(self.0.clone())
    }
}

impl View for Address {
    type V = Seq<char>;

    open spec fn view(&self) -> Seq<char> {
        self.0@
    }
}

impl PartialEq for Address {
    fn eq(&self, other: &Self) -> (r: bool) {
        self.0 == other.0
    }
}

impl vstd::std_specs::cmp::PartialEqSpecImpl for Address {
    open spec fn obeys_eq_spec() -> bool {
        true
    }

    open spec fn eq_spec(&self, other: &Self) -> bool {
        self.0@ == other.0@
    }
}

impl Eq for Address {
}

/// The normal form of an address as written in `s`.
pub open spec fn address_of(s: Seq<char>) -> Seq<char> {
    let t = trim(s);
    ascii_lower(
        match strip_prefix(t, "0x"@) {
            Some(r) => r,
            None => t,
        },
    )
}

/// A trimmed text starts and ends with no whitespace.
proof fn lemma_trimmed_ends(h: Seq<char>)
    requires
        trim(h) == h,
        h.len() > 0,
    ensures
        !is_ws(h[0]),
        !is_ws(h.last()),
{
    lemma_trim_start_len(h);
    lemma_trim_end_prefix(trim_start(h));
    if is_ws(h[0]) {
        lemma_trim_start_len(h.drop_first());
        assert(trim_start(h) == trim_start(h.drop_first()));
    }
    assert(trim_start(h) == h);
    if is_ws(h.last()) {
        lemma_trim_end_prefix(h.drop_last());
        assert(trim_end(h) == trim_end(h.drop_last()));
    }
}

/// What `trim_end` leaves ends in no whitespace.
proof fn lemma_trim_end_last(s: Seq<char>)
    ensures
        trim_end(s).len() > 0 ==> !is_ws(trim_end(s).last()),
    decreases s.len(),
{
    if s.len() > 0 && is_ws(s.last()) {
        lemma_trim_end_last(s.drop_last());
    }
}

/// `"0x"` followed by a text with no whitespace at its end is trimmed, and
/// strips back to that text.
proof fn lemma_prefixed_text(a: Seq<char>)
    requires
        a.len() > 0 ==> !is_ws(a.last()),
    ensures
        trim("0x"@ + a) == "0x"@ + a,
        strip_prefix("0x"@ + a, "0x"@) == Some(a),
{
    reveal_strlit("0x");
    let j = "0x"@ + a;
    assert(j[0] == '0');
    assert(!is_ws(j.last())) by {
        if a.len() > 0 {
            assert(j.last() == a.last());
        }
    }
    assert(trim_start(j) == j);
    assert(trim_end(j) == j);
    assert(j.subrange(0, 2) =~= "0x"@);
    assert(j.subrange(2, j.len() as int) =~= a);
}

/// The JSON form and the event-stream form of one window's address
/// normalise to the same value: prefixing a trimmed address that has no
/// `0x` of its own with `0x` does not change what it names, and such an
/// address normalises to itself, lower-cased.
pub proof fn lemma_both_forms_name_one_window(h: Seq<char>)
    requires
        trim(h) == h,
        !starts_with(h, "0x"@),
    ensures
        address_of("0x"@ + h) == address_of(h),
        address_of(h) == ascii_lower(h),
{
    if h.len() > 0 {
        lemma_trimmed_ends(h);
    }
    lemma_prefixed_text(h);
}

/// The `0x`-prefixed form of an address, as dispatchers and JSON write it,
/// parses back to that address.
pub proof fn lemma_prefixed_round_trip(s: Seq<char>)
    ensures
        address_of("0x"@ + address_of(s)) == address_of(s),
{
    reveal_strlit("0x");
    let t = trim(s);
    lemma_trim_end_last(trim_start(s));
    let r = match strip_prefix(t, "0x"@) {
        Some(r) => r,
        None => t,
    };
    assert(r.len() > 0 ==> r.last() == t.last()) by {
        if strip_prefix(t, "0x"@) is Some && r.len() > 0 {
            assert(r.last() == t[t.len() - 1]);
        }
    }
    let a = address_of(s);
    assert(a == ascii_lower(r));
    assert(a.len() > 0 ==> !is_ws(a.last())) by {
        if a.len() > 0 {
            assert(a.last() == ascii_lower_char(r.last()));
            if 'A' <= r.last() && r.last() <= 'Z' {
                assert('a' <= a.last() && a.last() <= 'z');
            }
        }
    }
    lemma_prefixed_text(a);
    assert(ascii_lower(a) =~= a) by {
        assert forall|i: int| 0 <= i < a.len() implies ascii_lower_char(#[trigger] a[i]) == a[i] by {
            assert(a[i] == ascii_lower_char(r[i]));
            if 'A' <= r[i] && r[i] <= 'Z' {
                assert('a' <= a[i] && a[i] <= 'z');
            }
        }
    }
}

impl Address {
    pub fn parse(s: &str) -> (a: Address)
        ensures
            a@ == address_of(s@),
    {
        let v = chars_of(s);
        let t = trim_vec(&v);
        let body = match strip_prefix_vec(&t, &chars_of("0x")) {
            Some(r) => r,
            None => t,
        };
        Address(string_of(&ascii_lower_vec(&body)))
    }

    /// The `0x`-prefixed form, as dispatchers and JSON expect.
    pub fn prefixed(&self) -> (r: String)
        ensures
            r@ == "0x"@ + self@,
    {
        let p = chars_of("0x");
        string_of(&concat(&p, &chars_of(self.0.as_str())))
    }

    pub fn same(&self, other: &Address) -> (r: bool)
        ensures
            r == (self@ == other@),
    {
        self.0 == other.0
    }
}


/// Where Hyprland's IPC directory for instance `sig` may be, in the order
/// to look: under the runtime directory `runtime_dir`, where modern Hyprland
/// keeps it, then the pre-0.40 location under `/tmp/hypr`.
pub fn ipc_dir_candidates(runtime_dir: Option<&str>, sig: &str) -> (r: Vec<String>)
    ensures
        crate::text::strings(r@) == match runtime_dir {
            Some(d) => seq![join_path(join_path(d@, "hypr"@), sig@), join_path("/tmp/hypr"@, sig@)],
            None => seq![join_path("/tmp/hypr"@, sig@)],
        },
{
    let mut out: Vec<String> = Vec::new();
    match runtime_dir {
        Some(d) => {
            let hypr = join_path_exec(d, "hypr");
            out.push(join_path_exec(hypr.as_str(), sig));
        },
        None => {},
    }
    out.push(join_path_exec("/tmp/hypr", sig));
    assert(crate::text::strings(out@) =~= match runtime_dir {
        Some(d) => seq![join_path(join_path(d@, "hypr"@), sig@), join_path("/tmp/hypr"@, sig@)],
        None => seq![join_path("/tmp/hypr"@, sig@)],
    });
    out
}

} // verus!
