//! Folder stacks and Trash: which entries of a directory a stack shows, in
//! what order, and where the freedesktop trash lives. Listing directories,
//! opening and trashing files are the application's.
use vstd::prelude::*;
use crate::hypr::{join_path, join_path_exec};
use crate::omarchy::Command;
use crate::text::{chars_of, lex_less, str_less, string_of, strings};

verus! {

/// How many entries a stack shows before "Open folder" takes over.
pub const STACK_LIMIT: usize = 12;

#[derive(Debug)]
pub struct StackEntry {
    pub path: String,
    pub name: String,
    pub is_dir: bool,
    /// Last modification as seconds and nanoseconds since the Unix epoch,
    /// when the filesystem reports one.
    pub modified: Option<(u64, u32)>,
}

impl Clone for StackEntry {
    fn clone(&self) -> (r: Self)
        ensures
            r == *self,
    {
        StackEntry {
            path: self.path.clone(),
            name: self.name.clone(),
            is_dir: self.is_dir,
            modified: self.modified,
        }
    }
}

pub open spec fn later(x: (u64, u32), y: (u64, u32)) -> bool {
    x.0 > y.0 || (x.0 == y.0 && x.1 > y.1)
}

/// Whether `a` is listed before `b`: newest first, entries without a
/// timestamp last, and those among themselves by name.
pub open spec fn listed_before(a: StackEntry, b: StackEntry) -> bool {
    match (a.modified, b.modified) {
        (Some(x), Some(y)) => later(x, y),
        (Some(_), None) => true,
        (None, Some(_)) => false,
        (None, None) => lex_less(a.name@, b.name@),
    }
}

fn listed_before_exec(a: &StackEntry, b: &StackEntry) -> (r: bool)
    ensures
        r == listed_before(*a, *b),
{
    match (a.modified, b.modified) {
        (Some(x), Some(y)) => x.0 > y.0 || (x.0 == y.0 && x.1 > y.1),
        (Some(_), None) => true,
        (None, Some(_)) => false,
        (None, None) => str_less(a.name.as_str(), b.name.as_str()),
    }
}

/// `e` placed into the ordered `sorted` after every entry it is not listed
/// before, so equal entries keep their order.
pub open spec fn insert_listed(sorted: Seq<StackEntry>, e: StackEntry) -> Seq<StackEntry>
    decreases sorted.len(),
{
    if sorted.len() == 0 {
        seq![e]
    } else if !listed_before(e, sorted.last()) {
        sorted.push(e)
    } else {
        insert_listed(sorted.drop_last(), e).push(sorted.last())
    }
}

/// The entries that are not dotfiles, in listing order: a stable sort.
pub open spec fn listing(s: Seq<StackEntry>) -> Seq<StackEntry>
    decreases s.len(),
{
    if s.len() == 0 {
        s
    } else if s.last().name@.len() > 0 && s.last().name@[0] == '.' {
        listing(s.drop_last())
    } else {
        insert_listed(listing(s.drop_last()), s.last())
    }
}

proof fn lemma_insert_listed_at(s: Seq<StackEntry>, e: StackEntry, j: int)
    requires
        0 <= j <= s.len(),
        forall|k: int| j <= k < s.len() ==> listed_before(e, #[trigger] s[k]),
        j == 0 || !listed_before(e, s[j - 1]),
    ensures
        insert_listed(s, e) == s.insert(j, e),
    decreases s.len(),
{
    if s.len() == 0 {
        assert(s.insert(j, e) =~= seq![e]);
    } else if !listed_before(e, s.last()) {
        assert(j == s.len());
        assert(s.insert(j, e) =~= s.push(e));
    } else {
        let d = s.drop_last();
        lemma_insert_listed_at(d, e, j);
        assert(d.insert(j, e).push(s.last()) =~= s.insert(j, e));
    }
}

/// A dotfile, which a stack never shows.
pub open spec fn is_hidden(e: StackEntry) -> bool {
    e.name@.len() > 0 && e.name@[0] == '.'
}

/// No entry of `s` is listed before one that comes earlier.
pub open spec fn newest_first_order(s: Seq<StackEntry>) -> bool {
    forall|i: int, j: int| 0 <= i < j < s.len() ==> !listed_before(#[trigger] s[j], #[trigger] s[i])
}

/// The listing order is a strict weak order: never before itself, never
/// both ways, and what is before `c` is before `b` or `b` is before `c`.
proof fn lemma_listed_before_order(a: StackEntry, b: StackEntry, c: StackEntry)
    ensures
        !listed_before(a, a),
        listed_before(a, b) ==> !listed_before(b, a),
        listed_before(a, c) ==> listed_before(a, b) || listed_before(b, c),
{
    crate::text::lemma_lex_less_order(a.name@, a.name@, a.name@);
    crate::text::lemma_lex_less_order(a.name@, b.name@, c.name@);
    crate::text::lemma_lex_less_order(b.name@, a.name@, c.name@);
    crate::text::lemma_lex_less_order(a.name@, c.name@, b.name@);
}

proof fn lemma_insert_listed(t: Seq<StackEntry>, e: StackEntry)
    requires
        newest_first_order(t),
    ensures
        newest_first_order(insert_listed(t, e)),
        insert_listed(t, e).len() == t.len() + 1,
        forall|x: StackEntry| #[trigger] insert_listed(t, e).contains(x) <==> (t.contains(x) || x == e),
    decreases t.len(),
{
    let r = insert_listed(t, e);
    if t.len() == 0 {
        assert forall|x: StackEntry| #[trigger] r.contains(x) <==> (t.contains(x) || x == e) by {
            if r.contains(x) || x == e {
                assert(r[0] == e);
            }
        }
    } else if !listed_before(e, t.last()) {
        let n = t.len() - 1;
        assert(r == t.push(e));
        assert forall|i: int, j: int| 0 <= i < j < r.len() implies !listed_before(
            #[trigger] r[j],
            #[trigger] r[i],
        ) by {
            if j < t.len() {
                assert(r[i] == t[i] && r[j] == t[j]);
            } else {
                assert(r[i] == t[i] && r[j] == e);
                if i < n {
                    lemma_listed_before_order(e, t[n], t[i]);
                }
            }
        }
        assert forall|x: StackEntry| #[trigger] r.contains(x) <==> (t.contains(x) || x == e) by {
            if r.contains(x) {
                let i = choose|i: int| 0 <= i < r.len() && r[i] == x;
                if i < t.len() {
                    assert(t[i] == x);
                }
            }
            if t.contains(x) {
                let i = choose|i: int| 0 <= i < t.len() && t[i] == x;
                assert(r[i] == x);
            }
            if x == e {
                assert(r[t.len() as int] == e);
            }
        }
    } else {
        let d = t.drop_last();
        let last = t.last();
        let n = t.len() - 1;
        assert(newest_first_order(d)) by {
            assert forall|i: int, j: int| 0 <= i < j < d.len() implies !listed_before(
                #[trigger] d[j],
                #[trigger] d[i],
            ) by {
                assert(d[i] == t[i] && d[j] == t[j]);
            }
        }
        lemma_insert_listed(d, e);
        let q = insert_listed(d, e);
        assert(r == q.push(last));
        lemma_listed_before_order(e, last, e);
        assert forall|i: int, j: int| 0 <= i < j < r.len() implies !listed_before(
            #[trigger] r[j],
            #[trigger] r[i],
        ) by {
            if j < q.len() {
                assert(r[i] == q[i] && r[j] == q[j]);
            } else {
                assert(r[i] == q[i] && r[j] == last);
                assert(q.contains(q[i]));
                if q[i] != e {
                    let k = choose|k: int| 0 <= k < d.len() && d[k] == q[i];
                    assert(t[k] == q[i]);
                    assert(t[n] == last);
                }
            }
        }
        assert forall|x: StackEntry| #[trigger] r.contains(x) <==> (t.contains(x) || x == e) by {
            if r.contains(x) {
                let i = choose|i: int| 0 <= i < r.len() && r[i] == x;
                if i < q.len() {
                    assert(q[i] == x);
                    assert(q.contains(x));
                    if x != e {
                        let k = choose|k: int| 0 <= k < d.len() && d[k] == x;
                        assert(t[k] == x);
                    }
                } else {
                    assert(t[n] == x);
                }
            }
            if t.contains(x) {
                let i = choose|i: int| 0 <= i < t.len() && t[i] == x;
                if i < n {
                    assert(d[i] == x);
                    assert(d.contains(x));
                    assert(q.contains(x));
                    let k = choose|k: int| 0 <= k < q.len() && q[k] == x;
                    assert(r[k] == x);
                } else {
                    assert(r[q.len() as int] == x);
                }
            }
            if x == e {
                assert(q.contains(e));
                let k = choose|k: int| 0 <= k < q.len() && q[k] == e;
                assert(r[k] == e);
            }
        }
    }
}

proof fn lemma_listing(s: Seq<StackEntry>)
    ensures
        newest_first_order(listing(s)),
        forall|x: StackEntry| #[trigger] listing(s).contains(x) <==> (s.contains(x) && !is_hidden(x)),
    decreases s.len(),
{
    if s.len() > 0 {
        let d = s.drop_last();
        let last = s.last();
        lemma_listing(d);
        if !is_hidden(last) {
            lemma_insert_listed(listing(d), last);
        }
        assert forall|x: StackEntry| #[trigger] listing(s).contains(x) <==> (s.contains(x) && !is_hidden(x)) by {
            if s.contains(x) {
                let i = choose|i: int| 0 <= i < s.len() && s[i] == x;
                if i < d.len() {
                    assert(d[i] == x);
                    assert(d.contains(x));
                }
            }
            if d.contains(x) {
                let i = choose|i: int| 0 <= i < d.len() && d[i] == x;
                assert(s[i] == x);
            }
            if x == last {
                assert(s[s.len() - 1] == x);
            }
        }
    }
}

/// A stack shows the newest entries first and no dotfiles; an entry it
/// leaves out is left out because the stack is full, and is no newer than
/// any entry shown.
pub proof fn lemma_stack_shows_the_newest(s: Seq<StackEntry>, limit: nat)
    ensures
        ({
            let l = listing(s);
            let r = l.take(if limit < l.len() { limit as int } else { l.len() as int });
            &&& newest_first_order(r)
            &&& forall|i: int| 0 <= i < r.len() ==> s.contains(#[trigger] r[i]) && !is_hidden(r[i])
            &&& forall|k: int|
                0 <= k < s.len() && !is_hidden(#[trigger] s[k]) && !r.contains(s[k]) ==> r.len() == limit
                    && forall|i: int| 0 <= i < r.len() ==> !listed_before(s[k], #[trigger] r[i])
        }),
{
    let l = listing(s);
    let n = if limit < l.len() { limit as int } else { l.len() as int };
    let r = l.take(n);
    lemma_listing(s);
    assert forall|i: int, j: int| 0 <= i < j < r.len() implies !listed_before(
        #[trigger] r[j],
        #[trigger] r[i],
    ) by {
        assert(r[i] == l[i] && r[j] == l[j]);
    }
    assert forall|i: int| 0 <= i < r.len() implies s.contains(#[trigger] r[i]) && !is_hidden(r[i]) by {
        assert(r[i] == l[i]);
        assert(l.contains(l[i]));
    }
    assert forall|k: int|
        0 <= k < s.len() && !is_hidden(#[trigger] s[k]) && !r.contains(s[k]) implies r.len() == limit
        && forall|i: int| 0 <= i < r.len() ==> !listed_before(s[k], #[trigger] r[i]) by {
        assert(s.contains(s[k]));
        assert(l.contains(s[k]));
        let m = choose|m: int| 0 <= m < l.len() && l[m] == s[k];
        if m < n {
            assert(r[m] == s[k]);
        }
        assert forall|i: int| 0 <= i < r.len() implies !listed_before(s[k], #[trigger] r[i]) by {
            assert(r[i] == l[i]);
        }
    }
}

/// The most recently modified entries of a directory listing, newest first,
/// at most `limit` of them.
///
/// Hidden files are skipped: a stack is a shortcut to recent work, and
/// dotfiles are almost never that. Entries without a timestamp sort last
/// rather than poisoning the comparison.
pub fn newest_first(entries: Vec<StackEntry>, limit: usize) -> (r: Vec<StackEntry>)
    ensures
        r@ == listing(entries@).take(
            if limit < listing(entries@).len() {
                limit as int
            } else {
                listing(entries@).len() as int
            },
        ),
{
    let mut sorted: Vec<StackEntry> = Vec::new();
    let mut i: usize = 0;
    while i < entries.len()
        invariant
            i <= entries@.len(),
            sorted@ == listing(entries@.take(i as int)),
        decreases entries.len() - i,
    {
        assert(entries@.take(i + 1).drop_last() =~= entries@.take(i as int));
        let e = entries[i].clone();
        let nv = chars_of(e.name.as_str());
        let dotfile = nv.len() > 0 && nv[0] == '.';
        if !dotfile {
            let mut j: usize = sorted.len();
            while j > 0 && listed_before_exec(&e, &sorted[j - 1])
                invariant
                    j <= sorted@.len(),
                    forall|k: int| j <= k < sorted@.len() ==> listed_before(e, #[trigger] sorted@[k]),
                decreases j,
            {
                j = j - 1;
            }
            proof {
                lemma_insert_listed_at(sorted@, e, j as int);
            }
            sorted.insert(j, e);
        }
        i = i + 1;
    }
    assert(entries@.take(entries.len() as int) =~= entries@);
    let ghost all = sorted@;
    if limit < sorted.len() {
        sorted.truncate(limit);
        assert(sorted@ =~= all.take(limit as int));
    } else {
        assert(sorted@ =~= all.take(all.len() as int));
    }
    sorted
}

/// The freedesktop trash under the data directory `data_dir`, or under
/// `/tmp` without one: its `files` directory holds the trashed files.
pub open spec fn trash_dir_of(data_dir: Option<Seq<char>>, leaf: Seq<char>) -> Seq<char> {
    join_path(
        join_path(
            match data_dir {
                Some(d) => d,
                None => "/tmp"@,
            },
            "Trash"@,
        ),
        leaf,
    )
}

fn trash_dir(data_dir: Option<&str>, leaf: &str) -> (r: String)
    ensures
        r@ == trash_dir_of(
            match data_dir {
                Some(d) => Some(d@),
                None => None,
            },
            leaf@,
        ),
{
    let base = match data_dir {
        Some(d) => join_path_exec(d, "Trash"),
        None => join_path_exec("/tmp", "Trash"),
    };
    join_path_exec(base.as_str(), leaf)
}

/// The directory holding trashed files themselves.
pub fn trash_files_dir(data_dir: Option<&str>) -> (r: String)
    ensures
        r@ == trash_dir_of(
            match data_dir {
                Some(d) => Some(d@),
                None => None,
            },
            "files"@,
        ),
{
    trash_dir(data_dir, "files")
}

/// The directory holding the trash's `.trashinfo` records.
pub fn trash_info_dir(data_dir: Option<&str>) -> (r: String)
    ensures
        r@ == trash_dir_of(
            match data_dir {
                Some(d) => Some(d@),
                None => None,
            },
            "info"@,
        ),
{
    trash_dir(data_dir, "info")
}

/// The command that opens `path` with the desktop's handler.
pub fn open(path: &str) -> (r: Command)
    ensures
        r.program@ == "xdg-open"@,
        strings(r.args@) == seq![path@],
{
    let mut args: Vec<String> = Vec::new();
    args.push(string_of(&chars_of(path)));
    let r = Command { program: string_of(&chars_of("xdg-open")), args };
    assert(strings(r.args@) =~= seq![path@]);
    r
}

/// What `std::path::Path::parent` gives for `path`, as text.
pub uninterp spec fn parent_path(path: Seq<char>) -> Option<Seq<char>>;

/// `std::path::Path::parent` on `path`, read back as text. Its contract
/// only names the result: the parent depends on how std splits a path into
/// components, which nothing here restates.
#[verifier::external_body]
fn parent_of(path: &str) -> (r: Option<String>)
    ensures
        match r {
            Some(p) => parent_path(path@) == Some(p@),
            None => parent_path(path@) is None,
        },
{
    std::path::Path::new(path).parent().map(|p| p.to_string_lossy().into_owned())
}

/// Reveal `path` in the file manager: the command that opens its parent
/// directory, or none when it has no parent to open.
pub fn reveal_path(path: &str) -> (r: Option<Command>)
    ensures
        match parent_path(path@) {
            Some(p) => r matches Some(c) && c.program@ == "xdg-open"@ && strings(c.args@) == seq![p],
            None => r is None,
        },
{
    match parent_of(path) {
        Some(p) => Some(open(p.as_str())),
        None => None,
    }
}

} // verus!
