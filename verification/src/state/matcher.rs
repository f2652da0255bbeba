//! Matching Hyprland window classes to desktop entries.
//!
//! A window class and a desktop id agree far less often than one would hope.
//! Four keys are indexed per entry, tried most-specific first:
//!
//! 1. `StartupWMClass` — authoritative when present, but often absent.
//! 2. The desktop id itself (`chromium` -> class `chromium`).
//! 3. A derived Chromium web-app class (see below).
//! 4. The executable's basename (`Exec=/usr/bin/foo -x` -> `foo`).
//!
//! **Chromium web apps.** Omarchy's PWAs exec `omarchy-launch-webapp <url>`,
//! which runs `chromium --app=<url>`, and Chromium derives the window class
//! from the URL as `chrome-<host>__<path>-Default`, where `<path>` has its
//! leading slash removed and the rest of its slashes turned into underscores.
use vstd::prelude::*;
use crate::desktop::Entry;
use crate::lists::index_of;
use crate::text::{
    strings, lemma_rfind_bound,
    chars_of, concat, contains, contains_vec, lowercase, replace_char, replace_char_vec, rfind_char,
    rfind_char_vec, seq_eq, slice_of, split_once, split_once_vec, string_of, to_lowercase, words,
    words_vec,
};

verus! {

/// `s` without leading or trailing quote characters (`"` or `'`).
pub open spec fn is_quote(c: char) -> bool {
    c == '"' || c == '\''
}

pub open spec fn trim_quotes_start(s: Seq<char>) -> Seq<char>
    decreases s.len(),
{
    if s.len() > 0 && is_quote(s[0]) {
        trim_quotes_start(s.drop_first())
    } else {
        s
    }
}

pub open spec fn trim_quotes_end(s: Seq<char>) -> Seq<char>
    decreases s.len(),
{
    if s.len() > 0 && is_quote(s.last()) {
        trim_quotes_end(s.drop_last())
    } else {
        s
    }
}

pub open spec fn unquoted(s: Seq<char>) -> Seq<char> {
    trim_quotes_end(trim_quotes_start(s))
}

fn unquote(s: &Vec<char>) -> (r: Vec<char>)
    ensures
        r@ == unquoted(s@),
{
    let mut i: usize = 0;
    assert(s@.subrange(0, s.len() as int) =~= s@);
    while i < s.len() && (s[i] == '"' || s[i] == '\'')
        invariant
            i <= s.len(),
            trim_quotes_start(s@) == trim_quotes_start(s@.subrange(i as int, s.len() as int)),
        decreases s.len() - i,
    {
        assert(s@.subrange(i as int, s.len() as int).drop_first() =~= s@.subrange(
            i + 1,
            s.len() as int,
        ));
        i = i + 1;
    }
    let t = slice_of(s, i, s.len());
    let mut j: usize = t.len();
    assert(t@.subrange(0, t.len() as int) =~= t@);
    while j > 0 && (t[j - 1] == '"' || t[j - 1] == '\'')
        invariant
            j <= t.len(),
            trim_quotes_end(t@) == trim_quotes_end(t@.subrange(0, j as int)),
        decreases j,
    {
        assert(t@.subrange(0, j as int).drop_last() =~= t@.subrange(0, j - 1));
        j = j - 1;
    }
    slice_of(&t, 0, j)
}

/// The executable's basename in an `Exec=` line, lower-cased; `None` when
/// there is no first word or its basename is empty or a field code.
pub open spec fn exec_basename_of(exec: Seq<char>) -> Option<Seq<char>> {
    let w = words(exec);
    if w.len() == 0 {
        None
    } else {
        let first = w[0];
        let base = match rfind_char(first, '/') {
            Some(i) => first.subrange(i + 1, first.len() as int),
            None => first,
        };
        if base.len() > 0 && base[0] != '%' {
            Some(lowercase(base))
        } else {
            None
        }
    }
}

pub fn exec_basename(exec: &str) -> (r: Option<String>)
    ensures
        match r {
            Some(s) => exec_basename_of(exec@) == Some(s@),
            None => exec_basename_of(exec@) is None,
        },
{
    let w = words_vec(&chars_of(exec));
    proof {
        assert(w@.map_values(|v: Vec<char>| v@).len() == w@.len());
    }
    if w.len() == 0 {
        return None;
    }
    let first = &w[0];
    assert(words(exec@)[0] == first@);
    let base = match rfind_char_vec(first, '/') {
        Some(i) => {
            proof {
                lemma_rfind_bound(first@, '/', first@.len() as int);
            }
            slice_of(first, i + 1, first.len())
        },
        None => first.clone(),
    };
    if base.len() > 0 && base[0] != '%' {
        Some(to_lowercase(string_of(&base).as_str()))
    } else {
        None
    }
}


/// The first word of `s`, unquoted.
pub open spec fn first_word_unquoted(s: Seq<char>) -> Option<Seq<char>> {
    let w = words(s);
    if w.len() == 0 {
        None
    } else {
        Some(unquoted(w[0]))
    }
}

/// The web-app URL an `Exec=` line launches, covering both Omarchy's wrapper
/// and a direct `--app=` invocation.
pub open spec fn webapp_url_of(exec: Seq<char>) -> Option<Seq<char>> {
    match split_once(exec, "--app="@) {
        Some((_, rest)) => first_word_unquoted(rest),
        None => match split_once(exec, "omarchy-launch-webapp"@) {
            // The URL is the first argument after the wrapper.
            Some((_, after)) => first_word_unquoted(
                match split_once(after, "omarchy-launch-webapp"@) {
                    Some((piece, _)) => piece,
                    None => after,
                },
            ),
            None => None,
        },
    }
}

fn first_word(s: &Vec<char>) -> (r: Option<Vec<char>>)
    ensures
        match r {
            Some(w) => first_word_unquoted(s@) == Some(w@),
            None => first_word_unquoted(s@) is None,
        },
{
    let w = words_vec(s);
    proof {
        assert(w@.map_values(|v: Vec<char>| v@).len() == w@.len());
    }
    if w.len() == 0 {
        return None;
    }
    assert(words(s@)[0] == w@[0]@);
    Some(unquote(&w[0]))
}

fn webapp_url(exec: &str) -> (r: Option<Vec<char>>)
    ensures
        match r {
            Some(u) => webapp_url_of(exec@) == Some(u@),
            None => webapp_url_of(exec@) is None,
        },
{
    let e = chars_of(exec);
    if let Some((_, rest)) = split_once_vec(&e, &chars_of("--app=")) {
        return first_word(&rest);
    }
    let wrapper = chars_of("omarchy-launch-webapp");
    match split_once_vec(&e, &wrapper) {
        Some((_, after)) => match split_once_vec(&after, &wrapper) {
            Some((piece, _)) => first_word(&piece),
            None => first_word(&after),
        },
        None => None,
    }
}

/// The class Chromium gives the window of `--app=<url>`, if `exec` launches
/// a web app: `chrome-<host>__<path>-Default`, lower-cased.
pub open spec fn chromium_class_of(exec: Seq<char>) -> Option<Seq<char>> {
    match webapp_url_of(exec) {
        None => None,
        Some(url) => {
            let rest = match split_once(url, "://"@) {
                Some((_, r)) => r,
                None => url,
            };
            let (host, path) = match split_once(rest, "/"@) {
                Some((h, p)) => (h, p),
                None => (rest, Seq::empty()),
            };
            if host.len() == 0 {
                None
            } else {
                Some(
                    lowercase(
                        "chrome-"@ + host + "__"@ + replace_char(path, '/', '_') + "-Default"@,
                    ),
                )
            }
        },
    }
}

/// Derive the class Chromium will use for `--app=<url>`, if this entry
/// launches a web app.
pub fn chromium_app_class(exec: &str) -> (r: Option<String>)
    ensures
        match r {
            Some(s) => chromium_class_of(exec@) == Some(s@),
            None => chromium_class_of(exec@) is None,
        },
{
    let url = match webapp_url(exec) {
        Some(u) => u,
        None => return None,
    };
    let rest = match split_once_vec(&url, &chars_of("://")) {
        Some((_, r)) => r,
        None => url,
    };
    let empty: Vec<char> = Vec::new();
    let (host, path) = match split_once_vec(&rest, &chars_of("/")) {
        Some((h, p)) => (h, p),
        None => (rest, empty),
    };
    if host.len() == 0 {
        return None;
    }
    let a = concat(&chars_of("chrome-"), &host);
    let b = concat(&a, &chars_of("__"));
    let c = concat(&b, &replace_char_vec(&path, '/', '_'));
    let d = concat(&c, &chars_of("-Default"));
    Some(to_lowercase(string_of(&d).as_str()))
}

// ── the index ───────────────────────────────────────────────────────────────

/// Which entry index a lower-cased key resolves to after indexing the first
/// `n` entries. Weaker keys are indexed first so stronger ones overwrite
/// them; the executable basename never displaces an earlier claim.
pub open spec fn lookup(entries: Seq<Entry>, n: nat, k: Seq<char>) -> Option<nat>
    decreases n,
{
    if n == 0 || n > entries.len() {
        None
    } else {
        let i = (n - 1) as nat;
        index_step(entries[i as int], i, lookup(entries, i, k), k)
    }
}

/// How indexing entry `e` at position `i` changes what key `k` resolves to.
pub open spec fn index_step(e: Entry, i: nat, r0: Option<nat>, k: Seq<char>) -> Option<nat> {
    let r1 = if exec_basename_of(e.exec_line@) == Some(k) && r0 is None {
        Some(i)
    } else {
        r0
    };
    let r2 = if chromium_class_of(e.exec_line@) == Some(k) {
        Some(i)
    } else {
        r1
    };
    let r3 = if lowercase(e.id@) == k {
        Some(i)
    } else {
        r2
    };
    match e.wm_class {
        Some(w) => if lowercase(w@) == k {
            Some(i)
        } else {
            r3
        },
        None => r3,
    }
}

pub proof fn lemma_assoc_push(s: Seq<(Seq<char>, nat)>, k: Seq<char>, v: nat)
    ensures
        forall|q: Seq<char>| #[trigger]
            assoc_get(s.push((k, v)), q) == if q == k {
                Some(v)
            } else {
                assoc_get(s, q)
            },
{
    assert(s.push((k, v)).drop_last() =~= s);
}

/// Index one entry's keys, weakest first so stronger ones overwrite them.
fn index_entry(keys: &mut Vec<(String, usize)>, e: &Entry, i: usize)
    ensures
        forall|q: Seq<char>| #[trigger]
            assoc_get(pairs_view(final(keys)@), q) == index_step(
                *e,
                i as nat,
                assoc_get(pairs_view(old(keys)@), q),
                q,
            ),
        forall|j: int| 0 <= j < final(keys)@.len() ==> #[trigger] final(keys)@[j].1 == i || (j
            < old(keys)@.len() && final(keys)@[j] == old(keys)@[j]),
{
    let ghost s0 = pairs_view(keys@);
    if let Some(exe) = exec_basename(e.exec_line.as_str()) {
        if lookup_pairs(keys, &chars_of(exe.as_str())).is_none() {
            proof {
                lemma_assoc_push(pairs_view(keys@), exe@, i as nat);
            }
            push_pair(keys, exe, i);
        }
    }
    let ghost s1 = pairs_view(keys@);
    assert forall|q: Seq<char>| #[trigger] assoc_get(s1, q) == (if exec_basename_of(e.exec_line@) == Some(q)
        && assoc_get(s0, q) is None {
        Some(i as nat)
    } else {
        assoc_get(s0, q)
    }) by {}
    if let Some(app) = chromium_app_class(e.exec_line.as_str()) {
        proof {
            lemma_assoc_push(pairs_view(keys@), app@, i as nat);
        }
        push_pair(keys, app, i);
    }
    let ghost s2 = pairs_view(keys@);
    let lid = to_lowercase(e.id.as_str());
    proof {
        lemma_assoc_push(pairs_view(keys@), lid@, i as nat);
    }
    push_pair(keys, lid, i);
    let ghost s3 = pairs_view(keys@);
    if let Some(wm) = &e.wm_class {
        let lw = to_lowercase(wm.as_str());
        proof {
            lemma_assoc_push(pairs_view(keys@), lw@, i as nat);
        }
        push_pair(keys, lw, i);
    }
}

/// Whether indexing `e` makes key `k` its own, over whatever an earlier
/// entry made of it: `k` is `e`'s web-app class, its lower-cased id or its
/// lower-cased `StartupWMClass`. (Its executable's name only fills a key
/// no earlier entry has.)
pub open spec fn takes_key(e: Entry, k: Seq<char>) -> bool {
    ||| chromium_class_of(e.exec_line@) == Some(k)
    ||| lowercase(e.id@) == k
    ||| (e.wm_class matches Some(w) && lowercase(w@) == k)
}

/// Once some entry among the first `n` resolves key `k`, indexing more
/// entries never loses it; and an entry `i` that takes `k` keeps it as long
/// as no later one takes it.
proof fn lemma_lookup_kept(entries: Seq<Entry>, i: nat, n: nat, k: Seq<char>)
    requires
        i < n <= entries.len(),
        takes_key(entries[i as int], k),
    ensures
        lookup(entries, n, k) is Some,
        (forall|j: int| i < j < n ==> !takes_key(#[trigger] entries[j], k)) ==> lookup(
            entries,
            n,
            k,
        ) == Some(i),
    decreases n,
{
    if n > i + 1 {
        lemma_lookup_kept(entries, i, (n - 1) as nat, k);
    }
}

/// An entry's `StartupWMClass` and its desktop id resolve: a window whose
/// class is either, in any case, is matched to some entry; and to this
/// entry itself when no later entry takes that key (by its own id,
/// `StartupWMClass` or web-app class).
pub proof fn lemma_own_keys_resolve(entries: Seq<Entry>, i: int)
    requires
        0 <= i < entries.len(),
    ensures
        entries[i].wm_class matches Some(w) ==> class_entry(entries, w@) is Some,
        entries[i].wm_class matches Some(w) ==> ((forall|j: int|
            i < j < entries.len() ==> !takes_key(#[trigger] entries[j], lowercase(w@)))
            ==> class_entry(entries, w@) == Some(i as nat)),
        class_entry(entries, entries[i].id@) is Some,
        (forall|j: int| i < j < entries.len() ==> !takes_key(#[trigger] entries[j], lowercase(
            entries[i].id@,
        ))) ==> class_entry(entries, entries[i].id@) == Some(i as nat),
{
    if let Some(w) = entries[i].wm_class {
        lemma_lookup_kept(entries, i as nat, entries.len(), lowercase(w@));
    }
    lemma_lookup_kept(entries, i as nat, entries.len(), lowercase(entries[i].id@));
}

/// The text before the first `.` of `c`, or all of `c`.
pub open spec fn first_dotted(c: Seq<char>) -> Seq<char> {
    match split_once(c, "."@) {
        Some((head, _)) => head,
        None => c,
    }
}

/// Which entry a window class resolves to: the class itself, lower-cased,
/// else its first dotted segment, since some toolkits append a suffix
/// (`foo.bin` resolves as `foo`).
pub open spec fn class_entry(entries: Seq<Entry>, class: Seq<char>) -> Option<nat> {
    let c = lowercase(class);
    match lookup(entries, entries.len(), c) {
        Some(i) => Some(i),
        None => lookup(entries, entries.len(), first_dotted(c)),
    }
}

/// The position of the entry whose desktop id matches `id`, ignoring case.
pub open spec fn entry_by_id(entries: Seq<Entry>, id: Seq<char>) -> Option<int> {
    index_of(lower_ids(entries), lowercase(id))
}

/// The lower-cased desktop ids of `entries`, in order.
pub open spec fn lower_ids(entries: Seq<Entry>) -> Seq<Seq<char>> {
    entries.map_values(|e: Entry| lowercase(e.id@))
}

/// Keep `s` only if it is non-empty and not already listed.
pub open spec fn push_unique(out: Seq<Seq<char>>, s: Seq<char>) -> Seq<Seq<char>> {
    if s.len() > 0 && !out.contains(s) {
        out.push(s)
    } else {
        out
    }
}

pub open spec fn unique_nonempty(cands: Seq<Seq<char>>) -> Seq<Seq<char>>
    decreases cands.len(),
{
    if cands.len() == 0 {
        Seq::empty()
    } else {
        push_unique(unique_nonempty(cands.drop_last()), cands.last())
    }
}

pub open spec fn opt_seq(o: Option<Seq<char>>) -> Seq<Seq<char>> {
    match o {
        Some(s) => seq![s],
        None => Seq::empty(),
    }
}

/// Every class a pinned entry's windows might report, most authoritative
/// first: `StartupWMClass`, the Chromium web-app class, the desktop id and
/// the executable basename of the entry, then the pinned id itself.
pub open spec fn expected_classes_of(entries: Seq<Entry>, id: Seq<char>) -> Seq<Seq<char>> {
    let from_entry = match entry_by_id(entries, id) {
        Some(i) => {
            let e = entries[i];
            opt_seq(
                match e.wm_class {
                    Some(w) => Some(lowercase(w@)),
                    None => None,
                },
            ) + opt_seq(chromium_class_of(e.exec_line@)) + seq![lowercase(e.id@)] + opt_seq(
                exec_basename_of(e.exec_line@),
            )
        },
        None => Seq::empty(),
    };
    unique_nonempty(from_entry + seq![lowercase(id)])
}

/// Key index entries: the lower-cased key and the entry it resolves to.
/// Later pairs override earlier ones.
pub open spec fn pairs_view(keys: Seq<(String, usize)>) -> Seq<(Seq<char>, nat)> {
    keys.map_values(|p: (String, usize)| (p.0@, p.1 as nat))
}

/// The value of the last pair with key `k`.
pub open spec fn assoc_get(s: Seq<(Seq<char>, nat)>, k: Seq<char>) -> Option<nat>
    decreases s.len(),
{
    if s.len() == 0 {
        None
    } else if s.last().0 == k {
        Some(s.last().1)
    } else {
        assoc_get(s.drop_last(), k)
    }
}

pub struct Matcher {
    entries: Vec<Entry>,
    /// Lower-cased match keys and the entry each resolves to.
    keys: Vec<(String, usize)>,
}

impl Matcher {
    #[verifier::type_invariant]
    spec fn well_formed(self) -> bool {
        &&& forall|k: Seq<char>| #[trigger]
            assoc_get(pairs_view(self.keys@), k) == lookup(
                self.entries@,
                self.entries@.len(),
                k,
            )
        &&& forall|j: int| 0 <= j < self.keys@.len() ==> #[trigger] self.keys@[j].1 < self.entries@.len()
    }

    /// The indexed entries, in the order they were given.
    pub closed spec fn entry_list(self) -> Seq<Entry> {
        self.entries@
    }

    fn get(&self, k: &Vec<char>) -> (r: Option<usize>)
        ensures
            match r {
                Some(i) => lookup(self.entry_list(), self.entry_list().len(), k@) == Some(i as nat)
                    && i < self.entry_list().len(),
                None => lookup(self.entry_list(), self.entry_list().len(), k@) is None,
            },
    {
        proof {
            use_type_invariant(self);
        }
        let ghost pv = pairs_view(self.keys@);
        let mut j: usize = self.keys.len();
        assert(pv.take(j as int) =~= pv);
        while j > 0
            invariant
                j <= self.keys@.len(),
                pv == pairs_view(self.keys@),
                assoc_get(pv, k@) == assoc_get(pv.take(j as int), k@),
            decreases j,
        {
            assert(pv.take(j as int).drop_last() =~= pv.take(j - 1));
            if seq_eq(&chars_of(self.keys[j - 1].0.as_str()), k) {
                proof {
                    use_type_invariant(self);
                }
                assert(pv.take(j as int).last() == (self.keys@[j - 1].0@, self.keys@[j - 1].1 as nat));
                assert(self.keys@[j - 1].1 < self.entries@.len());
                return Some(self.keys[j - 1].1);
            }
            j = j - 1;
        }
        None
    }

    pub fn build(entries: Vec<Entry>) -> (m: Matcher)
        ensures
            m.entry_list() == entries@,
    {
        let mut keys: Vec<(String, usize)> = Vec::new();
        let mut i: usize = 0;
        while i < entries.len()
            invariant
                i <= entries@.len(),
                forall|k: Seq<char>| #[trigger]
                    assoc_get(pairs_view(keys@), k) == lookup(entries@, i as nat, k),
                forall|j: int| 0 <= j < keys@.len() ==> #[trigger] keys@[j].1 < i,
            decreases entries.len() - i,
        {
            let ghost before = keys@;
            index_entry(&mut keys, &entries[i], i);
            assert forall|j: int| 0 <= j < keys@.len() implies #[trigger] keys@[j].1 < i + 1 by {
                if keys@[j].1 != i {
                    assert(before[j].1 < i);
                }
            }
            i = i + 1;
        }
        Matcher { entries, keys }
    }

    /// Resolve a Hyprland window class to its desktop entry.
    ///
    /// Falls back to the first dotted segment of the class, since some
    /// toolkits append a suffix to it (`foo.bin`).
    pub fn match_class(&self, class: &str) -> (r: Option<&Entry>)
        ensures
            match class_entry(self.entry_list(), class@) {
                Some(i) => r == Some(&self.entry_list()[i as int]),
                None => r is None,
            },
    {
        let c = chars_of(to_lowercase(class).as_str());
        if let Some(i) = self.get(&c) {
            return Some(&self.entries[i]);
        }
        let head = match split_once_vec(&c, &chars_of(".")) {
            Some((h, _)) => h,
            None => c,
        };
        match self.get(&head) {
            Some(i) => Some(&self.entries[i]),
            None => None,
        }
    }

    /// Look an entry up by its desktop id, for pinned items.
    pub fn by_id(&self, id: &str) -> (r: Option<&Entry>)
        ensures
            match entry_by_id(self.entry_list(), id@) {
                Some(i) => r == Some(&self.entry_list()[i]),
                None => r is None,
            },
    {
        let want = chars_of(to_lowercase(id).as_str());
        let ghost ids = lower_ids(self.entries@);
        let mut i: usize = 0;
        while i < self.entries.len()
            invariant
                i <= self.entries@.len(),
                ids == lower_ids(self.entries@),
                index_of(ids.take(i as int), want@) is None,
                want@ == lowercase(id@),
            decreases self.entries.len() - i,
        {
            assert(ids.take(i + 1).drop_last() =~= ids.take(i as int));
            let lid = chars_of(to_lowercase(self.entries[i].id.as_str()).as_str());
            if seq_eq(&lid, &want) {
                assert(index_of(ids.take(i + 1), want@) == Some(i as int));
                proof {
                    crate::lists::lemma_index_prefix(ids, want@, i + 1);
                }
                return Some(&self.entries[i]);
            }
            assert(index_of(ids.take(i + 1), want@) is None);
            i = i + 1;
        }
        assert(ids.take(self.entries.len() as int) =~= ids);
        None
    }

    /// Every class a pinned entry's windows might report.
    ///
    /// Candidates rather than one answer on purpose: `StartupWMClass` can be
    /// present *and wrong*, and a single authoritative pick would let one bad
    /// key shadow a working fallback.
    pub fn expected_classes(&self, id: &str) -> (r: Vec<String>)
        ensures
            strings(r@) == expected_classes_of(self.entry_list(), id@),
            strings(r@).no_duplicates(),
            forall|k: int| 0 <= k < r@.len() ==> (#[trigger] r@[k])@.len() > 0,
            id@.len() > 0 ==> strings(r@).contains(lowercase(id@)),
            entry_by_id(self.entry_list(), id@) is None && id@.len() > 0 ==> strings(r@) == seq![
                lowercase(id@),
            ],
            match entry_by_id(self.entry_list(), id@) {
                Some(i) => (self.entry_list()[i].id@.len() > 0 ==> strings(r@).contains(
                    lowercase(self.entry_list()[i].id@),
                )) && match self.entry_list()[i].wm_class {
                    Some(w) => w@.len() > 0 ==> r@.len() > 0 && r@[0]@ == lowercase(w@),
                    None => true,
                },
                None => true,
            },
    {
        let mut cands: Vec<String> = Vec::new();
        let ghost mut from_entry: Seq<Seq<char>> = Seq::empty();
        match self.by_id(id) {
            Some(e) => {
                proof {
                    let ids = lower_ids(self.entries@);
                    crate::lists::lemma_index_of(ids, lowercase(id@));
                }
                if let Some(w) = &e.wm_class {
                    cands.push(to_lowercase(w.as_str()));
                }
                if let Some(c) = chromium_app_class(e.exec_line.as_str()) {
                    cands.push(c);
                }
                cands.push(to_lowercase(e.id.as_str()));
                if let Some(b) = exec_basename(e.exec_line.as_str()) {
                    cands.push(b);
                }
            },
            None => {},
        }
        cands.push(to_lowercase(id));
        let ghost cv = strings(cands@);
        assert(cv == expected_classes_of_cands(self.entry_list(), id@));
        let mut out: Vec<String> = Vec::new();
        let mut i: usize = 0;
        while i < cands.len()
            invariant
                i <= cands@.len(),
                cv == strings(cands@),
                strings(out@) == unique_nonempty(cv.take(i as int)),
            decreases cands.len() - i,
        {
            assert(cv.take(i + 1).drop_last() =~= cv.take(i as int));
            let s = &cands[i];
            let ghost ov = strings(out@);
            if !s.as_str().is_empty() && !contains_string(&out, s) {
                out.push(s.clone());
                assert(strings(out@) =~= ov.push(cv[i as int]));
            }
            i = i + 1;
        }
        assert(cv.take(cands.len() as int) =~= cv);
        proof {
            lemma_no_candidate_shadows_another(self.entry_list(), id@);
            lemma_unique_nonempty(cv);
            lemma_unique_first(cv);
            let ov = strings(out@);
            assert forall|k: int| 0 <= k < out@.len() implies (#[trigger] out@[k])@.len() > 0 by {
                assert(ov[k] == out@[k]@);
                assert(ov.contains(ov[k]));
            }
            if entry_by_id(self.entry_list(), id@) is None && id@.len() > 0 {
                assert(cv == seq![lowercase(id@)]);
                assert(cv.drop_last() =~= Seq::<Seq<char>>::empty());
                assert(unique_nonempty(cv.drop_last()) == Seq::<Seq<char>>::empty());
                assert(ov =~= seq![lowercase(id@)]);
            }
            if let Some(i) = entry_by_id(self.entry_list(), id@) {
                let e = self.entry_list()[i];
                if e.id@.len() > 0 {
                    assert(lowercase(e.id@).len() > 0);
                    let k = (if e.wm_class is Some { 1int } else { 0int }) + (if chromium_class_of(
                        e.exec_line@,
                    ) is Some {
                        1int
                    } else {
                        0int
                    });
                    assert(cv[k] == lowercase(e.id@));
                    assert(cv.contains(lowercase(e.id@)));
                }
            }
        }
        out
    }

    pub fn entries(&self) -> (r: &[Entry])
        ensures
            r@ == self.entry_list(),
    {
        self.entries.as_slice()
    }
}

/// The candidate list `expected_classes_of` deduplicates.
pub open spec fn expected_classes_of_cands(entries: Seq<Entry>, id: Seq<char>) -> Seq<Seq<char>> {
    let from_entry = match entry_by_id(entries, id) {
        Some(i) => {
            let e = entries[i];
            opt_seq(
                match e.wm_class {
                    Some(w) => Some(lowercase(w@)),
                    None => None,
                },
            ) + opt_seq(chromium_class_of(e.exec_line@)) + seq![lowercase(e.id@)] + opt_seq(
                exec_basename_of(e.exec_line@),
            )
        },
        None => Seq::empty(),
    };
    from_entry + seq![lowercase(id)]
}

proof fn lemma_unique_nonempty(cands: Seq<Seq<char>>)
    ensures
        forall|x: Seq<char>| #[trigger] unique_nonempty(cands).contains(x) <==> (cands.contains(x) && x.len() > 0),
        unique_nonempty(cands).no_duplicates(),
    decreases cands.len(),
{
    if cands.len() > 0 {
        let d = cands.drop_last();
        let u = unique_nonempty(d);
        let c = cands.last();
        lemma_unique_nonempty(d);
        let r = unique_nonempty(cands);
        if c.len() > 0 && !u.contains(c) {
            assert(r == u.push(c));
            assert forall|i: int, j: int| 0 <= i < r.len() && 0 <= j < r.len() && i != j implies r[i] != r[j] by {
                if i < u.len() && j < u.len() {
                    assert(r[i] == u[i] && r[j] == u[j]);
                } else if i < u.len() {
                    assert(r[i] == u[i] && u.contains(u[i]));
                } else {
                    assert(r[j] == u[j] && u.contains(u[j]));
                }
            }
        }
        assert forall|x: Seq<char>| #[trigger] r.contains(x) <==> (cands.contains(x) && x.len() > 0) by {
            if r.contains(x) {
                let i = choose|i: int| 0 <= i < r.len() && r[i] == x;
                if i < u.len() {
                    assert(u[i] == x);
                    assert(u.contains(x));
                    let k = choose|k: int| 0 <= k < d.len() && d[k] == x;
                    assert(cands[k] == x);
                } else {
                    assert(cands[cands.len() - 1] == x);
                }
            }
            if cands.contains(x) && x.len() > 0 {
                let k = choose|k: int| 0 <= k < cands.len() && cands[k] == x;
                if k < d.len() {
                    assert(d[k] == x);
                    assert(d.contains(x));
                    assert(u.contains(x));
                    let i = choose|i: int| 0 <= i < u.len() && u[i] == x;
                    if r != u {
                        assert(r[i] == x);
                    }
                } else if r != u {
                    assert(r[u.len() as int] == x);
                }
            }
        }
    }
}

/// A non-empty first candidate stays first.
proof fn lemma_unique_first(cands: Seq<Seq<char>>)
    ensures
        cands.len() > 0 && cands[0].len() > 0 ==> unique_nonempty(cands).len() > 0
            && unique_nonempty(cands)[0] == cands[0],
    decreases cands.len(),
{
    if cands.len() > 1 {
        let d = cands.drop_last();
        lemma_unique_first(d);
        assert(d[0] == cands[0]);
        let u = unique_nonempty(d);
        assert(unique_nonempty(cands) == push_unique(u, cands.last()));
        if cands[0].len() > 0 {
            assert(u.len() > 0);
            assert(push_unique(u, cands.last())[0] == u[0]);
        }
    } else if cands.len() == 1 {
        assert(cands.drop_last() =~= Seq::<Seq<char>>::empty());
        assert(unique_nonempty(cands.drop_last()) == Seq::<Seq<char>>::empty());
        assert(cands.last() == cands[0]);
    }
}

/// No candidate class shadows another: every non-empty candidate — the
/// `StartupWMClass`, the web-app class, the desktop id, the executable's
/// name and the pinned id itself — stays among the expected classes, each
/// once, so a bogus `StartupWMClass` never hides the fallbacks after it.
pub proof fn lemma_no_candidate_shadows_another(entries: Seq<Entry>, id: Seq<char>)
    ensures
        forall|x: Seq<char>|
            #[trigger] expected_classes_of(entries, id).contains(x) <==> (
            expected_classes_of_cands(entries, id).contains(x) && x.len() > 0),
        expected_classes_of(entries, id).no_duplicates(),
        lowercase(id).len() > 0 ==> expected_classes_of(entries, id).contains(lowercase(id)),
{
    let c = expected_classes_of_cands(entries, id);
    assert(expected_classes_of(entries, id) == unique_nonempty(c));
    lemma_unique_nonempty(c);
    assert(c[c.len() - 1] == lowercase(id));
    assert(c.contains(lowercase(id)));
}

fn contains_string(out: &Vec<String>, s: &String) -> (r: bool)
    ensures
        r == out@.map_values(|x: String| x@).contains(s@),
{
    let ghost ov = out@.map_values(|x: String| x@);
    let mut i: usize = 0;
    while i < out.len()
        invariant
            i <= out@.len(),
            ov == out@.map_values(|x: String| x@),
            forall|j: int| 0 <= j < i ==> ov[j] != s@,
        decreases out.len() - i,
    {
        if out[i] == *s {
            assert(ov[i as int] == s@);
            return true;
        }
        i = i + 1;
    }
    false
}

fn lookup_pairs(keys: &Vec<(String, usize)>, k: &Vec<char>) -> (r: Option<usize>)
    ensures
        match r {
            Some(i) => assoc_get(pairs_view(keys@), k@) == Some(i as nat),
            None => assoc_get(pairs_view(keys@), k@) is None,
        },
{
    let ghost pv = pairs_view(keys@);
    let mut j: usize = keys.len();
    assert(pv.take(j as int) =~= pv);
    while j > 0
        invariant
            j <= keys@.len(),
            pv == pairs_view(keys@),
            assoc_get(pv, k@) == assoc_get(pv.take(j as int), k@),
        decreases j,
    {
        assert(pv.take(j as int).drop_last() =~= pv.take(j - 1));
        if seq_eq(&chars_of(keys[j - 1].0.as_str()), k) {
            return Some(keys[j - 1].1);
        }
        j = j - 1;
    }
    None
}

fn push_pair(keys: &mut Vec<(String, usize)>, k: String, v: usize)
    ensures
        pairs_view(final(keys)@) == pairs_view(old(keys)@).push((k@, v as nat)),
        final(keys)@ == old(keys)@.push((k, v)),
{
    keys.push((k, v));
    assert(pairs_view(keys@) =~= pairs_view(old(keys)@).push((k@, v as nat)));
}

} // verus!
