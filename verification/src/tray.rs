//! System tray: what a StatusNotifierItem host shows.
//!
//! Applications register a `StatusNotifierItem` with a
//! `StatusNotifierWatcher`, and any number of hosts may display them. The
//! D-Bus conversation is the application's; this module holds what the dock
//! makes of it: an item's label and urgency, where an item lives on the bus,
//! which of its pixmaps to draw, and the order items are shown in.
use vstd::prelude::*;
use std::sync::Arc;
use crate::text::{
    chars_of, concat, find, find_vec, lemma_lex_less_order, lex_less, seq_eq, slice_of, str_less,
    string_of,
};

verus! {

/// One tray item as the dock needs it.
#[derive(Debug)]
pub struct TrayItem {
    /// `<bus name><object path>`, which is what the watcher hands out and
    /// what every method call has to be addressed to. Also the item's
    /// identity across updates.
    pub service: String,
    /// Application id, e.g. "ChatGPT". Used as the fallback label.
    pub id: String,
    pub title: String,
    /// Themed icon name, if the app supplies one.
    pub icon_name: String,
    /// Extra directory to search for `icon_name`.
    pub icon_theme_path: String,
    /// Raw ARGB32 icon, network byte order, as a fallback when there is no
    /// themed icon: width, height, pixels. Shared, because the item list is
    /// cloned on every dock rebuild.
    pub pixmap: Option<Arc<(i32, i32, Vec<u8>)>>,
    /// "Passive", "Active" or "NeedsAttention".
    pub status: String,
}

impl Clone for TrayItem {
    fn clone(&self) -> (r: Self)
        ensures
            r == *self,
    {
        TrayItem {
            service: self.service.clone(),
            id: self.id.clone(),
            title: self.title.clone(),
            icon_name: self.icon_name.clone(),
            icon_theme_path: self.icon_theme_path.clone(),
            pixmap: match &self.pixmap {
                Some(p) => Some(Arc::clone(p)),
                None => None,
            },
            status: self.status.clone(),
        }
    }
}

impl TrayItem {
    /// What to show under the icon: the title, or the id without one.
    pub fn label(&self) -> (r: &str)
        ensures
            r@ == if self.title@.len() > 0 {
                self.title@
            } else {
                self.id@
            },
    {
        if !self.title.as_str().is_empty() {
            self.title.as_str()
        } else {
            self.id.as_str()
        }
    }

    /// Whether the item is asking for attention, which the dock bounces for.
    pub fn needs_attention(&self) -> (r: bool)
        ensures
            r == (self.status@ == "NeedsAttention"@),
    {
        seq_eq(&chars_of(self.status.as_str()), &chars_of("NeedsAttention"))
    }
}

/// Which button was used on a tray icon.
#[derive(Debug, Clone, Copy, PartialEq, Eq, Structural)]
pub enum Click {
    Primary,
    Secondary,
    Middle,
}

/// The path an item that names none is addressed at.
pub const DEFAULT_ITEM_PATH: &'static str = "/StatusNotifierItem";

/// The bus name and object path in a `<bus name><object path>` service.
pub open spec fn service_parts(service: Seq<char>) -> (Seq<char>, Seq<char>) {
    match find(service, seq!['/']) {
        Some(at) => (service.subrange(0, at), service.subrange(at, service.len() as int)),
        None => (service, DEFAULT_ITEM_PATH@),
    }
}

/// Split the watcher's `<bus name><object path>` into its two halves.
///
/// The watcher hands out either `org.example.Item-123-1/StatusNotifierItem`
/// or a unique name with a path, `:1.42/org/ayatana/NotificationItem/foo`.
/// An item that gives no path is addressed at the conventional default.
pub fn split_service(service: &str) -> (r: (String, String))
    ensures
        (r.0@, r.1@) == service_parts(service@),
{
    let v = chars_of(service);
    let mut slash: Vec<char> = Vec::new();
    slash.push('/');
    assert(slash@ =~= seq!['/']);
    match find_vec(&v, &slash) {
        Some(at) => {
            proof {
                crate::text::lemma_find_char(v@, '/');
            }
            (string_of(&slice_of(&v, 0, at)), string_of(&slice_of(&v, at, v.len())))
        },
        None => (string_of(&v), string_of(&chars_of(DEFAULT_ITEM_PATH))),
    }
}

/// The pixel count of a pixmap.
pub open spec fn area(p: (i32, i32, Vec<u8>)) -> int {
    p.0 * p.1
}

/// The largest pixmap, the last of equally large ones.
pub open spec fn largest(ps: Seq<(i32, i32, Vec<u8>)>) -> Option<int>
    decreases ps.len(),
{
    if ps.len() == 0 {
        None
    } else {
        match largest(ps.drop_last()) {
            Some(i) => if area(ps.last()) >= area(ps[i]) {
                Some(ps.len() - 1)
            } else {
                Some(i)
            },
            None => Some(ps.len() - 1),
        }
    }
}

/// Whether a pixmap can be uploaded: a positive size, and enough pixel
/// data for it, since a truncated one would be read past its end.
pub open spec fn usable(p: (i32, i32, Vec<u8>)) -> bool {
    p.0 > 0 && p.1 > 0 && p.2@.len() >= p.0 * p.1 * 4
}

/// What the pixmap choice computes in `i32` fits in it.
pub open spec fn pixmaps_fit(ps: Seq<(i32, i32, Vec<u8>)>) -> bool {
    &&& forall|i: int| 0 <= i < ps.len() ==> i32::MIN <= #[trigger] area(ps[i]) <= i32::MAX
    &&& match largest(ps) {
        Some(i) => ps[i].0 > 0 && ps[i].1 > 0 ==> area(ps[i]) * 4 <= i32::MAX,
        None => true,
    }
}

proof fn lemma_largest_bound(ps: Seq<(i32, i32, Vec<u8>)>)
    ensures
        match largest(ps) {
            Some(i) => 0 <= i < ps.len(),
            None => ps.len() == 0,
        },
    decreases ps.len(),
{
    if ps.len() > 0 {
        lemma_largest_bound(ps.drop_last());
    }
}

/// The pixmap to draw: the largest, since the dock's icons are big and
/// scaling up a small one looks wretched, and only if it can be uploaded.
pub fn best_pixmap(pixmaps: Vec<(i32, i32, Vec<u8>)>) -> (r: Option<(i32, i32, Vec<u8>)>)
    requires
        pixmaps_fit(pixmaps@),
    ensures
        match largest(pixmaps@) {
            Some(i) => if usable(pixmaps@[i]) {
                r == Some(pixmaps@[i])
            } else {
                r is None
            },
            None => r is None,
        },
{
    let mut best: Option<usize> = None;
    let mut i: usize = 0;
    while i < pixmaps.len()
        invariant
            i <= pixmaps@.len(),
            pixmaps_fit(pixmaps@),
            match best {
                Some(b) => largest(pixmaps@.take(i as int)) == Some(b as int) && b < i,
                None => i == 0,
            },
        decreases pixmaps.len() - i,
    {
        assert(pixmaps@.take(i + 1).drop_last() =~= pixmaps@.take(i as int));
        assert(i32::MIN <= area(pixmaps@[i as int]) <= i32::MAX);
        let a = pixmaps[i].0 * pixmaps[i].1;
        match best {
            Some(b) => {
                assert(pixmaps@.take(i + 1)[b as int] == pixmaps@[b as int]);
                assert(i32::MIN <= area(pixmaps@[b as int]) <= i32::MAX);
                let ab = pixmaps[b].0 * pixmaps[b].1;
                if a >= ab {
                    best = Some(i);
                }
            },
            None => {
                best = Some(i);
            },
        }
        i = i + 1;
    }
    assert(pixmaps@.take(pixmaps.len() as int) =~= pixmaps@);
    match best {
        Some(b) => {
            let (w, h) = (pixmaps[b].0, pixmaps[b].1);
            assert(w > 0 && h > 0 ==> area(pixmaps@[b as int]) * 4 <= i32::MAX);
            if w > 0 && h > 0 && pixmaps[b].2.len() >= (w * h * 4) as usize {
                let mut pixmaps = pixmaps;
                Some(pixmaps.swap_remove(b))
            } else {
                None
            }
        },
        None => None,
    }
}

// ── the item list ───────────────────────────────────────────────────────────

/// `item` placed into the service-ordered `sorted` after every item whose
/// service does not sort after it, so equal services keep their order.
pub open spec fn insert_by_service(sorted: Seq<TrayItem>, item: TrayItem) -> Seq<TrayItem>
    decreases sorted.len(),
{
    if sorted.len() == 0 {
        seq![item]
    } else if !lex_less(item.service@, sorted.last().service@) {
        sorted.push(item)
    } else {
        insert_by_service(sorted.drop_last(), item).push(sorted.last())
    }
}

/// Items ordered by service name, a stable sort, so icons do not reshuffle
/// whenever the host's map iterates in a different order.
pub open spec fn sort_by_service(items: Seq<TrayItem>) -> Seq<TrayItem>
    decreases items.len(),
{
    if items.len() == 0 {
        items
    } else {
        insert_by_service(sort_by_service(items.drop_last()), items.last())
    }
}

proof fn lemma_insert_by_service_at(s: Seq<TrayItem>, x: TrayItem, j: int)
    requires
        0 <= j <= s.len(),
        forall|k: int| j <= k < s.len() ==> lex_less(x.service@, #[trigger] s[k].service@),
        j == 0 || !lex_less(x.service@, s[j - 1].service@),
    ensures
        insert_by_service(s, x) == s.insert(j, x),
    decreases s.len(),
{
    if s.len() == 0 {
        assert(s.insert(j, x) =~= seq![x]);
    } else if !lex_less(x.service@, s.last().service@) {
        assert(j == s.len());
        assert(s.insert(j, x) =~= s.push(x));
    } else {
        let d = s.drop_last();
        lemma_insert_by_service_at(d, x, j);
        assert(d.insert(j, x).push(s.last()) =~= s.insert(j, x));
    }
}

/// No two items share a service, as in the host's map of items.
pub open spec fn services_distinct(s: Seq<TrayItem>) -> bool {
    forall|i: int, j: int|
        0 <= i < s.len() && 0 <= j < s.len() && i != j ==> #[trigger] s[i].service@
            != #[trigger] s[j].service@
}

/// Items strictly in service order.
pub open spec fn in_service_order(s: Seq<TrayItem>) -> bool {
    forall|i: int, j: int|
        0 <= i < j < s.len() ==> lex_less(#[trigger] s[i].service@, #[trigger] s[j].service@)
}

spec fn has_service(s: Seq<TrayItem>, service: Seq<char>) -> bool {
    exists|j: int| 0 <= j < s.len() && #[trigger] s[j].service@ == service
}

proof fn lemma_insert_by_service(t: Seq<TrayItem>, e: TrayItem)
    requires
        in_service_order(t),
        !has_service(t, e.service@),
    ensures
        in_service_order(insert_by_service(t, e)),
        insert_by_service(t, e).len() == t.len() + 1,
        forall|x: TrayItem| #[trigger] insert_by_service(t, e).contains(x) <==> (t.contains(x) || x == e),
    decreases t.len(),
{
    let r = insert_by_service(t, e);
    if t.len() == 0 {
        assert forall|x: TrayItem| #[trigger] r.contains(x) <==> (t.contains(x) || x == e) by {
            if r.contains(x) || x == e {
                assert(r[0] == e);
            }
        }
    } else if !lex_less(e.service@, t.last().service@) {
        let n = t.len() - 1;
        assert(t[n].service@ != e.service@);
        lemma_lex_less_order(e.service@, t[n].service@, e.service@);
        assert(r == t.push(e));
        assert forall|i: int, j: int| 0 <= i < j < r.len() implies lex_less(
            #[trigger] r[i].service@,
            #[trigger] r[j].service@,
        ) by {
            if j < t.len() {
                assert(r[i] == t[i] && r[j] == t[j]);
            } else {
                assert(r[i] == t[i] && r[j] == e);
                if i < n {
                    lemma_lex_less_order(t[i].service@, t[n].service@, e.service@);
                }
            }
        }
        assert forall|x: TrayItem| #[trigger] r.contains(x) <==> (t.contains(x) || x == e) by {
            if r.contains(x) {
                let i = choose|i: int| 0 <= i < r.len() && r[i] == x;
                if i < t.len() {
                    assert(t[i] == x);
                }
            }
            if t.contains(x) {
                let i = choose|i: int| 0 <= i < t.len() && t[i] == x;
                assert(r[i] == x);
            }
            if x == e {
                assert(r[t.len() as int] == e);
            }
        }
    } else {
        let d = t.drop_last();
        let last = t.last();
        let n = t.len() - 1;
        assert(in_service_order(d)) by {
            assert forall|i: int, j: int| 0 <= i < j < d.len() implies lex_less(
                #[trigger] d[i].service@,
                #[trigger] d[j].service@,
            ) by {
                assert(d[i] == t[i] && d[j] == t[j]);
            }
        }
        assert(!has_service(d, e.service@)) by {
            if has_service(d, e.service@) {
                let j = choose|j: int| 0 <= j < d.len() && #[trigger] d[j].service@ == e.service@;
                assert(t[j] == d[j]);
            }
        }
        lemma_insert_by_service(d, e);
        let q = insert_by_service(d, e);
        assert(r == q.push(last));
        assert forall|i: int, j: int| 0 <= i < j < r.len() implies lex_less(
            #[trigger] r[i].service@,
            #[trigger] r[j].service@,
        ) by {
            if j < q.len() {
                assert(r[i] == q[i] && r[j] == q[j]);
            } else {
                assert(r[i] == q[i] && r[j] == last);
                assert(q.contains(q[i]));
                if q[i] != e {
                    let k = choose|k: int| 0 <= k < d.len() && d[k] == q[i];
                    assert(t[k] == q[i]);
                    assert(lex_less(t[k].service@, t[n].service@));
                }
            }
        }
        assert forall|x: TrayItem| #[trigger] r.contains(x) <==> (t.contains(x) || x == e) by {
            if r.contains(x) {
                let i = choose|i: int| 0 <= i < r.len() && r[i] == x;
                if i < q.len() {
                    assert(q[i] == x);
                    assert(q.contains(x));
                    if x != e {
                        let k = choose|k: int| 0 <= k < d.len() && d[k] == x;
                        assert(t[k] == x);
                    }
                } else {
                    assert(t[n] == x);
                }
            }
            if t.contains(x) {
                let i = choose|i: int| 0 <= i < t.len() && t[i] == x;
                if i < n {
                    assert(d[i] == x);
                    assert(d.contains(x));
                    assert(q.contains(x));
                    let k = choose|k: int| 0 <= k < q.len() && q[k] == x;
                    assert(r[k] == x);
                } else {
                    assert(r[q.len() as int] == x);
                }
            }
            if x == e {
                assert(q.contains(e));
                let k = choose|k: int| 0 <= k < q.len() && q[k] == e;
                assert(r[k] == e);
            }
        }
    }
}

proof fn lemma_sort_by_service(s: Seq<TrayItem>)
    requires
        services_distinct(s),
    ensures
        in_service_order(sort_by_service(s)),
        sort_by_service(s).len() == s.len(),
        forall|x: TrayItem| #[trigger] sort_by_service(s).contains(x) <==> s.contains(x),
    decreases s.len(),
{
    if s.len() > 0 {
        let d = s.drop_last();
        let last = s.last();
        assert(services_distinct(d)) by {
            assert forall|i: int, j: int| 0 <= i < d.len() && 0 <= j < d.len() && i != j implies #[trigger] d[i].service@
                != #[trigger] d[j].service@ by {
                assert(d[i] == s[i] && d[j] == s[j]);
            }
        }
        lemma_sort_by_service(d);
        let t = sort_by_service(d);
        assert(!has_service(t, last.service@)) by {
            if has_service(t, last.service@) {
                let j = choose|j: int| 0 <= j < t.len() && #[trigger] t[j].service@ == last.service@;
                assert(t.contains(t[j]));
                let k = choose|k: int| 0 <= k < d.len() && d[k] == t[j];
                assert(s[k] == d[k]);
                assert(s[s.len() - 1] == last);
            }
        }
        lemma_insert_by_service(t, last);
        assert forall|x: TrayItem| #[trigger] sort_by_service(s).contains(x) <==> s.contains(x) by {
            if s.contains(x) {
                let i = choose|i: int| 0 <= i < s.len() && s[i] == x;
                if i < d.len() {
                    assert(d[i] == x);
                    assert(d.contains(x));
                }
            }
            if d.contains(x) {
                let i = choose|i: int| 0 <= i < d.len() && d[i] == x;
                assert(s[i] == x);
            }
            if x == last {
                assert(s[s.len() - 1] == x);
            }
        }
    }
}

/// Two lists strictly in service order with the same items are the same.
proof fn lemma_service_order_unique(a: Seq<TrayItem>, b: Seq<TrayItem>)
    requires
        in_service_order(a),
        in_service_order(b),
        a.len() == b.len(),
        forall|x: TrayItem| #[trigger] a.contains(x) <==> b.contains(x),
    ensures
        a == b,
    decreases a.len(),
{
    if a.len() > 0 {
        assert(a.contains(a[0]));
        assert(b.contains(a[0]));
        assert(b.contains(b[0]));
        assert(a.contains(b[0]));
        let j = choose|j: int| 0 <= j < b.len() && b[j] == a[0];
        let k = choose|k: int| 0 <= k < a.len() && a[k] == b[0];
        if j > 0 {
            assert(lex_less(b[0].service@, b[j].service@));
            if k > 0 {
                assert(lex_less(a[0].service@, a[k].service@));
                lemma_lex_less_order(a[0].service@, b[0].service@, a[0].service@);
            } else {
                lemma_lex_less_order(a[0].service@, a[0].service@, a[0].service@);
            }
        }
        assert(a[0] == b[0]);
        let (a1, b1) = (a.drop_first(), b.drop_first());
        assert(in_service_order(a1)) by {
            assert forall|i: int, j: int| 0 <= i < j < a1.len() implies lex_less(
                #[trigger] a1[i].service@,
                #[trigger] a1[j].service@,
            ) by {
                assert(a1[i] == a[i + 1] && a1[j] == a[j + 1]);
            }
        }
        assert(in_service_order(b1)) by {
            assert forall|i: int, j: int| 0 <= i < j < b1.len() implies lex_less(
                #[trigger] b1[i].service@,
                #[trigger] b1[j].service@,
            ) by {
                assert(b1[i] == b[i + 1] && b1[j] == b[j + 1]);
            }
        }
        assert forall|x: TrayItem| #[trigger] a1.contains(x) <==> b1.contains(x) by {
            if a1.contains(x) {
                let i = choose|i: int| 0 <= i < a1.len() && a1[i] == x;
                assert(a[i + 1] == x);
                assert(a.contains(x));
                let m = choose|m: int| 0 <= m < b.len() && b[m] == x;
                if m == 0 {
                    assert(lex_less(a[0].service@, a[i + 1].service@));
                    lemma_lex_less_order(a[0].service@, a[0].service@, a[0].service@);
                }
                assert(b1[m - 1] == x);
            }
            if b1.contains(x) {
                let i = choose|i: int| 0 <= i < b1.len() && b1[i] == x;
                assert(b[i + 1] == x);
                assert(b.contains(x));
                assert(a.contains(x));
                let m = choose|m: int| 0 <= m < a.len() && a[m] == x;
                if m == 0 {
                    assert(lex_less(b[0].service@, b[i + 1].service@));
                    lemma_lex_less_order(b[0].service@, b[0].service@, b[0].service@);
                }
                assert(a1[m - 1] == x);
            }
        }
        lemma_service_order_unique(a1, b1);
        assert(a =~= seq![a[0]] + a1);
        assert(b =~= seq![b[0]] + b1);
    } else {
        assert(a =~= b);
    }
}

/// Tray icons do not reshuffle when the host's map hands its items out in
/// another order: any two listings of the same items, one per service,
/// come out in the same order, strictly by service.
pub proof fn lemma_tray_order_is_stable(a: Seq<TrayItem>, b: Seq<TrayItem>)
    requires
        services_distinct(a),
        services_distinct(b),
        a.len() == b.len(),
        forall|x: TrayItem| #[trigger] a.contains(x) <==> b.contains(x),
    ensures
        sort_by_service(a) == sort_by_service(b),
        in_service_order(sort_by_service(a)),
{
    lemma_sort_by_service(a);
    lemma_sort_by_service(b);
    let (sa, sb) = (sort_by_service(a), sort_by_service(b));
    assert forall|x: TrayItem| #[trigger] sa.contains(x) <==> sb.contains(x) by {
        assert(sa.contains(x) <==> a.contains(x));
        assert(sb.contains(x) <==> b.contains(x));
    }
    lemma_service_order_unique(sa, sb);
}

/// The items in the order the dock shows them.
pub fn sorted_by_service(items: Vec<TrayItem>) -> (r: Vec<TrayItem>)
    ensures
        r@ == sort_by_service(items@),
{
    let mut sorted: Vec<TrayItem> = Vec::new();
    let mut i: usize = 0;
    while i < items.len()
        invariant
            i <= items@.len(),
            sorted@ == sort_by_service(items@.take(i as int)),
        decreases items.len() - i,
    {
        assert(items@.take(i + 1).drop_last() =~= items@.take(i as int));
        let x = items[i].clone();
        let mut j: usize = sorted.len();
        while j > 0 && str_less(x.service.as_str(), sorted[j - 1].service.as_str())
            invariant
                j <= sorted@.len(),
                forall|k: int| j <= k < sorted@.len() ==> lex_less(x.service@, #[trigger] sorted@[k].service@),
            decreases j,
        {
            j = j - 1;
        }
        proof {
            lemma_insert_by_service_at(sorted@, x, j as int);
        }
        sorted.insert(j, x);
        i = i + 1;
    }
    assert(items@.take(items.len() as int) =~= items@);
    sorted
}

} // verus!
