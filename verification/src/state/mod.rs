//! The dock's window-state engine.
//!
//! Reconciles three inputs — the pinned list, the live Hyprland window set,
//! and which window is focused — into the ordered items the UI renders.
use vstd::prelude::*;
use crate::desktop::{Action, ActionView, actions_view};
use crate::hypr::Address;
use crate::lists::{index_of, lemma_index_of, lemma_index_prefix};
use crate::text::{
    chars_of, decimal, lemma_parse_decimal, parse_usize, parse_usize_vec, strip_prefix,
    strip_prefix_vec, string_of, usize_to_string,
};
use vstd::string::StrSliceExecFns;
use crate::config::CommandItem;
use crate::paths::{file_name, file_name_exec, same_path, same_path_exec};
use crate::text::{lowercase, seq_eq, to_lowercase, trim};

pub mod matcher;
pub mod dock;
pub mod shown;

pub use dock::{DockState, Host};

verus! {

/// Token in the pinned list that renders as a divider.
pub const SEPARATOR: &'static str = "---";

/// Prefix that marks a pinned id as a command tile rather than an app.
pub const COMMAND_KEY: &'static str = "cmd:";

/// What a dock slot is. Slots are not interchangeable: a separator is narrow
/// and inert, the launcher never represents a window, and only apps can run.
#[derive(Debug, Clone, Copy, PartialEq, Eq, Structural)]
pub enum ItemKind {
    /// Omarchy menu button, pinned to the head of the dock.
    Launcher,
    App,
    /// A divider — either user-placed or the automatic one that fences pinned
    /// apps off from running-but-unpinned ones.
    Separator,
    /// A macOS-style stack: a directory whose recent contents fan out.
    Folder,
    Trash,
    /// One Hyprland workspace, rendered as a numbered tile.
    Workspace,
    /// Omarchy's scratchpad, the `special:scratchpad` workspace.
    Scratchpad,
    /// A pinned shell command with a glyph, rather than an application.
    Command,
}

/// One rendered dock item.
#[derive(Debug)]
pub struct DockItem {
    pub kind: ItemKind,
    /// Stable identity: desktop id for known apps, else the window class.
    pub key: String,
    pub label: String,
    pub icon: String,
    /// Windows belonging to this item, in Hyprland's order.
    pub windows: Vec<Address>,
    pub pinned: bool,
    /// True when one of this item's windows holds focus.
    pub active: bool,
    /// True when any of its windows asked for attention.
    pub urgent: bool,
    /// True when every window is on a special (scratchpad) workspace.
    pub scratchpad: bool,
    /// Which of `windows` currently holds focus, for click-to-cycle.
    pub active_window: Option<Address>,
    /// Command line to launch when nothing is running.
    pub exec_line: String,
    /// `Desktop Action` entries, offered in the context menu.
    pub actions: Vec<Action>,
    /// Filesystem path, for folder stacks and Trash.
    pub path: Option<String>,
    /// Index in `items.pinned`, for entries that live there. `None` for
    /// derived items, which have nothing to reorder.
    pub pin_index: Option<usize>,
    /// Monochrome glyph to draw instead of a themed icon. `None` for real
    /// applications, which always keep their own icon.
    pub glyph: Option<String>,
}

/// The window addresses of an item, by their characters.
pub open spec fn addresses(w: Seq<Address>) -> Seq<Seq<char>> {
    w.map_values(|a: Address| a@)
}



/// The position a left-click lands on: the window after the focused one,
/// wrapping, or the first window when the item is not focused (or its focus
/// is stale). `None` when nothing is running.
pub open spec fn click_index(windows: Seq<Seq<char>>, active: Option<Seq<char>>) -> Option<int> {
    if windows.len() == 0 {
        None
    } else {
        Some(
            match active {
                Some(cur) => match index_of(windows, cur) {
                    Some(at) => (at + 1) % (windows.len() as int),
                    None => 0,
                },
                None => 0,
            },
        )
    }
}

/// Where focus is after `k` left-clicks on an item showing `windows`, focus
/// starting at `active`: each click focuses the window it targets.
pub open spec fn after_clicks(windows: Seq<Seq<char>>, active: Option<Seq<char>>, k: nat) -> Option<
    Seq<char>,
>
    decreases k,
{
    if k == 0 {
        active
    } else {
        let prev = after_clicks(windows, active, (k - 1) as nat);
        match click_index(windows, prev) {
            Some(i) => Some(windows[i]),
            None => prev,
        }
    }
}

proof fn lemma_click_step(windows: Seq<Seq<char>>, p: int)
    requires
        windows.no_duplicates(),
        0 <= p < windows.len(),
    ensures
        click_index(windows, Some(windows[p])) == Some((p + 1) % (windows.len() as int)),
{
    lemma_index_of(windows, windows[p]);
}

/// Repeated clicks cycle through every window of an app and wrap: from the
/// focused window `i`, `k` clicks land on window `i + k`, modulo the
/// window count; from anywhere else the first click lands on the first
/// window, and the clicks after it go round from there.
pub proof fn lemma_clicks_cycle(windows: Seq<Seq<char>>, i: int, k: nat)
    requires
        windows.no_duplicates(),
        0 <= i < windows.len(),
    ensures
        after_clicks(windows, Some(windows[i]), k) == Some(windows[(i + k) % (windows.len() as int)]),
        k > 0 ==> after_clicks(windows, None, k) == Some(windows[(k - 1) % (windows.len() as int)]),
    decreases k,
{
    let n = windows.len() as int;
    if k == 0 {
        vstd::arithmetic::div_mod::lemma_small_mod(i as nat, n as nat);
    } else {
        lemma_clicks_cycle(windows, i, (k - 1) as nat);
        let p = (i + k - 1) % n;
        vstd::arithmetic::div_mod::lemma_mod_pos_bound(i + k - 1, n);
        lemma_click_step(windows, p);
        vstd::arithmetic::div_mod::lemma_add_mod_noop_right(1, i + k - 1, n);
        assert(1 + p == p + 1);
        if k == 1 {
            vstd::arithmetic::div_mod::lemma_small_mod(0, n as nat);
        } else {
            let q = (k - 2) % n;
            vstd::arithmetic::div_mod::lemma_mod_pos_bound(k - 2, n);
            lemma_click_step(windows, q);
            vstd::arithmetic::div_mod::lemma_add_mod_noop_right(1, k - 2, n);
            assert(1 + q == q + 1);
        }
    }
}

pub open spec fn opt_addr(a: Option<Address>) -> Option<Seq<char>> {
    match a {
        Some(x) => Some(x@),
        None => None,
    }
}

fn position_of(w: &Vec<Address>, a: &Address) -> (r: Option<usize>)
    ensures
        match r {
            Some(i) => index_of(addresses(w@), a@) == Some(i as int),
            None => index_of(addresses(w@), a@) is None,
        },
{
    let mut i: usize = 0;
    while i < w.len()
        invariant
            i <= w.len(),
            index_of(addresses(w@).take(i as int), a@) is None,
        decreases w.len() - i,
    {
        assert(addresses(w@).take(i + 1).drop_last() =~= addresses(w@).take(i as int));
        if w[i].same(a) {
            assert(index_of(addresses(w@).take(i + 1), a@) == Some(i as int));
            proof {
                lemma_index_prefix(addresses(w@), a@, i + 1);
            }
            return Some(i);
        }
        assert(index_of(addresses(w@).take(i + 1), a@) is None);
        i = i + 1;
    }
    assert(addresses(w@).take(w.len() as int) =~= addresses(w@));
    None
}


impl DockItem {
    /// Whether this item gets a running-indicator dot beneath it.
    ///
    /// A workspace tile already says how full it is through its own
    /// brightness, so a dot underneath repeats it. Command tiles never run
    /// anything.
    pub fn shows_indicator(&self) -> (r: bool)
        ensures
            r == (self.kind != ItemKind::Workspace && self.kind != ItemKind::Command
                && self.windows@.len() > 0),
    {
        !(self.kind == ItemKind::Workspace || self.kind == ItemKind::Command) && self.running()
    }

    pub fn running(&self) -> (r: bool)
        ensures
            r == (self.windows@.len() > 0),
    {
        self.windows.len() > 0
    }

    /// Separators take no input and show no indicator.
    pub fn interactive(&self) -> (r: bool)
        ensures
            r == (self.kind != ItemKind::Separator),
    {
        self.kind != ItemKind::Separator
    }

    /// Count shown as a badge; `None` below two windows.
    pub fn badge(&self) -> (r: Option<usize>)
        ensures
            r == (if self.windows@.len() > 1 {
                Some(self.windows@.len() as usize)
            } else {
                None
            }),
    {
        if self.windows.len() > 1 {
            Some(self.windows.len())
        } else {
            None
        }
    }

    /// Which window a left-click should focus.
    ///
    /// Clicking an app that already holds focus advances to its next window,
    /// so repeated clicks cycle. Clicking an app that does *not* hold focus
    /// jumps to its first window rather than resuming the cycle.
    pub fn click_target(&self) -> (r: Option<&Address>)
        ensures
            match click_index(addresses(self.windows@), opt_addr(self.active_window)) {
                Some(i) => r == Some(&self.windows@[i]),
                None => r is None,
            },
    {
        if self.windows.len() == 0 {
            return None;
        }
        let next = match &self.active_window {
            Some(current) => match position_of(&self.windows, current) {
                Some(at) => {
                    proof {
                        lemma_index_of(addresses(self.windows@), current@);
                    }
                    (at + 1) % self.windows.len()
                },
                None => 0,
            },
            None => 0,
        };
        Some(&self.windows[next])
    }
}

// ── keys ────────────────────────────────────────────────────────────────────

/// Workspace name a workspace tile refers to, if it is one.
pub fn workspace_of(key: &str) -> (r: Option<&str>)
    ensures
        match r {
            Some(w) => strip_prefix(key@, "__ws:"@) == Some(w@),
            None => strip_prefix(key@, "__ws:"@) is None,
        },
{
    let k = chars_of(key);
    let p = chars_of("__ws:");
    match strip_prefix_vec(&k, &p) {
        Some(_) => Some(key.substring_char(p.len(), k.len())),
        None => None,
    }
}

/// Identity used to match an item against an updated item list: the key,
/// except that separators are interchangeable within their class — user
/// placed or automatic.
pub open spec fn item_match_key(item: DockItem) -> Seq<char> {
    if item.kind != ItemKind::Separator {
        item.key@
    } else if item.pin_index is Some {
        "\u{0}separator:user"@
    } else {
        "\u{0}separator:auto"@
    }
}

pub fn match_key(item: &DockItem) -> (r: &str)
    ensures
        r@ == item_match_key(*item),
{
    if item.kind != ItemKind::Separator {
        return item.key.as_str();
    }
    if item.pin_index.is_some() {
        "\u{0}separator:user"
    } else {
        "\u{0}separator:auto"
    }
}

pub open spec fn match_keys(items: Seq<DockItem>) -> Seq<Seq<char>> {
    items.map_values(|d: DockItem| item_match_key(d))
}

/// The first unclaimed position in `old` holding key `k`.
pub open spec fn first_free(old: Seq<Seq<char>>, taken: Seq<bool>, k: Seq<char>, i: int) -> Option<int>
    decreases old.len() - i,
{
    if i < 0 || i >= old.len() {
        None
    } else if !taken[i] && old[i] == k {
        Some(i)
    } else {
        first_free(old, taken, k, i + 1)
    }
}

/// The greedy claim after matching the first `j` new keys: which old slots
/// are taken and where each new position came from.
pub open spec fn greedy(old: Seq<Seq<char>>, new: Seq<Seq<char>>, j: nat) -> Option<(Seq<bool>, Seq<int>)>
    decreases j,
{
    if j == 0 {
        Some((Seq::new(old.len(), |i: int| false), Seq::empty()))
    } else {
        match greedy(old, new, (j - 1) as nat) {
            None => None,
            Some((taken, from)) => match first_free(old, taken, new[j - 1], 0) {
                None => None,
                Some(at) => Some((taken.update(at, true), from.push(at))),
            },
        }
    }
}

/// For each position in `new`, which position in `old` holds that item,
/// each old position claimed once; `None` when the lists differ in length or
/// some new key finds no unclaimed old slot.
pub open spec fn permutation_of(old: Seq<Seq<char>>, new: Seq<Seq<char>>) -> Option<Seq<int>> {
    if old.len() != new.len() {
        None
    } else {
        match greedy(old, new, new.len()) {
            Some((_, from)) => Some(from),
            None => None,
        }
    }
}

pub proof fn lemma_greedy_shape(old: Seq<Seq<char>>, new: Seq<Seq<char>>, j: nat)
    requires
        j <= new.len(),
    ensures
        match greedy(old, new, j) {
            Some((taken, from)) => taken.len() == old.len() && from.len() == j,
            None => true,
        },
    decreases j,
{
    if j > 0 {
        lemma_greedy_shape(old, new, (j - 1) as nat);
        match greedy(old, new, (j - 1) as nat) {
            Some((taken, from)) => {
                lemma_first_free(old, taken, new[j - 1], 0);
            },
            None => {},
        }
    }
}

pub proof fn lemma_first_free(old: Seq<Seq<char>>, taken: Seq<bool>, k: Seq<char>, i: int)
    requires
        taken.len() == old.len(),
        0 <= i,
    ensures
        match first_free(old, taken, k, i) {
            Some(at) => i <= at < old.len() && !taken[at] && old[at] == k && forall|m: int|
                i <= m < at ==> !(!taken[m] && old[m] == k),
            None => forall|m: int| i <= m < old.len() ==> !(!taken[m] && old[m] == k),
        },
    decreases old.len() - i,
{
    if i < old.len() && !(!taken[i] && old[i] == k) {
        lemma_first_free(old, taken, k, i + 1);
    }
}

/// What the greedy claim keeps true after `j` new keys: each claimed
/// position holds that key, is taken, and is claimed once.
pub open spec fn claim_consistent(old: Seq<Seq<char>>, new: Seq<Seq<char>>, taken: Seq<bool>, from: Seq<int>) -> bool {
    &&& taken.len() == old.len()
    &&& forall|k: int| 0 <= k < from.len() ==> 0 <= #[trigger] from[k] < old.len() && old[from[k]] == new[k] && taken[from[k]]
    &&& forall|k1: int, k2: int| 0 <= k1 < k2 < from.len() ==> #[trigger] from[k1] != #[trigger] from[k2]
    &&& forall|i: int| 0 <= i < old.len() && #[trigger] taken[i] ==> exists|k: int| 0 <= k < from.len() && from[k] == i
}

proof fn lemma_greedy_consistent(old: Seq<Seq<char>>, new: Seq<Seq<char>>, j: nat)
    requires
        j <= new.len(),
    ensures
        greedy(old, new, j) matches Some((taken, from)) ==> from.len() == j && claim_consistent(old, new, taken, from),
    decreases j,
{
    if j > 0 {
        lemma_greedy_consistent(old, new, (j - 1) as nat);
        if let Some((taken, from)) = greedy(old, new, (j - 1) as nat) {
            lemma_first_free(old, taken, new[j - 1], 0);
            if let Some(at) = first_free(old, taken, new[j - 1], 0) {
                let t2 = taken.update(at, true);
                let f2 = from.push(at);
                assert forall|k: int| 0 <= k < f2.len() implies 0 <= #[trigger] f2[k] < old.len() && old[f2[k]] == new[k] && t2[f2[k]] by {
                    if k < from.len() {
                        assert(f2[k] == from[k]);
                    }
                }
                assert forall|k1: int, k2: int| 0 <= k1 < k2 < f2.len() implies #[trigger] f2[k1] != #[trigger] f2[k2] by {
                    if k2 < from.len() {
                        assert(f2[k1] == from[k1] && f2[k2] == from[k2]);
                    } else {
                        assert(f2[k1] == from[k1]);
                        assert(taken[from[k1]]);
                    }
                }
                assert forall|i: int| 0 <= i < old.len() && #[trigger] t2[i] implies exists|k: int| 0 <= k < f2.len() && f2[k] == i by {
                    if i == at {
                        assert(f2[f2.len() - 1] == i);
                    } else {
                        assert(taken[i]);
                        let k = choose|k: int| 0 <= k < from.len() && from[k] == i;
                        assert(f2[k] == i);
                    }
                }
            }
        }
    }
}

/// Reading the old items through a matched permutation reproduces the new
/// ones: every new position names an old position holding the same match
/// key, and no old position is named twice — which is what lets the dock
/// move its existing widgets instead of rebuilding them.
pub proof fn lemma_permutation_reproduces_new(old: Seq<Seq<char>>, new: Seq<Seq<char>>)
    ensures
        permutation_of(old, new) matches Some(from) ==> {
            &&& from.len() == new.len() == old.len()
            &&& forall|j: int| 0 <= j < from.len() ==> 0 <= #[trigger] from[j] < old.len() && old[from[j]] == new[j]
            &&& forall|j1: int, j2: int| 0 <= j1 < j2 < from.len() ==> #[trigger] from[j1] != #[trigger] from[j2]
        },
{
    if old.len() == new.len() {
        lemma_greedy_consistent(old, new, new.len());
    }
}

/// How many times `w` occurs in `s`.
pub open spec fn occurrences(s: Seq<Seq<char>>, w: Seq<char>) -> nat
    decreases s.len(),
{
    if s.len() == 0 {
        0
    } else {
        occurrences(s.drop_last(), w) + if s.last() == w {
            1nat
        } else {
            0nat
        }
    }
}

/// How many of the first `n` old positions are taken and hold `w`.
pub open spec fn taken_with(old: Seq<Seq<char>>, taken: Seq<bool>, w: Seq<char>, n: int) -> nat
    decreases n,
{
    if n <= 0 {
        0
    } else {
        taken_with(old, taken, w, n - 1) + if taken[n - 1] && old[n - 1] == w {
            1nat
        } else {
            0nat
        }
    }
}

proof fn lemma_taken_with_update(old: Seq<Seq<char>>, taken: Seq<bool>, at: int, w: Seq<char>, n: int)
    requires
        0 <= at < taken.len(),
        !taken[at],
        0 <= n <= taken.len(),
    ensures
        taken_with(old, taken.update(at, true), w, n) == taken_with(old, taken, w, n) + if at < n
            && old[at] == w {
            1nat
        } else {
            0nat
        },
    decreases n,
{
    if n > 0 {
        lemma_taken_with_update(old, taken, at, w, n - 1);
    }
}

proof fn lemma_taken_with_none(old: Seq<Seq<char>>, taken: Seq<bool>, w: Seq<char>, n: int)
    requires
        0 <= n <= taken.len(),
        forall|i: int| 0 <= i < taken.len() ==> !taken[i],
    ensures
        taken_with(old, taken, w, n) == 0,
    decreases n,
{
    if n > 0 {
        lemma_taken_with_none(old, taken, w, n - 1);
    }
}

proof fn lemma_free_slot_exists(old: Seq<Seq<char>>, taken: Seq<bool>, w: Seq<char>, n: int)
    requires
        0 <= n <= old.len() == taken.len(),
        taken_with(old, taken, w, n) < occurrences(old.take(n), w),
    ensures
        exists|i: int| 0 <= i < n && !taken[i] && old[i] == w,
    decreases n,
{
    assert(old.take(n).drop_last() =~= old.take(n - 1));
    if !(!taken[n - 1] && old[n - 1] == w) {
        lemma_free_slot_exists(old, taken, w, n - 1);
        let i = choose|i: int| 0 <= i < n - 1 && !taken[i] && old[i] == w;
        assert(0 <= i < n && !taken[i] && old[i] == w);
    }
}

proof fn lemma_occurrences_prefix(s: Seq<Seq<char>>, m: int, w: Seq<char>)
    requires
        0 <= m <= s.len(),
    ensures
        occurrences(s.take(m), w) <= occurrences(s, w),
    decreases s.len() - m,
{
    if m < s.len() {
        assert(s.take(m + 1).drop_last() =~= s.take(m));
        lemma_occurrences_prefix(s, m + 1, w);
    } else {
        assert(s.take(m) =~= s);
    }
}

proof fn lemma_greedy_complete(old: Seq<Seq<char>>, new: Seq<Seq<char>>, j: nat)
    requires
        old.len() == new.len(),
        j <= new.len(),
        forall|w: Seq<char>| occurrences(old, w) == #[trigger] occurrences(new, w),
    ensures
        greedy(old, new, j) matches Some((taken, from)) && taken.len() == old.len() && forall|w: Seq<char>|
            #[trigger] taken_with(old, taken, w, old.len() as int) == occurrences(new.take(j as int), w),
    decreases j,
{
    if j == 0 {
        let taken = Seq::new(old.len(), |i: int| false);
        assert forall|w: Seq<char>| #[trigger] taken_with(old, taken, w, old.len() as int) == occurrences(new.take(0), w) by {
            lemma_taken_with_none(old, taken, w, old.len() as int);
            assert(new.take(0) =~= Seq::<Seq<char>>::empty());
        }
    } else {
        lemma_greedy_complete(old, new, (j - 1) as nat);
        let (taken, from) = greedy(old, new, (j - 1) as nat)->0;
        let w = new[j - 1];
        let p = j - 1;
        assert(new.take(j as int).drop_last() =~= new.take(p));
        lemma_occurrences_prefix(new, j as int, w);
        assert(old.take(old.len() as int) =~= old);
        assert(taken_with(old, taken, w, old.len() as int) < occurrences(old.take(old.len() as int), w));
        lemma_free_slot_exists(old, taken, w, old.len() as int);
        lemma_first_free(old, taken, w, 0);
        let at = first_free(old, taken, w, 0)->0;
        assert forall|v: Seq<char>| #[trigger] taken_with(old, taken.update(at, true), v, old.len() as int)
            == occurrences(new.take(j as int), v) by {
            lemma_taken_with_update(old, taken, at, v, old.len() as int);
        }
    }
}

/// Two item lists that hold the same match keys the same number of times
/// are always matched: a mere reordering never forces a rebuild.
pub proof fn lemma_rearrangement_is_matched(old: Seq<Seq<char>>, new: Seq<Seq<char>>)
    requires
        old.len() == new.len(),
        forall|w: Seq<char>| occurrences(old, w) == #[trigger] occurrences(new, w),
    ensures
        permutation_of(old, new) is Some,
{
    lemma_greedy_complete(old, new, new.len());
}

pub fn match_permutation(old: &[DockItem], new: &[DockItem]) -> (r: Option<Vec<usize>>)
    ensures
        match r {
            Some(from) => permutation_of(match_keys(old@), match_keys(new@)) == Some(
                from@.map_values(|i: usize| i as int),
            ),
            None => permutation_of(match_keys(old@), match_keys(new@)) is None,
        },
{
    if old.len() != new.len() {
        return None;
    }
    let ghost ok = match_keys(old@);
    let ghost nk = match_keys(new@);
    let mut taken: Vec<bool> = Vec::new();
    let mut i: usize = 0;
    while i < old.len()
        invariant
            i <= old.len(),
            taken@ == Seq::new(i as nat, |k: int| false),
        decreases old.len() - i,
    {
        taken.push(false);
        assert(taken@ =~= Seq::new((i + 1) as nat, |k: int| false));
        i = i + 1;
    }
    let mut from: Vec<usize> = Vec::new();
    let mut j: usize = 0;
    while j < new.len()
        invariant
            j <= new.len(),
            old.len() == new.len(),
            ok == match_keys(old@),
            nk == match_keys(new@),
            greedy(ok, nk, j as nat) == Some((taken@, from@.map_values(|x: usize| x as int))),
            taken@.len() == old.len(),
        decreases new.len() - j,
    {
        let want = match_key(&new[j]);
        let at = match find_free(old, &taken, want) {
            Some(at) => at,
            None => {
                proof {
                    lemma_greedy_stays_none(ok, nk, (j + 1) as nat, new.len() as nat);
                }
                return None;
            },
        };
        proof {
            lemma_first_free(ok, taken@, want@, 0);
            assert(nk[j as int] == want@);
        }
        let ghost f0 = from@.map_values(|x: usize| x as int);
        taken.set(at, true);
        from.push(at);
        assert(from@.map_values(|x: usize| x as int) =~= f0.push(at as int));
        j = j + 1;
    }
    Some(from)
}

fn str_eq(a: &str, b: &str) -> (r: bool)
    ensures
        r == (a@ == b@),
{
    crate::text::seq_eq(&chars_of(a), &chars_of(b))
}

fn find_free(old: &[DockItem], taken: &Vec<bool>, want: &str) -> (r: Option<usize>)
    requires
        taken@.len() == old@.len(),
    ensures
        match r {
            Some(at) => first_free(match_keys(old@), taken@, want@, 0) == Some(at as int),
            None => first_free(match_keys(old@), taken@, want@, 0) is None,
        },
{
    let ghost ok = match_keys(old@);
    let mut at: usize = 0;
    while at < old.len()
        invariant
            at <= old.len(),
            taken@.len() == old@.len(),
            ok == match_keys(old@),
            first_free(ok, taken@, want@, 0) == first_free(ok, taken@, want@, at as int),
        decreases old.len() - at,
    {
        if !taken[at] && str_eq(match_key(&old[at]), want) {
            return Some(at);
        }
        at = at + 1;
    }
    None
}

pub proof fn lemma_greedy_stays_none(old: Seq<Seq<char>>, new: Seq<Seq<char>>, j: nat, n: nat)
    requires
        j <= n,
        greedy(old, new, j) is None,
    ensures
        greedy(old, new, n) is None,
    decreases n - j,
{
    if j < n {
        lemma_greedy_stays_none(old, new, j + 1, n);
    }
}

// ── list edits ──────────────────────────────────────────────────────────────

/// Where `move_in_list` sends `index`: `index + delta`, clamped to the list.
pub open spec fn clamped_target(len: int, index: int, delta: int) -> int {
    if index + delta < 0 {
        0
    } else if index + delta > len - 1 {
        len - 1
    } else {
        index + delta
    }
}

/// Shift `index` by `delta` places within `list`, swapping with whatever is
/// there.
///
/// Clamps at the ends rather than wrapping: an item that jumped from one end
/// of the dock to the other would be surprising.
pub fn move_in_list<T>(list: &mut Vec<T>, index: usize, delta: i32) -> (moved: bool)
    ensures
        moved == (index < old(list)@.len() && clamped_target(
            old(list)@.len() as int,
            index as int,
            delta as int,
        ) != index),
        moved ==> final(list)@ == old(list)@.update(
            index as int,
            old(list)@[clamped_target(old(list)@.len() as int, index as int, delta as int)],
        ).update(
            clamped_target(old(list)@.len() as int, index as int, delta as int),
            old(list)@[index as int],
        ),
        !moved ==> final(list)@ == old(list)@,
{
    if index >= list.len() || list.len() == 0 {
        return false;
    }
    let sum: i128 = index as i128 + delta as i128;
    let last: i128 = list.len() as i128 - 1;
    let target64: i128 = if sum < 0 {
        0
    } else if sum > last {
        last
    } else {
        sum
    };
    let target = target64 as usize;
    if target == index {
        return false;
    }
    let ghost orig = list@;
    let (lo, hi) = if index < target {
        (index, target)
    } else {
        (target, index)
    };
    let b = list.remove(hi);
    let a = list.remove(lo);
    list.insert(lo, b);
    list.insert(hi, a);
    assert(list@ =~= orig.update(index as int, orig[target as int]).update(
        target as int,
        orig[index as int],
    ));
    true
}

/// Where `reorder_in_list` lands an item dropped at `to`, once it has been
/// taken out of `from`.
pub open spec fn landing(len: int, from: int, to: int) -> int {
    let t = if to > from {
        to - 1
    } else {
        to
    };
    if t < len - 1 {
        t
    } else {
        len - 1
    }
}

/// Move `from` to `to` within `list`, shifting the rest.
///
/// Insert semantics, not a swap: dragging an icon between two others lands
/// it there.
pub fn reorder_in_list<T>(list: &mut Vec<T>, from: usize, to: usize) -> (moved: bool)
    ensures
        moved == (from < old(list)@.len() && to <= old(list)@.len() && from != to),
        moved ==> final(list)@ == old(list)@.remove(from as int).insert(
            landing(old(list)@.len() as int, from as int, to as int),
            old(list)@[from as int],
        ),
        !moved ==> final(list)@ == old(list)@,
{
    if from >= list.len() || to > list.len() || from == to {
        return false;
    }
    let item = list.remove(from);
    // Removing shifts everything after `from` down by one.
    let to = if to > from {
        to - 1
    } else {
        to
    };
    let at = if to < list.len() {
        to
    } else {
        list.len()
    };
    list.insert(at, item);
    true
}

/// Moving an item with `move_in_list` swaps it with the item it lands on:
/// the list keeps exactly the items it had.
pub proof fn lemma_move_keeps_every_item<T>(list: Seq<T>, index: int, target: int)
    requires
        0 <= index < list.len(),
        0 <= target < list.len(),
    ensures
        list.update(index, list[target]).update(target, list[index]).to_multiset()
            == list.to_multiset(),
{
    broadcast use vstd::multiset::group_multiset_axioms;

    let m = list.to_multiset();
    let (a, b) = (list[index], list[target]);
    let once = list.update(index, b);
    vstd::seq_lib::to_multiset_update(list, index, b);
    vstd::seq_lib::to_multiset_update(once, target, a);
    vstd::seq_lib::to_multiset_contains(list, a);
    vstd::seq_lib::to_multiset_contains(list, b);
    assert(list[index] == a && list[target] == b);
    assert(once[target] == b);
    assert(once.update(target, a).to_multiset() =~= m);
}

/// Reordering with `reorder_in_list` takes one item out and puts it back
/// elsewhere: the list keeps exactly the items it had.
pub proof fn lemma_reorder_keeps_every_item<T>(list: Seq<T>, from: int, to: int)
    requires
        0 <= from < list.len(),
        0 <= to <= list.len(),
    ensures
        list.remove(from).insert(landing(list.len() as int, from, to), list[from]).to_multiset()
            == list.to_multiset(),
{
    broadcast use vstd::multiset::group_multiset_axioms;

    let x = list[from];
    let r = list.remove(from);
    let at = landing(list.len() as int, from, to);
    vstd::seq_lib::to_multiset_remove(list, from);
    vstd::seq_lib::to_multiset_insert(r, at, x);
    vstd::seq_lib::to_multiset_contains(list, x);
    assert(list.contains(x)) by {
        assert(list[from] == x);
    }
    assert(r.insert(at, x).to_multiset() =~= list.to_multiset());
}

/// Index in the pinned list that a separator key refers to, if it is one
/// the user placed (`---:<n>`) rather than an automatic divider.
pub open spec fn separator_index_of(key: Seq<char>) -> Option<nat> {
    match strip_prefix(key, "---"@) {
        Some(rest) => match strip_prefix(rest, ":"@) {
            Some(n) => parse_usize(n),
            None => None,
        },
        None => None,
    }
}

pub fn separator_pin_index(key: &str) -> (r: Option<usize>)
    ensures
        match r {
            Some(n) => separator_index_of(key@) == Some(n as nat),
            None => separator_index_of(key@) is None,
        },
{
    let k = chars_of(key);
    match strip_prefix_vec(&k, &chars_of("---")) {
        Some(rest) => match strip_prefix_vec(&rest, &chars_of(":")) {
            Some(n) => parse_usize_vec(&n),
            None => None,
        },
        None => None,
    }
}

/// The key a user-placed separator at `pin_index` carries.
pub open spec fn user_separator_key(pin_index: nat) -> Seq<char> {
    "---:"@ + decimal(pin_index)
}

/// A user separator's key always reads back as its own pin index.
pub proof fn lemma_separator_key_round_trip(pin_index: usize)
    ensures
        separator_index_of(user_separator_key(pin_index as nat)) == Some(pin_index as nat),
{
    reveal_strlit("---:");
    reveal_strlit("---");
    reveal_strlit(":");
    let k = user_separator_key(pin_index as nat);
    let d = decimal(pin_index as nat);
    assert(k.subrange(0, 3) =~= "---"@);
    let rest = k.subrange(3, k.len() as int);
    assert(rest.subrange(0, 1) =~= ":"@);
    assert(rest.subrange(1, rest.len() as int) =~= d);
    lemma_parse_decimal(pin_index as nat);
}


// ── item views ──────────────────────────────────────────────────────────────




pub open spec fn opt_str(o: Option<String>) -> Option<Seq<char>> {
    match o {
        Some(s) => Some(s@),
        None => None,
    }
}

/// A dock item with every string taken by its characters.
pub struct ItemView {
    pub kind: ItemKind,
    pub key: Seq<char>,
    pub label: Seq<char>,
    pub icon: Seq<char>,
    pub windows: Seq<Seq<char>>,
    pub pinned: bool,
    pub active: bool,
    pub urgent: bool,
    pub scratchpad: bool,
    pub active_window: Option<Seq<char>>,
    pub exec_line: Seq<char>,
    pub actions: Seq<ActionView>,
    pub path: Option<Seq<char>>,
    pub pin_index: Option<usize>,
    pub glyph: Option<Seq<char>>,
}

impl View for DockItem {
    type V = ItemView;

    open spec fn view(&self) -> ItemView {
        ItemView {
            kind: self.kind,
            key: self.key@,
            label: self.label@,
            icon: self.icon@,
            windows: addresses(self.windows@),
            pinned: self.pinned,
            active: self.active,
            urgent: self.urgent,
            scratchpad: self.scratchpad,
            active_window: opt_addr(self.active_window),
            exec_line: self.exec_line@,
            actions: actions_view(self.actions@),
            path: opt_str(self.path),
            pin_index: self.pin_index,
            glyph: opt_str(self.glyph),
        }
    }
}

pub open spec fn items_view(s: Seq<DockItem>) -> Seq<ItemView> {
    s.map_values(|d: DockItem| d@)
}

/// An inert item of `kind` with everything else empty.
pub open spec fn blank_view(kind: ItemKind, key: Seq<char>) -> ItemView {
    ItemView {
        kind,
        key,
        label: Seq::empty(),
        icon: Seq::empty(),
        windows: Seq::empty(),
        pinned: false,
        active: false,
        urgent: false,
        scratchpad: false,
        active_window: None,
        exec_line: Seq::empty(),
        actions: Seq::empty(),
        path: None,
        pin_index: None,
        glyph: None,
    }
}

/// The automatic divider.
pub open spec fn separator_view() -> ItemView {
    blank_view(ItemKind::Separator, "---"@)
}

/// A divider the user placed at `pin_index` in the pinned list.
pub open spec fn user_separator_view(pin_index: usize) -> ItemView {
    ItemView {
        key: user_separator_key(pin_index as nat),
        pin_index: Some(pin_index),
        ..separator_view()
    }
}

fn blank_item(kind: ItemKind, key: String) -> (r: DockItem)
    ensures
        r@ == blank_view(kind, key@),
{
    let r = DockItem {
        kind,
        key,
        label: String::new(),
        icon: String::new(),
        windows: Vec::new(),
        pinned: false,
        active: false,
        urgent: false,
        scratchpad: false,
        active_window: None,
        exec_line: String::new(),
        actions: Vec::new(),
        path: None,
        pin_index: None,
        glyph: None,
    };
    assert(r@.windows =~= Seq::<Seq<char>>::empty());
    assert(r@.actions =~= Seq::<ActionView>::empty());
    r
}

pub fn separator() -> (r: DockItem)
    ensures
        r@ == separator_view(),
{
    blank_item(ItemKind::Separator, string_of(&chars_of(SEPARATOR)))
}

/// A separator the user placed at `pin_index` in the pinned list.
pub fn user_separator(pin_index: usize) -> (r: DockItem)
    ensures
        r@ == user_separator_view(pin_index),
{
    let key = crate::text::concat(&chars_of("---:"), &chars_of(usize_to_string(pin_index).as_str()));
    let mut item = blank_item(ItemKind::Separator, string_of(&key));
    item.pin_index = Some(pin_index);
    item
}

/// Generic mark for a command tile whose config gives no glyph.
pub open spec fn command_glyph_of(glyph: Seq<char>) -> Seq<char> {
    if glyph.len() == 0 {
        "\u{f120}"@
    } else {
        glyph
    }
}

/// A pinned shell command, as a dock item.
pub open spec fn command_view(cmd: CommandItem, pin_index: usize) -> ItemView {
    ItemView {
        kind: ItemKind::Command,
        key: "cmd:"@ + cmd.id@,
        label: cmd.label@,
        icon: Seq::empty(),
        windows: Seq::empty(),
        pinned: true,
        active: false,
        urgent: false,
        scratchpad: false,
        active_window: None,
        exec_line: cmd.command@,
        actions: Seq::empty(),
        path: None,
        pin_index: Some(pin_index),
        glyph: Some(command_glyph_of(cmd.glyph@)),
    }
}

pub fn command_item(cmd: &CommandItem, pin_index: usize) -> (r: DockItem)
    ensures
        r@ == command_view(*cmd, pin_index),
{
    let key = crate::text::concat(&chars_of("cmd:"), &chars_of(cmd.id.as_str()));
    let mut item = blank_item(ItemKind::Command, string_of(&key));
    item.label = cmd.label.clone();
    item.pinned = true;
    item.exec_line = cmd.command.clone();
    item.pin_index = Some(pin_index);
    item.glyph = Some(
        if cmd.glyph.as_str().is_empty() {
            string_of(&chars_of("\u{f120}"))
        } else {
            cmd.glyph.clone()
        },
    );
    item
}

/// The glyph that stands for a directory, by what the directory *is*: its
/// final name for the XDG user directories, the home directory itself, or a
/// plain folder.
pub open spec fn folder_glyph_of(path: Seq<char>, home: Option<Seq<char>>) -> Seq<char> {
    let name = match file_name(path) {
        Some(n) => lowercase(n),
        None => Seq::empty(),
    };
    if name == "downloads"@ {
        "\u{f019}"@
    } else if name == "documents"@ {
        "\u{f0f6}"@
    } else if name == "pictures"@ || name == "photos"@ {
        "\u{f03e}"@
    } else if home is Some && same_path(home->0, path) {
        "\u{f015}"@
    } else {
        "\u{f07b}"@
    }
}

/// Matched on the directory's name rather than the stack's label, so a
/// renamed stack keeps the right mark; `home` is the user's home directory,
/// when there is one.
pub fn folder_glyph(path: &str, home: Option<&str>) -> (r: &'static str)
    ensures
        r@ == folder_glyph_of(path@, match home {
            Some(h) => Some(h@),
            None => None,
        }),
{
    let name: Vec<char> = match file_name_exec(path) {
        Some(n) => chars_of(to_lowercase(string_of(&n).as_str()).as_str()),
        None => Vec::new(),
    };
    if seq_eq(&name, &chars_of("downloads")) {
        "\u{f019}"
    } else if seq_eq(&name, &chars_of("documents")) {
        "\u{f0f6}"
    } else if seq_eq(&name, &chars_of("pictures")) || seq_eq(&name, &chars_of("photos")) {
        "\u{f03e}"
    } else {
        match home {
            Some(h) => if same_path_exec(h, path) {
                "\u{f015}"
            } else {
                "\u{f07b}"
            },
            None => "\u{f07b}",
        }
    }
}


pub(crate) fn clone_actions(v: &Vec<Action>) -> (r: Vec<Action>)
    ensures
        r@ == v@,
{
    let mut r: Vec<Action> = Vec::new();
    let mut i: usize = 0;
    while i < v.len()
        invariant
            i <= v@.len(),
            r@ == v@.take(i as int),
        decreases v.len() - i,
    {
        r.push(v[i].clone());
        assert(r@ =~= v@.take(i + 1));
        i = i + 1;
    }
    assert(v@.take(v.len() as int) =~= v@);
    r
}

pub(crate) fn clone_addresses(v: &Vec<Address>) -> (r: Vec<Address>)
    ensures
        r@ == v@,
{
    let mut r: Vec<Address> = Vec::new();
    let mut i: usize = 0;
    while i < v.len()
        invariant
            i <= v@.len(),
            r@ == v@.take(i as int),
        decreases v.len() - i,
    {
        r.push(v[i].clone());
        assert(r@ =~= v@.take(i + 1));
        i = i + 1;
    }
    assert(v@.take(v.len() as int) =~= v@);
    r
}

impl Clone for DockItem {
    fn clone(&self) -> (r: Self)
        ensures
            r@ == self@,
    {
        DockItem {
            kind: self.kind,
            key: self.key.clone(),
            label: self.label.clone(),
            icon: self.icon.clone(),
            windows: clone_addresses(&self.windows),
            pinned: self.pinned,
            active: self.active,
            urgent: self.urgent,
            scratchpad: self.scratchpad,
            active_window: match &self.active_window {
                Some(a) => Some(a.clone()),
                None => None,
            },
            exec_line: self.exec_line.clone(),
            actions: clone_actions(&self.actions),
            path: match &self.path {
                Some(p) => Some(p.clone()),
                None => None,
            },
            pin_index: self.pin_index,
            glyph: match &self.glyph {
                Some(g) => Some(g.clone()),
                None => None,
            },
        }
    }
}

} // verus!
