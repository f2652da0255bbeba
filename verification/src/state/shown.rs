//! Which window each application icon shows.
//!
//! A pinned application claims the windows of its class before anything
//! else is built, and the running-but-unpinned icons are made from what is
//! left, so no window is ever shown by two application icons.
use vstd::prelude::*;
use super::{ItemKind, ItemView};
use super::dock::{
    active_workspace_of, addr_is, after_event, claim, dedup_dividers, divider_if, drop_leading_dividers,
    drop_trailing_dividers, is_divider, layout, folder_tiles, group_item, group_items, group_of_client,
    key_is, launcher_tile, not_at, pinned_app, pinned_section, running_groups, scratchpad_tile, sections,
    tail_section, trash_tile, workspace_section, workspace_tiles, GroupView, Host, StateView,
};
use super::matcher::expected_classes_of;
use crate::lists::{first_where, keep, lemma_first_where, lemma_keep_subset};
use crate::hypr::events::HyprEvent;
use crate::text::{starts_with, trim};
use crate::config::{Config, Folder};
use crate::hypr::model::{Client, Workspace};

verus! {

/// No two clients share an address, as in any state Hyprland reports.
pub open spec fn distinct_addresses(clients: Seq<Client>) -> bool {
    forall|i: int, j: int|
        0 <= i < clients.len() && 0 <= j < clients.len() && i != j ==> #[trigger] clients[i].address@
            != #[trigger] clients[j].address@
}

/// Two application icons that show one same window.
pub open spec fn share_a_window(a: ItemView, b: ItemView) -> bool {
    &&& a.kind == ItemKind::App
    &&& b.kind == ItemKind::App
    &&& exists|m: int, q: int|
        0 <= m < a.windows.len() && 0 <= q < b.windows.len() && #[trigger] a.windows[m]
            == #[trigger] b.windows[q]
}

/// No window is shown by two application icons of `items`.
pub open spec fn one_icon_per_window(items: Seq<ItemView>) -> bool {
    forall|i: int, j: int|
        0 <= i < items.len() && 0 <= j < items.len() && i != j ==> !share_a_window(
            #[trigger] items[i],
            #[trigger] items[j],
        )
}

/// Some client below `n` whose flag is `want` has address `a`.
spec fn held_by(clients: Seq<Client>, flags: Seq<bool>, want: bool, a: Seq<char>, n: int) -> bool {
    exists|k: int|
        0 <= k < n && k < clients.len() && k < flags.len() && flags[k] == want
            && #[trigger] clients[k].address@ == a
}

/// Every window `v` shows, when it is an application icon, is held so.
spec fn windows_held(v: ItemView, clients: Seq<Client>, flags: Seq<bool>, want: bool) -> bool {
    v.kind == ItemKind::App ==> forall|m: int|
        0 <= m < v.windows.len() ==> held_by(
            clients,
            flags,
            want,
            #[trigger] v.windows[m],
            clients.len() as int,
        )
}

spec fn all_windows_held(items: Seq<ItemView>, clients: Seq<Client>, flags: Seq<bool>, want: bool) -> bool {
    forall|i: int| 0 <= i < items.len() ==> windows_held(#[trigger] items[i], clients, flags, want)
}

spec fn no_apps(items: Seq<ItemView>) -> bool {
    forall|i: int| 0 <= i < items.len() ==> (#[trigger] items[i]).kind != ItemKind::App
}

spec fn grows(a: Seq<bool>, b: Seq<bool>) -> bool {
    &&& a.len() == b.len()
    &&& forall|k: int| 0 <= k < a.len() && a[k] ==> b[k]
}

/// A window held by a claimed client and one held by an unclaimed client
/// are different windows.
proof fn lemma_held_apart(
    clients: Seq<Client>,
    flags: Seq<bool>,
    a: Seq<char>,
    b: Seq<char>,
    n1: int,
    n2: int,
)
    requires
        distinct_addresses(clients),
        held_by(clients, flags, true, a, n1),
        held_by(clients, flags, false, b, n2),
    ensures
        a != b,
{
    let k1 = choose|k: int|
        0 <= k < n1 && k < clients.len() && k < flags.len() && flags[k] == true
            && #[trigger] clients[k].address@ == a;
    let k2 = choose|k: int|
        0 <= k < n2 && k < clients.len() && k < flags.len() && flags[k] == false
            && #[trigger] clients[k].address@ == b;
    assert(k1 != k2);
    assert(clients[k1].address@ != clients[k2].address@);
}

proof fn lemma_icons_apart(clients: Seq<Client>, flags: Seq<bool>, x: ItemView, y: ItemView)
    requires
        distinct_addresses(clients),
        windows_held(x, clients, flags, true),
        windows_held(y, clients, flags, false),
    ensures
        !share_a_window(x, y),
        !share_a_window(y, x),
{
    if share_a_window(x, y) {
        let (m, q) = choose|m: int, q: int|
            0 <= m < x.windows.len() && 0 <= q < y.windows.len() && #[trigger] x.windows[m]
                == #[trigger] y.windows[q];
        lemma_held_apart(
            clients,
            flags,
            x.windows[m],
            y.windows[q],
            clients.len() as int,
            clients.len() as int,
        );
    }
    if share_a_window(y, x) {
        let (m, q) = choose|m: int, q: int|
            0 <= m < y.windows.len() && 0 <= q < x.windows.len() && #[trigger] y.windows[m]
                == #[trigger] x.windows[q];
        lemma_held_apart(
            clients,
            flags,
            x.windows[q],
            y.windows[m],
            clients.len() as int,
            clients.len() as int,
        );
    }
}

/// Claiming only sets flags, and every window claimed was unclaimed
/// before and is claimed after.
proof fn lemma_claim(clients: Seq<Client>, claimed: Seq<bool>, expected: Seq<Seq<char>>, n: nat)
    requires
        claimed.len() == clients.len(),
    ensures
        grows(claimed, claim(clients, claimed, expected, n).1),
        forall|m: int|
            0 <= m < claim(clients, claimed, expected, n).0.len() ==> held_by(
                clients,
                claimed,
                false,
                #[trigger] claim(clients, claimed, expected, n).0[m],
                clients.len() as int,
            ) && held_by(
                clients,
                claim(clients, claimed, expected, n).1,
                true,
                claim(clients, claimed, expected, n).0[m],
                clients.len() as int,
            ),
    decreases n,
{
    if n == 0 || n > clients.len() {
    } else {
        lemma_claim(clients, claimed, expected, (n - 1) as nat);
        let (w, c) = claim(clients, claimed, expected, (n - 1) as nat);
        let (w2, c2) = claim(clients, claimed, expected, n);
        let k = n - 1;
        if !c[k] && w2 != w {
            assert(w2 == w.push(clients[k].address@));
            assert(c2 == c.update(k, true));
            assert forall|m: int| 0 <= m < w2.len() implies held_by(
                clients,
                claimed,
                false,
                #[trigger] w2[m],
                clients.len() as int,
            ) && held_by(clients, c2, true, w2[m], clients.len() as int) by {
                if m < w.len() {
                    assert(w2[m] == w[m]);
                    let j = choose|j: int|
                        0 <= j < clients.len() && j < c.len() && c[j] == true
                            && #[trigger] clients[j].address@ == w[m];
                    assert(c2[j]);
                } else {
                    assert(w2[m] == clients[k].address@);
                    assert(!claimed[k]);
                    assert(c2[k]);
                }
            }
        }
    }
}

/// The pinned section claims what it shows, and shows no window twice.
proof fn lemma_pinned_section(s: StateView, cfg: Config, n: nat)
    requires
        distinct_addresses(s.clients),
    ensures
        pinned_section(s, cfg, n).1.len() == s.clients.len(),
        all_windows_held(pinned_section(s, cfg, n).0, s.clients, pinned_section(s, cfg, n).1, true),
        one_icon_per_window(pinned_section(s, cfg, n).0),
    decreases n,
{
    if n == 0 || n > cfg.items.pinned@.len() {
    } else {
        lemma_pinned_section(s, cfg, (n - 1) as nat);
        let (items, claimed) = pinned_section(s, cfg, (n - 1) as nat);
        let (items2, claimed2) = pinned_section(s, cfg, n);
        let p = (n - 1) as int;
        let id = cfg.items.pinned@[p]@;
        let t = trim(id);
        if !(t == "---"@) && !starts_with(t, "cmd:"@) {
            let (w, c2) = claim(s.clients, claimed, expected_classes_of(s.entries, id), s.clients.len());
            lemma_claim(s.clients, claimed, expected_classes_of(s.entries, id), s.clients.len());
            assert(items2 == items.push(pinned_app(s, id, w, (n - 1) as usize)));
            assert(claimed2 == c2);
            let new = items2.last();
            assert(new.kind == ItemKind::App && new.windows == w);
            assert forall|i: int| 0 <= i < items2.len() implies windows_held(
                #[trigger] items2[i],
                s.clients,
                claimed2,
                true,
            ) by {
                if i < items.len() {
                    assert(items2[i] == items[i]);
                    assert(windows_held(items[i], s.clients, claimed, true));
                    if items[i].kind == ItemKind::App {
                        assert forall|m: int| 0 <= m < items[i].windows.len() implies held_by(
                            s.clients,
                            claimed2,
                            true,
                            #[trigger] items[i].windows[m],
                            s.clients.len() as int,
                        ) by {
                            let a = items[i].windows[m];
                            assert(held_by(s.clients, claimed, true, a, s.clients.len() as int));
                            let k = choose|k: int|
                                0 <= k < s.clients.len() && k < claimed.len() && claimed[k] == true
                                    && #[trigger] s.clients[k].address@ == a;
                            assert(claimed2[k]);
                        }
                    }
                } else {
                    assert(items2[i] == new);
                    assert forall|m: int| 0 <= m < w.len() implies held_by(
                        s.clients,
                        claimed2,
                        true,
                        #[trigger] w[m],
                        s.clients.len() as int,
                    ) by {}
                }
            }
            assert(windows_held(new, s.clients, claimed, false)) by {
                assert forall|m: int| 0 <= m < w.len() implies held_by(
                    s.clients,
                    claimed,
                    false,
                    #[trigger] w[m],
                    s.clients.len() as int,
                ) by {}
            }
            assert forall|i: int, j: int|
                0 <= i < items2.len() && 0 <= j < items2.len() && i != j implies !share_a_window(
                #[trigger] items2[i],
                #[trigger] items2[j],
            ) by {
                if i < items.len() && j < items.len() {
                    assert(items2[i] == items[i] && items2[j] == items[j]);
                } else if i < items.len() {
                    assert(items2[i] == items[i] && items2[j] == new);
                    assert(windows_held(items[i], s.clients, claimed, true));
                    lemma_icons_apart(s.clients, claimed, items[i], new);
                } else {
                    assert(items2[j] == items[j] && items2[i] == new);
                    assert(windows_held(items[j], s.clients, claimed, true));
                    lemma_icons_apart(s.clients, claimed, items[j], new);
                }
            }
        } else {
            if items2.len() == items.len() + 1 {
                assert(claimed2 == claimed);
                assert(items2.last().kind != ItemKind::App);
                assert forall|i: int| 0 <= i < items2.len() implies windows_held(
                    #[trigger] items2[i],
                    s.clients,
                    claimed2,
                    true,
                ) by {
                    if i < items.len() {
                        assert(items2[i] == items[i]);
                    }
                }
                assert forall|i: int, j: int|
                    0 <= i < items2.len() && 0 <= j < items2.len() && i != j implies !share_a_window(
                    #[trigger] items2[i],
                    #[trigger] items2[j],
                ) by {
                    if i < items.len() && j < items.len() {
                        assert(items2[i] == items[i] && items2[j] == items[j]);
                    }
                }
            } else {
                assert(items2 == items && claimed2 == claimed);
            }
        }
    }
}

/// Every address in the groups belongs to an unclaimed client below `n`.
spec fn groups_held(g: Seq<GroupView>, clients: Seq<Client>, claimed: Seq<bool>, n: int) -> bool {
    forall|gi: int, m: int|
        0 <= gi < g.len() && 0 <= m < g[gi].addrs.len() ==> held_by(
            clients,
            claimed,
            false,
            #[trigger] g[gi].addrs[m],
            n,
        )
}

/// No two groups hold one address.
spec fn groups_apart(g: Seq<GroupView>) -> bool {
    forall|gi: int, gj: int, m: int, q: int|
        0 <= gi < g.len() && 0 <= gj < g.len() && gi != gj && 0 <= m < g[gi].addrs.len() && 0 <= q
            < g[gj].addrs.len() ==> #[trigger] g[gi].addrs[m] != #[trigger] g[gj].addrs[q]
}

/// The running groups are made of unclaimed clients, each in one group.
proof fn lemma_running_groups(s: StateView, claimed: Seq<bool>, n: nat)
    requires
        distinct_addresses(s.clients),
        claimed.len() == s.clients.len(),
    ensures
        groups_held(running_groups(s, claimed, n), s.clients, claimed, n as int),
        groups_apart(running_groups(s, claimed, n)),
    decreases n,
{
    if n == 0 || n > s.clients.len() {
    } else {
        lemma_running_groups(s, claimed, (n - 1) as nat);
        let g = running_groups(s, claimed, (n - 1) as nat);
        let g2 = running_groups(s, claimed, n);
        let k = n - 1;
        let c = s.clients[k];
        let a = c.address@;
        assert forall|gi: int, m: int| 0 <= gi < g.len() && 0 <= m < g[gi].addrs.len() implies held_by(
            s.clients,
            claimed,
            false,
            #[trigger] g[gi].addrs[m],
            n as int,
        ) && g[gi].addrs[m] != a by {
            let j = choose|j: int|
                0 <= j < k && j < s.clients.len() && j < claimed.len() && claimed[j] == false
                    && #[trigger] s.clients[j].address@ == g[gi].addrs[m];
            assert(s.clients[j].address@ != s.clients[k].address@);
        }
        if g2 != g {
            assert(!claimed[k]);
            assert(held_by(s.clients, claimed, false, a, n as int)) by {
                assert(s.clients[k].address@ == a);
            }
            let new = group_of_client(s, c);
            lemma_first_where(g, key_is(new.key));
            match first_where(g, key_is(new.key)) {
                Some(h) => {
                    let gh = GroupView { addrs: g[h].addrs.push(a), ..g[h] };
                    assert(g2 == g.update(h, gh));
                    assert forall|gi: int, m: int|
                        0 <= gi < g2.len() && 0 <= m < g2[gi].addrs.len() implies held_by(
                        s.clients,
                        claimed,
                        false,
                        #[trigger] g2[gi].addrs[m],
                        n as int,
                    ) by {
                        if gi == h && m == g[h].addrs.len() {
                            assert(g2[gi].addrs[m] == a);
                        } else {
                            assert(g2[gi].addrs[m] == g[gi].addrs[m]);
                        }
                    }
                    assert forall|gi: int, gj: int, m: int, q: int|
                        0 <= gi < g2.len() && 0 <= gj < g2.len() && gi != gj && 0 <= m
                            < g2[gi].addrs.len() && 0 <= q < g2[gj].addrs.len() implies #[trigger] g2[gi].addrs[m]
                        != #[trigger] g2[gj].addrs[q] by {
                        if gi == h && m == g[h].addrs.len() {
                            assert(g2[gj].addrs[q] == g[gj].addrs[q]);
                        } else if gj == h && q == g[h].addrs.len() {
                            assert(g2[gi].addrs[m] == g[gi].addrs[m]);
                        } else {
                            assert(g2[gi].addrs[m] == g[gi].addrs[m]);
                            assert(g2[gj].addrs[q] == g[gj].addrs[q]);
                        }
                    }
                },
                None => {
                    assert(g2 == g.push(new));
                    assert(new.addrs == seq![a]);
                    assert forall|gi: int, m: int|
                        0 <= gi < g2.len() && 0 <= m < g2[gi].addrs.len() implies held_by(
                        s.clients,
                        claimed,
                        false,
                        #[trigger] g2[gi].addrs[m],
                        n as int,
                    ) by {
                        if gi == g.len() {
                            assert(g2[gi].addrs[m] == a);
                        } else {
                            assert(g2[gi] == g[gi]);
                        }
                    }
                    assert forall|gi: int, gj: int, m: int, q: int|
                        0 <= gi < g2.len() && 0 <= gj < g2.len() && gi != gj && 0 <= m
                            < g2[gi].addrs.len() && 0 <= q < g2[gj].addrs.len() implies #[trigger] g2[gi].addrs[m]
                        != #[trigger] g2[gj].addrs[q] by {
                        if gi == g.len() {
                            assert(g2[gj] == g[gj]);
                        } else if gj == g.len() {
                            assert(g2[gi] == g[gi]);
                        } else {
                            assert(g2[gi] == g[gi] && g2[gj] == g[gj]);
                        }
                    }
                },
            }
        } else {
            assert forall|gi: int, m: int| 0 <= gi < g.len() && 0 <= m < g[gi].addrs.len() implies held_by(
                s.clients,
                claimed,
                false,
                #[trigger] g[gi].addrs[m],
                n as int,
            ) by {}
        }
    }
}

/// No application icon of `a` shares a window with one of `b`.
spec fn apart(a: Seq<ItemView>, b: Seq<ItemView>) -> bool {
    forall|i: int, j: int|
        0 <= i < a.len() && 0 <= j < b.len() ==> !share_a_window(#[trigger] a[i], #[trigger] b[j])
            && !share_a_window(b[j], a[i])
}

proof fn lemma_join(a: Seq<ItemView>, b: Seq<ItemView>)
    requires
        one_icon_per_window(a),
        one_icon_per_window(b),
        apart(a, b),
    ensures
        one_icon_per_window(a + b),
{
    let ab = a + b;
    assert forall|i: int, j: int|
        0 <= i < ab.len() && 0 <= j < ab.len() && i != j implies !share_a_window(
        #[trigger] ab[i],
        #[trigger] ab[j],
    ) by {
        if i < a.len() && j < a.len() {
            assert(ab[i] == a[i] && ab[j] == a[j]);
        } else if i < a.len() {
            assert(ab[i] == a[i] && ab[j] == b[j - a.len()]);
        } else if j < a.len() {
            assert(ab[j] == a[j] && ab[i] == b[i - a.len()]);
        } else {
            assert(ab[i] == b[i - a.len()] && ab[j] == b[j - a.len()]);
        }
    }
}

proof fn lemma_held_join(a: Seq<ItemView>, b: Seq<ItemView>, clients: Seq<Client>, flags: Seq<bool>, want: bool)
    requires
        all_windows_held(a, clients, flags, want),
        all_windows_held(b, clients, flags, want),
    ensures
        all_windows_held(a + b, clients, flags, want),
{
    let ab = a + b;
    assert forall|i: int| 0 <= i < ab.len() implies windows_held(#[trigger] ab[i], clients, flags, want) by {
        if i < a.len() {
            assert(ab[i] == a[i]);
        } else {
            assert(ab[i] == b[i - a.len()]);
        }
    }
}

proof fn lemma_no_apps(a: Seq<ItemView>, b: Seq<ItemView>, clients: Seq<Client>, flags: Seq<bool>, want: bool)
    requires
        no_apps(a),
    ensures
        one_icon_per_window(a),
        all_windows_held(a, clients, flags, want),
        apart(a, b),
        apart(b, a),
{
    assert forall|i: int| 0 <= i < a.len() implies windows_held(#[trigger] a[i], clients, flags, want) by {
        assert(a[i].kind != ItemKind::App);
    }
}

proof fn lemma_no_apps_join(a: Seq<ItemView>, b: Seq<ItemView>)
    requires
        no_apps(a),
        no_apps(b),
    ensures
        no_apps(a + b),
{
    let ab = a + b;
    assert forall|i: int| 0 <= i < ab.len() implies (#[trigger] ab[i]).kind != ItemKind::App by {
        if i < a.len() {
            assert(ab[i] == a[i]);
        } else {
            assert(ab[i] == b[i - a.len()]);
        }
    }
}

proof fn lemma_held_apart_all(a: Seq<ItemView>, b: Seq<ItemView>, clients: Seq<Client>, flags: Seq<bool>)
    requires
        distinct_addresses(clients),
        all_windows_held(a, clients, flags, true),
        all_windows_held(b, clients, flags, false),
    ensures
        apart(a, b),
{
    assert forall|i: int, j: int| 0 <= i < a.len() && 0 <= j < b.len() implies !share_a_window(
        #[trigger] a[i],
        #[trigger] b[j],
    ) && !share_a_window(b[j], a[i]) by {
        lemma_icons_apart(clients, flags, a[i], b[j]);
    }
}

proof fn lemma_workspace_tiles(
    wss: Seq<Workspace>,
    clients: Seq<Client>,
    active: Option<i32>,
    show_empty: bool,
    n: nat,
)
    ensures
        no_apps(workspace_tiles(wss, clients, active, show_empty, n)),
    decreases n,
{
    if n > 0 && n <= wss.len() {
        lemma_workspace_tiles(wss, clients, active, show_empty, (n - 1) as nat);
    }
}

proof fn lemma_folder_tiles(folders: Seq<Folder>, host: Host, n: nat)
    ensures
        no_apps(folder_tiles(folders, host, n)),
    decreases n,
{
    if n > 0 && n <= folders.len() {
        lemma_folder_tiles(folders, host, (n - 1) as nat);
    }
}

/// Every section together shows each window under at most one
/// application icon.
proof fn lemma_sections(s: StateView, cfg: Config, host: Host)
    requires
        distinct_addresses(s.clients),
    ensures
        one_icon_per_window(sections(s, cfg, host)),
{
    let cs = s.clients;
    let h = if cfg.launcher.enabled {
        seq![launcher_tile(cfg)]
    } else {
        Seq::empty()
    };
    let w = workspace_section(s, cfg);
    let (p, claimed) = pinned_section(s, cfg, cfg.items.pinned@.len());
    let r = if cfg.items.show_running {
        group_items(s, running_groups(s, claimed, s.clients.len()))
    } else {
        Seq::empty()
    };
    let t = tail_section(cfg, host);
    let s1 = divider_if(w.len() > 0 && h.len() > 0);
    let s2 = divider_if(w.len() > 0 && p.len() + r.len() > 0);
    let s3 = divider_if(r.len() > 0 && h.len() + s1.len() + w.len() + p.len() > 0);
    let before_tail = h + s1 + w + s2 + p + s3 + r;
    let d = divider_if(t.len() > 0 && before_tail.len() > 0);
    assert(sections(s, cfg, host) == before_tail + d + t);
    lemma_pinned_section(s, cfg, cfg.items.pinned@.len());
    // The parts that hold no application icon.
    lemma_workspace_tiles(
        s.workspaces,
        s.clients,
        active_workspace_of(s.monitors),
        cfg.workspaces.show_empty,
        s.workspaces.len(),
    );
    assert(no_apps(w)) by {
        let tiles = if cfg.workspaces.enabled {
            workspace_tiles(
                s.workspaces,
                s.clients,
                active_workspace_of(s.monitors),
                cfg.workspaces.show_empty,
                s.workspaces.len(),
            )
        } else {
            Seq::empty()
        };
        let pad = if cfg.workspaces.scratchpad {
            seq![scratchpad_tile(s)]
        } else {
            Seq::empty()
        };
        assert(no_apps(tiles));
        assert(no_apps(pad));
        lemma_no_apps_join(tiles, pad);
    }
    lemma_folder_tiles(cfg.items.folders@, host, cfg.items.folders@.len());
    assert(no_apps(t)) by {
        let trash = if cfg.items.show_trash {
            seq![trash_tile(host)]
        } else {
            Seq::empty()
        };
        assert(no_apps(trash));
        lemma_no_apps_join(folder_tiles(cfg.items.folders@, host, cfg.items.folders@.len()), trash);
    }
    assert(no_apps(h));
    assert(no_apps(s1));
    assert(no_apps(s2));
    assert(no_apps(s3));
    assert(no_apps(d));
    lemma_no_apps_join(h, s1);
    lemma_no_apps_join(h + s1, w);
    lemma_no_apps_join(h + s1 + w, s2);
    let x = h + s1 + w + s2;
    // The pinned apps, on claimed clients.
    lemma_no_apps(x, p, cs, claimed, true);
    lemma_join(x, p);
    lemma_held_join(x, p, cs, claimed, true);
    let y = x + p;
    lemma_no_apps(s3, y, cs, claimed, true);
    lemma_join(y, s3);
    lemma_held_join(y, s3, cs, claimed, true);
    let z = y + s3;
    // The running apps, on the clients left over.
    if cfg.items.show_running {
        let g = running_groups(s, claimed, s.clients.len());
        lemma_running_groups(s, claimed, s.clients.len());
        assert forall|i: int| 0 <= i < r.len() implies windows_held(#[trigger] r[i], cs, claimed, false) by {
            assert(r[i] == group_item(s, g[i]));
            assert(r[i].windows == g[i].addrs);
            assert forall|m: int| 0 <= m < r[i].windows.len() implies held_by(
                cs,
                claimed,
                false,
                #[trigger] r[i].windows[m],
                cs.len() as int,
            ) by {
                assert(r[i].windows[m] == g[i].addrs[m]);
            }
        }
        assert forall|i: int, j: int| 0 <= i < r.len() && 0 <= j < r.len() && i != j implies !share_a_window(
            #[trigger] r[i],
            #[trigger] r[j],
        ) by {
            assert(r[i].windows == g[i].addrs);
            assert(r[j].windows == g[j].addrs);
            if share_a_window(r[i], r[j]) {
                let (m, q) = choose|m: int, q: int|
                    0 <= m < r[i].windows.len() && 0 <= q < r[j].windows.len() && #[trigger] r[i].windows[m]
                        == #[trigger] r[j].windows[q];
                assert(g[i].addrs[m] == g[j].addrs[q]);
            }
        }
        lemma_held_apart_all(z, r, cs, claimed);
    } else {
        assert(no_apps(r));
        lemma_no_apps(r, z, cs, claimed, false);
    }
    lemma_join(z, r);
    lemma_no_apps(d, before_tail, cs, claimed, true);
    lemma_join(before_tail, d);
    lemma_no_apps(t, before_tail + d, cs, claimed, true);
    lemma_join(before_tail + d, t);
}

proof fn lemma_one_icon_subrange(s: Seq<ItemView>, lo: int, hi: int)
    requires
        0 <= lo <= hi <= s.len(),
        one_icon_per_window(s),
    ensures
        one_icon_per_window(s.subrange(lo, hi)),
{
    let t = s.subrange(lo, hi);
    assert forall|i: int, j: int| 0 <= i < t.len() && 0 <= j < t.len() && i != j implies !share_a_window(
        #[trigger] t[i],
        #[trigger] t[j],
    ) by {
        assert(t[i] == s[lo + i] && t[j] == s[lo + j]);
    }
}

/// Merging dividers keeps items of `s` in their order, so what held of
/// every pair still holds.
proof fn lemma_dedup_keeps(s: Seq<ItemView>)
    ensures
        forall|i: int| 0 <= i < dedup_dividers(s).len() ==> s.contains(#[trigger] dedup_dividers(s)[i]),
        one_icon_per_window(s) ==> one_icon_per_window(dedup_dividers(s)),
    decreases s.len(),
{
    if s.len() > 0 {
        let sd = s.drop_last();
        let dd = dedup_dividers(sd);
        lemma_dedup_keeps(sd);
        let d = dedup_dividers(s);
        assert forall|i: int| 0 <= i < d.len() implies s.contains(#[trigger] d[i]) by {
            if i < dd.len() {
                assert(d[i] == dd[i]);
                assert(sd.contains(dd[i]));
                let k = choose|k: int| 0 <= k < sd.len() && sd[k] == dd[i];
                assert(s[k] == sd[k]);
            } else {
                assert(d[i] == s.last());
                assert(s[s.len() - 1] == s.last());
            }
        }
        if one_icon_per_window(s) {
            lemma_one_icon_subrange(s, 0, s.len() - 1);
            assert(sd =~= s.subrange(0, s.len() - 1));
            if d != dd {
                assert(d == dd.push(s.last()));
                assert forall|i: int, j: int|
                    0 <= i < d.len() && 0 <= j < d.len() && i != j implies !share_a_window(
                    #[trigger] d[i],
                    #[trigger] d[j],
                ) by {
                    let last = d.len() - 1;
                    if i < last && j < last {
                        assert(d[i] == dd[i] && d[j] == dd[j]);
                    } else {
                        let o = if i < last { i } else { j };
                        assert(d[o] == dd[o]);
                        assert(sd.contains(dd[o]));
                        let k = choose|k: int| 0 <= k < sd.len() && sd[k] == dd[o];
                        assert(s[k] == dd[o]);
                        assert(!share_a_window(s[k], s[s.len() - 1]));
                        assert(!share_a_window(s[s.len() - 1], s[k]));
                        assert(d[last] == s[s.len() - 1]);
                    }
                }
            }
        }
    }
}

proof fn lemma_drop_leading_keeps(s: Seq<ItemView>)
    requires
        one_icon_per_window(s),
    ensures
        one_icon_per_window(drop_leading_dividers(s)),
    decreases s.len(),
{
    if s.len() > 0 && is_divider(s[0]) {
        lemma_one_icon_subrange(s, 1, s.len() as int);
        assert(s.drop_first() =~= s.subrange(1, s.len() as int));
        lemma_drop_leading_keeps(s.drop_first());
    }
}

proof fn lemma_drop_trailing_keeps(s: Seq<ItemView>)
    requires
        one_icon_per_window(s),
    ensures
        one_icon_per_window(drop_trailing_dividers(s)),
    decreases s.len(),
{
    if s.len() > 1 && is_divider(s.last()) {
        lemma_one_icon_subrange(s, 0, s.len() - 1);
        assert(s.drop_last() =~= s.subrange(0, s.len() - 1));
        lemma_drop_trailing_keeps(s.drop_last());
    }
}

/// No window is shown by two application icons: the pinned applications
/// claim their windows first, and the running-but-unpinned icons are made
/// only from the windows left over, one icon per application.
pub proof fn lemma_one_icon_per_window(s: StateView, cfg: Config, host: Host)
    requires
        distinct_addresses(s.clients),
    ensures
        one_icon_per_window(layout(s, cfg, host)),
{
    let all = sections(s, cfg, host);
    lemma_sections(s, cfg, host);
    lemma_dedup_keeps(all);
    lemma_drop_leading_keeps(dedup_dividers(all));
    lemma_drop_trailing_keeps(drop_leading_dividers(dedup_dividers(all)));
}

proof fn lemma_keep_distinct(cs: Seq<Client>, p: spec_fn(Client) -> bool)
    requires
        distinct_addresses(cs),
    ensures
        distinct_addresses(keep(cs, p)),
    decreases cs.len(),
{
    if cs.len() > 0 {
        let d = cs.drop_last();
        assert(distinct_addresses(d)) by {
            assert forall|i: int, j: int|
                0 <= i < d.len() && 0 <= j < d.len() && i != j implies #[trigger] d[i].address@
                != #[trigger] d[j].address@ by {
                assert(d[i] == cs[i] && d[j] == cs[j]);
            }
        }
        lemma_keep_distinct(d, p);
        if p(cs.last()) {
            let k = keep(d, p);
            let r = k.push(cs.last());
            assert forall|i: int, j: int|
                0 <= i < r.len() && 0 <= j < r.len() && i != j implies #[trigger] r[i].address@
                != #[trigger] r[j].address@ by {
                if i < k.len() && j < k.len() {
                    assert(r[i] == k[i] && r[j] == k[j]);
                } else {
                    let o = if i < k.len() { i } else { j };
                    assert(r[o] == k[o]);
                    lemma_keep_subset(d, p, k[o]);
                    assert(k.contains(k[o]));
                    let m = choose|m: int| 0 <= m < d.len() && d[m] == k[o];
                    assert(cs[m] == k[o]);
                    assert(cs[m].address@ != cs[cs.len() - 1].address@);
                }
            }
        }
    }
}

/// Folding Hyprland's events into the state never gives two windows one
/// address: events only drop windows or retitle them.
pub proof fn lemma_events_keep_addresses_distinct(s: StateView, e: HyprEvent)
    requires
        distinct_addresses(s.clients),
    ensures
        distinct_addresses(after_event(s, e).0.clients),
{
    match e {
        HyprEvent::CloseWindow(a) => {
            lemma_keep_distinct(s.clients, not_at(a@));
        },
        HyprEvent::WindowTitle { addr, title } => {
            let cs = s.clients;
            let r = after_event(s, e).0.clients;
            lemma_first_where(cs, addr_is(addr@));
            assert forall|i: int, j: int|
                0 <= i < r.len() && 0 <= j < r.len() && i != j implies #[trigger] r[i].address@
                != #[trigger] r[j].address@ by {
                assert(r[i].address == cs[i].address && r[j].address == cs[j].address);
            }
        },
        _ => {},
    }
}

/// Adding a window replaces any window with its address, so addresses stay
/// distinct.
pub proof fn lemma_adding_keeps_addresses_distinct(clients: Seq<Client>, c: Client)
    requires
        distinct_addresses(clients),
    ensures
        distinct_addresses(keep(clients, not_at(c.address@)).push(c)),
{
    let k = keep(clients, not_at(c.address@));
    lemma_keep_distinct(clients, not_at(c.address@));
    let r = k.push(c);
    assert forall|i: int, j: int|
        0 <= i < r.len() && 0 <= j < r.len() && i != j implies #[trigger] r[i].address@
        != #[trigger] r[j].address@ by {
        if i < k.len() && j < k.len() {
            assert(r[i] == k[i] && r[j] == k[j]);
        } else {
            let o = if i < k.len() { i } else { j };
            assert(r[o] == k[o]);
            assert(k.contains(k[o]));
            lemma_keep_subset(clients, not_at(c.address@), k[o]);
        }
    }
}

} // verus!
