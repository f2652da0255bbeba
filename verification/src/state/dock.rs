//! The state the dock tracks between Hyprland events, and the ordered item
//! list it derives from that state and the configuration.
use vstd::prelude::*;
use super::{
    clone_actions, clone_addresses,
    addresses, blank_item, blank_view, command_item, command_view, folder_glyph, folder_glyph_of,
    opt_addr, separator, separator_view, user_separator, user_separator_view,
    DockItem, ItemKind, ItemView, items_view, opt_str, COMMAND_KEY,
    SEPARATOR,
};
use crate::lists::{first_where, keep, lemma_first_where, lemma_first_where_prefix, lemma_keep_no_duplicates, lemma_keep_subset};
use super::matcher::{class_entry, entry_by_id, expected_classes_of, Matcher};
use crate::config::{Config, CommandItem, Folder, expand_tilde, launcher_command_of, tilde_expanded};
use crate::desktop::{actions_view, command_of, Action, ActionView, Entry};
use crate::hypr::model::{client_match_key, is_special_name, Client, Monitor, Workspace};
use crate::hypr::Address;
use crate::hypr::events::HyprEvent;
use crate::text::{
    strings, strip_prefix_vec, starts_with_vec, strip_prefix, chars_of, concat, eq_ignore_ascii_case, eq_ignore_ascii_case_vec, seq_eq, starts_with, string_of,
    trim, trim_vec, slice_of,
};

verus! {





/// Everything the dock's logic knows, by value.
pub struct StateView {
    pub entries: Seq<Entry>,
    pub clients: Seq<Client>,
    pub monitors: Seq<Monitor>,
    pub workspaces: Seq<Workspace>,
    pub focused: Option<Seq<char>>,
    pub urgent: Seq<Seq<char>>,
}

/// Where the dock's filesystem furniture lives, as the application found it:
/// the home directory, the trash's `files` directory, and whether the trash
/// is empty right now.
#[derive(Debug)]
pub struct Host {
    pub home: Option<String>,
    pub trash_dir: String,
    pub trash_empty: bool,
}

pub struct DockState {
    matcher: Matcher,
    clients: Vec<Client>,
    monitors: Vec<Monitor>,
    workspaces: Vec<Workspace>,
    focused: Option<Address>,
    urgent: Vec<Address>,
}

// ── workspace order ─────────────────────────────────────────────────────────

/// `w` placed into the id-ordered `sorted` after every workspace whose id is
/// not greater, so equal ids keep their arrival order.
pub open spec fn insert_by_id(sorted: Seq<Workspace>, w: Workspace) -> Seq<Workspace>
    decreases sorted.len(),
{
    if sorted.len() == 0 {
        seq![w]
    } else if sorted.last().id <= w.id {
        sorted.push(w)
    } else {
        insert_by_id(sorted.drop_last(), w).push(sorted.last())
    }
}

/// Workspaces in id order, ties kept in arrival order: a stable sort.
pub open spec fn sort_by_id(ws: Seq<Workspace>) -> Seq<Workspace>
    decreases ws.len(),
{
    if ws.len() == 0 {
        ws
    } else {
        insert_by_id(sort_by_id(ws.drop_last()), ws.last())
    }
}

pub proof fn lemma_insert_by_id_at(s: Seq<Workspace>, w: Workspace, j: int)
    requires
        0 <= j <= s.len(),
        forall|k: int| j <= k < s.len() ==> s[k].id > w.id,
        j == 0 || s[j - 1].id <= w.id,
    ensures
        insert_by_id(s, w) == s.insert(j, w),
    decreases s.len(),
{
    if s.len() == 0 {
        assert(s.insert(j, w) =~= seq![w]);
    } else if s.last().id <= w.id {
        assert(j == s.len());
        assert(s.insert(j, w) =~= s.push(w));
    } else {
        let d = s.drop_last();
        lemma_insert_by_id_at(d, w, j);
        assert(d.insert(j, w).push(s.last()) =~= s.insert(j, w));
    }
}

proof fn lemma_insert_by_id(t: Seq<Workspace>, w: Workspace)
    requires
        forall|i: int, j: int| 0 <= i < j < t.len() ==> #[trigger] t[i].id <= #[trigger] t[j].id,
    ensures
        forall|i: int, j: int|
            0 <= i < j < insert_by_id(t, w).len() ==> #[trigger] insert_by_id(t, w)[i].id
                <= #[trigger] insert_by_id(t, w)[j].id,
        insert_by_id(t, w).len() == t.len() + 1,
        forall|x: Workspace| #[trigger] insert_by_id(t, w).contains(x) <==> (t.contains(x) || x == w),
    decreases t.len(),
{
    let r = insert_by_id(t, w);
    if t.len() == 0 {
        assert forall|x: Workspace| #[trigger] r.contains(x) <==> (t.contains(x) || x == w) by {
            if r.contains(x) || x == w {
                assert(r[0] == w);
            }
        }
    } else if t.last().id <= w.id {
        assert(r == t.push(w));
        assert forall|i: int, j: int| 0 <= i < j < r.len() implies #[trigger] r[i].id <= #[trigger] r[j].id by {
            if j < t.len() {
                assert(r[i] == t[i] && r[j] == t[j]);
            } else if i < t.len() - 1 {
                assert(r[i] == t[i] && t[i].id <= t[t.len() - 1].id);
            }
        }
        assert forall|x: Workspace| #[trigger] r.contains(x) <==> (t.contains(x) || x == w) by {
            if r.contains(x) {
                let i = choose|i: int| 0 <= i < r.len() && r[i] == x;
                if i < t.len() {
                    assert(t[i] == x);
                }
            }
            if t.contains(x) {
                let i = choose|i: int| 0 <= i < t.len() && t[i] == x;
                assert(r[i] == x);
            }
            if x == w {
                assert(r[t.len() as int] == w);
            }
        }
    } else {
        let d = t.drop_last();
        let last = t.last();
        let n = t.len() - 1;
        assert forall|i: int, j: int| 0 <= i < j < d.len() implies #[trigger] d[i].id <= #[trigger] d[j].id by {
            assert(d[i] == t[i] && d[j] == t[j]);
        }
        lemma_insert_by_id(d, w);
        let q = insert_by_id(d, w);
        assert(r == q.push(last));
        assert forall|i: int, j: int| 0 <= i < j < r.len() implies #[trigger] r[i].id <= #[trigger] r[j].id by {
            if j < q.len() {
                assert(r[i] == q[i] && r[j] == q[j]);
            } else {
                assert(r[i] == q[i] && r[j] == last);
                assert(q.contains(q[i]));
                if q[i] != w {
                    let k = choose|k: int| 0 <= k < d.len() && d[k] == q[i];
                    assert(t[k] == q[i]);
                    assert(t[k].id <= t[n].id);
                }
            }
        }
        assert forall|x: Workspace| #[trigger] r.contains(x) <==> (t.contains(x) || x == w) by {
            if r.contains(x) {
                let i = choose|i: int| 0 <= i < r.len() && r[i] == x;
                if i < q.len() {
                    assert(q[i] == x);
                    assert(q.contains(x));
                    if x != w {
                        let k = choose|k: int| 0 <= k < d.len() && d[k] == x;
                        assert(t[k] == x);
                    }
                } else {
                    assert(t[n] == x);
                }
            }
            if t.contains(x) {
                let i = choose|i: int| 0 <= i < t.len() && t[i] == x;
                if i < n {
                    assert(d[i] == x);
                    assert(d.contains(x));
                    assert(q.contains(x));
                    let k = choose|k: int| 0 <= k < q.len() && q[k] == x;
                    assert(r[k] == x);
                } else {
                    assert(r[q.len() as int] == x);
                }
            }
            if x == w {
                assert(q.contains(w));
                let k = choose|k: int| 0 <= k < q.len() && q[k] == w;
                assert(r[k] == w);
            }
        }
    }
}

/// The state keeps workspaces in id order, whatever order Hyprland reports
/// them in, and keeps every one of them: tiles never jump around as
/// workspaces come and go.
pub proof fn lemma_workspaces_in_id_order(ws: Seq<Workspace>)
    ensures
        forall|i: int, j: int|
            0 <= i < j < sort_by_id(ws).len() ==> #[trigger] sort_by_id(ws)[i].id
                <= #[trigger] sort_by_id(ws)[j].id,
        sort_by_id(ws).len() == ws.len(),
        forall|x: Workspace| #[trigger] sort_by_id(ws).contains(x) <==> ws.contains(x),
    decreases ws.len(),
{
    if ws.len() > 0 {
        let d = ws.drop_last();
        lemma_workspaces_in_id_order(d);
        lemma_insert_by_id(sort_by_id(d), ws.last());
        assert forall|x: Workspace| #[trigger] sort_by_id(ws).contains(x) <==> ws.contains(x) by {
            if ws.contains(x) {
                let i = choose|i: int| 0 <= i < ws.len() && ws[i] == x;
                if i < d.len() {
                    assert(d[i] == x);
                    assert(d.contains(x));
                }
            }
            if d.contains(x) {
                let i = choose|i: int| 0 <= i < d.len() && d[i] == x;
                assert(ws[i] == x);
            }
            if x == ws.last() {
                assert(ws[ws.len() - 1] == x);
            }
        }
    }
}

// ── predicates over the state ───────────────────────────────────────────────

/// The workspace shown on the focused monitor, or on the first monitor.
pub open spec fn active_workspace_of(monitors: Seq<Monitor>) -> Option<i32> {
    match first_where(monitors, |m: Monitor| m.focused) {
        Some(i) => Some(monitors[i].active_workspace.id),
        None => if monitors.len() > 0 {
            Some(monitors[0].active_workspace.id)
        } else {
            None
        },
    }
}

/// Whether a special workspace is open on any monitor.
pub open spec fn special_open(monitors: Seq<Monitor>) -> bool {
    exists|i: int|
        0 <= i < monitors.len() && #[trigger] monitors[i].special_workspace is Some
            && monitors[i].special_workspace->0.name@.len() > 0
}

pub open spec fn client_addresses(cs: Seq<Client>) -> Seq<Seq<char>> {
    cs.map_values(|c: Client| c.address@)
}

/// The predicate "this client has address `a`".
pub open spec fn addr_is(a: Seq<char>) -> spec_fn(Client) -> bool {
    |c: Client| c.address@ == a
}

/// Whether any client has address `a`.
pub open spec fn has_client(clients: Seq<Client>, a: Seq<char>) -> bool {
    exists|i: int| 0 <= i < clients.len() && #[trigger] clients[i].address@ == a
}

/// Whether any client on a visible workspace is fullscreen.
pub open spec fn fullscreen_visible(clients: Seq<Client>, monitors: Seq<Monitor>) -> bool {
    exists|i: int, j: int|
        0 <= i < clients.len() && 0 <= j < monitors.len() && #[trigger] clients[i].fullscreen > 0
            && #[trigger] monitors[j].active_workspace.id == clients[i].workspace.id
}

// ── items ───────────────────────────────────────────────────────────────────

/// An application item: windows, the name and icon it shows, whether it is
/// pinned, what it launches, and the state derived from focus and urgency.
pub open spec fn app_view(
    s: StateView,
    key: Seq<char>,
    label: Seq<char>,
    icon: Seq<char>,
    windows: Seq<Seq<char>>,
    pinned: bool,
    exec_line: Seq<char>,
    actions: Seq<ActionView>,
) -> ItemView {
    let active_window = match s.focused {
        Some(f) => if windows.contains(f) {
            Some(f)
        } else {
            None
        },
        None => None,
    };
    ItemView {
        kind: ItemKind::App,
        key,
        label,
        icon,
        windows,
        pinned,
        active: active_window is Some,
        urgent: exists|i: int| 0 <= i < windows.len() && s.urgent.contains(#[trigger] windows[i]),
        scratchpad: windows.len() > 0 && forall|i: int|
            0 <= i < windows.len() ==> #[trigger] stashed(s.clients, windows[i]),
        active_window,
        exec_line,
        actions,
        path: None,
        pin_index: None,
        glyph: None,
    }
}

/// Whether some client with address `a` sits on a special workspace.
pub open spec fn stashed(clients: Seq<Client>, a: Seq<char>) -> bool {
    exists|k: int|
        0 <= k < clients.len() && #[trigger] clients[k].address@ == a && is_special_name(
            clients[k].workspace.name@,
        )
}

/// The addresses of the clients on workspace `id`, in order.
pub open spec fn addresses_on(clients: Seq<Client>, id: i32) -> Seq<Seq<char>> {
    client_addresses(keep(clients, on_workspace(id)))
}

/// The predicate "this client is on workspace `id`".
pub open spec fn on_workspace(id: i32) -> spec_fn(Client) -> bool {
    |c: Client| c.workspace.id == id
}

/// The predicate "this client is on a special workspace".
pub open spec fn on_special() -> spec_fn(Client) -> bool {
    |c: Client| is_special_name(c.workspace.name@)
}

/// The addresses of the clients on special workspaces, in order.
pub open spec fn special_addresses(clients: Seq<Client>) -> Seq<Seq<char>> {
    client_addresses(keep(clients, on_special()))
}

/// The tile for workspace `ws`.
pub open spec fn workspace_tile(ws: Workspace, windows: Seq<Seq<char>>, active: Option<i32>) -> ItemView {
    ItemView {
        label: ws.name@,
        windows,
        active: active == Some(ws.id),
        ..blank_view(ItemKind::Workspace, "__ws:"@ + ws.name@)
    }
}

/// Tiles for the first `n` workspaces: every non-special one that holds a
/// window, is the current one, or is shown anyway because `show_empty`.
pub open spec fn workspace_tiles(
    wss: Seq<Workspace>,
    clients: Seq<Client>,
    active: Option<i32>,
    show_empty: bool,
    n: nat,
) -> Seq<ItemView>
    decreases n,
{
    if n == 0 || n > wss.len() {
        Seq::empty()
    } else {
        let prev = workspace_tiles(wss, clients, active, show_empty, (n - 1) as nat);
        let ws = wss[n - 1];
        let windows = addresses_on(clients, ws.id);
        if is_special_name(ws.name@) || (windows.len() == 0 && !show_empty && active != Some(ws.id)) {
            prev
        } else {
            prev.push(workspace_tile(ws, windows, active))
        }
    }
}

/// A workspace tile's key reads back the name of the workspace it was
/// built from: `workspace_of` of the key is that name.
pub proof fn lemma_tile_key_names_its_workspace(
    ws: Workspace,
    windows: Seq<Seq<char>>,
    active: Option<i32>,
)
    ensures
        strip_prefix(workspace_tile(ws, windows, active).key, "__ws:"@) == Some(ws.name@),
{
    let p = "__ws:"@;
    let k = p + ws.name@;
    assert(k.subrange(0, p.len() as int) =~= p);
    assert(k.subrange(p.len() as int, k.len() as int) =~= ws.name@);
}

/// Every workspace tile in the strip reads back, through `workspace_of`,
/// the name of one of the workspaces.
pub proof fn lemma_tiles_name_their_workspaces(
    wss: Seq<Workspace>,
    clients: Seq<Client>,
    active: Option<i32>,
    show_empty: bool,
    n: nat,
)
    ensures
        forall|k: int| 0 <= k < workspace_tiles(wss, clients, active, show_empty, n).len()
            ==> exists|j: int| 0 <= j < wss.len() && strip_prefix(
            (#[trigger] workspace_tiles(wss, clients, active, show_empty, n)[k]).key,
            "__ws:"@,
        ) == Some(wss[j].name@),
    decreases n,
{
    if n > 0 && n <= wss.len() {
        lemma_tiles_name_their_workspaces(wss, clients, active, show_empty, (n - 1) as nat);
        let prev = workspace_tiles(wss, clients, active, show_empty, (n - 1) as nat);
        let cur = workspace_tiles(wss, clients, active, show_empty, n);
        let ws = wss[n - 1];
        lemma_tile_key_names_its_workspace(ws, addresses_on(clients, ws.id), active);
        assert forall|k: int| 0 <= k < cur.len() implies exists|j: int|
            0 <= j < wss.len() && strip_prefix((#[trigger] cur[k]).key, "__ws:"@) == Some(
                wss[j].name@,
            ) by {
            if k < prev.len() {
                assert(cur[k] == prev[k]);
            } else {
                assert(strip_prefix(cur[k].key, "__ws:"@) == Some(wss[n - 1].name@));
            }
        }
    }
}

/// The scratchpad tile: the windows stashed there, active while the drawer
/// is open.
pub open spec fn scratchpad_tile(s: StateView) -> ItemView {
    ItemView {
        label: "Scratchpad"@,
        windows: special_addresses(s.clients),
        active: special_open(s.monitors),
        scratchpad: true,
        glyph: Some("\u{f01c}"@),
        ..blank_view(ItemKind::Scratchpad, "__scratchpad"@)
    }
}

/// The workspace strip and scratchpad tile, when enabled.
pub open spec fn workspace_section(s: StateView, cfg: Config) -> Seq<ItemView> {
    (if cfg.workspaces.enabled {
        workspace_tiles(
            s.workspaces,
            s.clients,
            active_workspace_of(s.monitors),
            cfg.workspaces.show_empty,
            s.workspaces.len(),
        )
    } else {
        Seq::empty()
    }) + (if cfg.workspaces.scratchpad {
        seq![scratchpad_tile(s)]
    } else {
        Seq::empty()
    })
}


/// Whether `key` equals one of `expected`, ignoring ASCII case.
pub open spec fn matches_expected(key: Seq<char>, expected: Seq<Seq<char>>) -> bool {
    exists|i: int| 0 <= i < expected.len() && eq_ignore_ascii_case(key, #[trigger] expected[i])
}

/// Claim, among the first `n` clients, every one not yet claimed whose class
/// matches `expected`: the claimed addresses in order, and the updated flags.
pub open spec fn claim(
    clients: Seq<Client>,
    claimed: Seq<bool>,
    expected: Seq<Seq<char>>,
    n: nat,
) -> (Seq<Seq<char>>, Seq<bool>)
    decreases n,
{
    if n == 0 || n > clients.len() {
        (Seq::empty(), claimed)
    } else {
        let (w, c) = claim(clients, claimed, expected, (n - 1) as nat);
        let cl = clients[n - 1];
        if !c[n - 1] && matches_expected(client_match_key(cl), expected) {
            (w.push(cl.address@), c.update(n - 1, true))
        } else {
            (w, c)
        }
    }
}

/// A pinned application at position `p` of the pinned list, showing the
/// windows it claimed.
pub open spec fn pinned_app(s: StateView, id: Seq<char>, windows: Seq<Seq<char>>, p: usize) -> ItemView {
    let e = entry_by_id(s.entries, id);
    let label = match e {
        Some(i) => s.entries[i].name@,
        None => id,
    };
    let icon = match e {
        Some(i) => if s.entries[i].icon@.len() > 0 {
            s.entries[i].icon@
        } else {
            id
        },
        None => id,
    };
    let exec_line = match e {
        Some(i) => command_of(s.entries[i].exec_line@),
        None => Seq::empty(),
    };
    let actions = match e {
        Some(i) => actions_view(s.entries[i].actions@),
        None => Seq::empty(),
    };
    ItemView { pin_index: Some(p), ..app_view(s, id, label, icon, windows, true, exec_line, actions) }
}

pub open spec fn no_claims(n: nat) -> Seq<bool> {
    Seq::new(n, |i: int| false)
}

/// The items for the first `n` pinned entries, and which clients they
/// claimed: user separators, command tiles, and applications.
pub open spec fn pinned_section(s: StateView, cfg: Config, n: nat) -> (Seq<ItemView>, Seq<bool>)
    decreases n,
{
    if n == 0 || n > cfg.items.pinned@.len() {
        (Seq::empty(), no_claims(s.clients.len()))
    } else {
        let (items, claimed) = pinned_section(s, cfg, (n - 1) as nat);
        let p = (n - 1) as int;
        let id = cfg.items.pinned@[p]@;
        let t = trim(id);
        if t == "---"@ {
            (items.push(user_separator_view(p as usize)), claimed)
        } else if starts_with(t, "cmd:"@) {
            match first_where(
                cfg.items.commands@,
                |c: CommandItem| c.id@ == t.subrange(4, t.len() as int),
            ) {
                Some(k) => (items.push(command_view(cfg.items.commands@[k], p as usize)), claimed),
                None => (items, claimed),
            }
        } else {
            let (w, c2) = claim(
                s.clients,
                claimed,
                expected_classes_of(s.entries, id),
                s.clients.len(),
            );
            (items.push(pinned_app(s, id, w, p as usize)), c2)
        }
    }
}

/// One running-but-unpinned application, collapsing its windows.
pub struct GroupView {
    pub key: Seq<char>,
    pub label: Seq<char>,
    pub icon: Seq<char>,
    pub addrs: Seq<Seq<char>>,
    pub exec_line: Seq<char>,
    pub actions: Seq<ActionView>,
}

/// The group a client would start, named after its matched entry or else
/// its own class.
pub open spec fn group_of_client(s: StateView, c: Client) -> GroupView {
    let e = class_entry(s.entries, client_match_key(c));
    GroupView {
        key: match e {
            Some(i) => s.entries[i as int].id@,
            None => client_match_key(c),
        },
        label: match e {
            Some(i) => s.entries[i as int].name@,
            None => c.class@,
        },
        icon: match e {
            Some(i) => if s.entries[i as int].icon@.len() > 0 {
                s.entries[i as int].icon@
            } else {
                c.class@
            },
            None => c.class@,
        },
        addrs: seq![c.address@],
        exec_line: match e {
            Some(i) => command_of(s.entries[i as int].exec_line@),
            None => Seq::empty(),
        },
        actions: match e {
            Some(i) => actions_view(s.entries[i as int].actions@),
            None => Seq::empty(),
        },
    }
}

/// The groups formed by the first `n` clients that no pinned item claimed
/// and that are not on a special workspace, in order of first appearance.
pub open spec fn running_groups(s: StateView, claimed: Seq<bool>, n: nat) -> Seq<GroupView>
    decreases n,
{
    if n == 0 || n > s.clients.len() {
        Seq::empty()
    } else {
        let g = running_groups(s, claimed, (n - 1) as nat);
        let c = s.clients[n - 1];
        if claimed[n - 1] || is_special_name(c.workspace.name@) {
            g
        } else {
            let new = group_of_client(s, c);
            match first_where(g, key_is(new.key)) {
                Some(k) => g.update(k, GroupView { addrs: g[k].addrs.push(c.address@), ..g[k] }),
                None => g.push(new),
            }
        }
    }
}

/// The predicate "this group is keyed `k`".
pub open spec fn key_is(k: Seq<char>) -> spec_fn(GroupView) -> bool {
    |x: GroupView| x.key == k
}

pub open spec fn group_item(s: StateView, g: GroupView) -> ItemView {
    app_view(s, g.key, g.label, g.icon, g.addrs, false, g.exec_line, g.actions)
}

pub open spec fn group_items(s: StateView, gs: Seq<GroupView>) -> Seq<ItemView> {
    gs.map_values(|g: GroupView| group_item(s, g))
}

/// The launcher button at the head of the dock.
pub open spec fn launcher_tile(cfg: Config) -> ItemView {
    ItemView {
        label: "Omarchy"@,
        icon: cfg.launcher.icon@,
        pinned: true,
        exec_line: launcher_command_of(cfg.launcher.command@),
        glyph: Some("\u{e900}"@),
        ..blank_view(ItemKind::Launcher, "__launcher"@)
    }
}

pub open spec fn home_or_root(host: Host) -> Seq<char> {
    match host.home {
        Some(h) => h@,
        None => "/"@,
    }
}

/// A folder stack, its path expanded against the home directory.
pub open spec fn folder_tile(f: Folder, host: Host) -> ItemView {
    let path = tilde_expanded(f.path@, home_or_root(host));
    ItemView {
        label: f.name@,
        icon: if f.icon@.len() == 0 {
            "folder"@
        } else {
            f.icon@
        },
        pinned: true,
        path: Some(path),
        glyph: Some(folder_glyph_of(path, opt_str(host.home))),
        ..blank_view(ItemKind::Folder, "__folder:"@ + path)
    }
}

/// Stacks for the enabled folders among the first `n`.
pub open spec fn folder_tiles(folders: Seq<Folder>, host: Host, n: nat) -> Seq<ItemView>
    decreases n,
{
    if n == 0 || n > folders.len() {
        Seq::empty()
    } else {
        let prev = folder_tiles(folders, host, (n - 1) as nat);
        if folders[n - 1].enabled {
            prev.push(folder_tile(folders[n - 1], host))
        } else {
            prev
        }
    }
}

/// The Trash, drawn full when it has contents.
pub open spec fn trash_tile(host: Host) -> ItemView {
    ItemView {
        label: "Trash"@,
        icon: if host.trash_empty {
            "user-trash"@
        } else {
            "user-trash-full"@
        },
        pinned: true,
        path: Some(host.trash_dir@),
        glyph: Some(
            if host.trash_empty {
                "\u{f1f8}"@
            } else {
                "\u{f014}"@
            },
        ),
        ..blank_view(ItemKind::Trash, "__trash"@)
    }
}

/// Stacks and Trash: the dock's tail section.
pub open spec fn tail_section(cfg: Config, host: Host) -> Seq<ItemView> {
    folder_tiles(cfg.items.folders@, host, cfg.items.folders@.len()) + (if cfg.items.show_trash {
        seq![trash_tile(host)]
    } else {
        Seq::empty()
    })
}

pub open spec fn divider_if(b: bool) -> Seq<ItemView> {
    if b {
        seq![separator_view()]
    } else {
        Seq::empty()
    }
}

/// Every section in order, with an automatic divider between two sections
/// only when both sides hold something: launcher, workspace strip, pinned
/// items, running applications, stacks and Trash.
pub open spec fn sections(s: StateView, cfg: Config, host: Host) -> Seq<ItemView> {
    let h = if cfg.launcher.enabled {
        seq![launcher_tile(cfg)]
    } else {
        Seq::empty()
    };
    let w = workspace_section(s, cfg);
    let (p, claimed) = pinned_section(s, cfg, cfg.items.pinned@.len());
    let r = if cfg.items.show_running {
        group_items(s, running_groups(s, claimed, s.clients.len()))
    } else {
        Seq::empty()
    };
    let t = tail_section(cfg, host);
    let s1 = divider_if(w.len() > 0 && h.len() > 0);
    let s2 = divider_if(w.len() > 0 && p.len() + r.len() > 0);
    let s3 = divider_if(r.len() > 0 && h.len() + s1.len() + w.len() + p.len() > 0);
    let before_tail = h + s1 + w + s2 + p + s3 + r;
    before_tail + divider_if(t.len() > 0 && before_tail.len() > 0) + t
}

pub open spec fn is_divider(v: ItemView) -> bool {
    v.kind == ItemKind::Separator
}

/// Two dividers in a row divide nothing between them: keep the first.
pub open spec fn dedup_dividers(s: Seq<ItemView>) -> Seq<ItemView>
    decreases s.len(),
{
    if s.len() == 0 {
        s
    } else {
        let d = dedup_dividers(s.drop_last());
        if is_divider(s.last()) && d.len() > 0 && is_divider(d.last()) {
            d
        } else {
            d.push(s.last())
        }
    }
}

pub open spec fn drop_leading_dividers(s: Seq<ItemView>) -> Seq<ItemView>
    decreases s.len(),
{
    if s.len() > 0 && is_divider(s[0]) {
        drop_leading_dividers(s.drop_first())
    } else {
        s
    }
}

pub open spec fn drop_trailing_dividers(s: Seq<ItemView>) -> Seq<ItemView>
    decreases s.len(),
{
    if s.len() > 1 && is_divider(s.last()) {
        drop_trailing_dividers(s.drop_last())
    } else {
        s
    }
}

/// The full ordered dock.
pub open spec fn layout(s: StateView, cfg: Config, host: Host) -> Seq<ItemView> {
    drop_trailing_dividers(drop_leading_dividers(dedup_dividers(sections(s, cfg, host))))
}


/// No divider directly follows another.
pub open spec fn no_adjacent_dividers(s: Seq<ItemView>) -> bool {
    forall|i: int| 0 <= i < s.len() - 1 ==> !(is_divider(#[trigger] s[i]) && is_divider(s[i + 1]))
}

proof fn lemma_dedup_dividers(s: Seq<ItemView>)
    ensures
        no_adjacent_dividers(dedup_dividers(s)),
        s.len() > 0 ==> dedup_dividers(s).len() > 0 && dedup_dividers(s)[0] == s[0],
        s.len() > 0 && !is_divider(s.last()) ==> dedup_dividers(s).len() > 0
            && dedup_dividers(s).last() == s.last(),
        dedup_dividers(s).len() <= s.len(),
    decreases s.len(),
{
    if s.len() > 0 {
        let d = dedup_dividers(s.drop_last());
        lemma_dedup_dividers(s.drop_last());
        if !(is_divider(s.last()) && d.len() > 0 && is_divider(d.last())) {
            let e = d.push(s.last());
            assert forall|i: int| 0 <= i < e.len() - 1 implies !(is_divider(#[trigger] e[i])
                && is_divider(e[i + 1])) by {
                if i < d.len() - 1 {
                    assert(e[i] == d[i] && e[i + 1] == d[i + 1]);
                }
            }
        }
    }
}

proof fn lemma_drop_leading_dividers(s: Seq<ItemView>)
    ensures
        no_adjacent_dividers(s) ==> no_adjacent_dividers(drop_leading_dividers(s)),
        drop_leading_dividers(s).len() > 0 ==> !is_divider(drop_leading_dividers(s)[0]),
        s.len() > 0 && !is_divider(s[0]) ==> drop_leading_dividers(s) == s,
        s.len() > 0 && !is_divider(s.last()) ==> drop_leading_dividers(s).len() > 0
            && drop_leading_dividers(s).last() == s.last(),
    decreases s.len(),
{
    if s.len() > 0 && is_divider(s[0]) {
        let t = s.drop_first();
        lemma_drop_leading_dividers(t);
        if no_adjacent_dividers(s) {
            assert forall|i: int| 0 <= i < t.len() - 1 implies !(is_divider(#[trigger] t[i])
                && is_divider(t[i + 1])) by {
                assert(t[i] == s[i + 1] && t[i + 1] == s[i + 2]);
                assert(!(is_divider(s[i + 1]) && is_divider(s[i + 2])));
            }
        }
        if !is_divider(s.last()) {
            assert(t.len() > 0 && t.last() == s.last());
        }
    }
}

proof fn lemma_drop_trailing_dividers(s: Seq<ItemView>)
    requires
        no_adjacent_dividers(s),
        s.len() > 0 ==> !is_divider(s[0]),
    ensures
        no_adjacent_dividers(drop_trailing_dividers(s)),
        drop_trailing_dividers(s).len() > 0 ==> !is_divider(drop_trailing_dividers(s)[0])
            && !is_divider(drop_trailing_dividers(s).last()),
        s.len() > 0 ==> drop_trailing_dividers(s).len() > 0 && drop_trailing_dividers(s)[0] == s[0],
        s.len() > 0 && !is_divider(s.last()) ==> drop_trailing_dividers(s) == s,
    decreases s.len(),
{
    if s.len() > 1 && is_divider(s.last()) {
        let t = s.drop_last();
        assert forall|i: int| 0 <= i < t.len() - 1 implies !(is_divider(#[trigger] t[i])
            && is_divider(t[i + 1])) by {
            assert(t[i] == s[i] && t[i + 1] == s[i + 1]);
        }
        assert(t[0] == s[0]);
        lemma_drop_trailing_dividers(t);
    }
}

/// The dock never shows two dividers in a row, and never starts or ends on
/// a divider: whatever the pinned list, the windows and the settings, a
/// divider only ever stands between two items it divides.
pub proof fn lemma_layout_dividers(s: StateView, cfg: Config, host: Host)
    ensures
        no_adjacent_dividers(layout(s, cfg, host)),
        layout(s, cfg, host).len() > 0 ==> !is_divider(layout(s, cfg, host)[0])
            && !is_divider(layout(s, cfg, host).last()),
{
    let d = dedup_dividers(sections(s, cfg, host));
    lemma_dedup_dividers(sections(s, cfg, host));
    lemma_drop_leading_dividers(d);
    lemma_drop_trailing_dividers(drop_leading_dividers(d));
}

/// With the launcher enabled it is the first item; with Trash shown it is
/// the last.
pub proof fn lemma_layout_ends(s: StateView, cfg: Config, host: Host)
    ensures
        cfg.launcher.enabled ==> layout(s, cfg, host).len() > 0 && layout(s, cfg, host)[0]
            == launcher_tile(cfg),
        cfg.items.show_trash ==> layout(s, cfg, host).len() > 0 && layout(s, cfg, host).last()
            == trash_tile(host),
{
    let all = sections(s, cfg, host);
    let d = dedup_dividers(all);
    lemma_dedup_dividers(all);
    lemma_drop_leading_dividers(d);
    lemma_drop_trailing_dividers(drop_leading_dividers(d));
    if cfg.launcher.enabled {
        assert(all[0] == launcher_tile(cfg));
    }
    if cfg.items.show_trash {
        let t = tail_section(cfg, host);
        assert(t.last() == trash_tile(host));
        assert(all.last() == trash_tile(host));
    }
}

/// A running application that is not pinned.
pub open spec fn is_running_app(v: ItemView) -> bool {
    v.kind == ItemKind::App && !v.pinned
}

/// A folder stack or the Trash.
pub open spec fn is_tail_item(v: ItemView) -> bool {
    v.kind == ItemKind::Folder || v.kind == ItemKind::Trash
}

/// Whether `a` may stand before `b` in the dock: nothing before the
/// launcher; pinned entries in the order of the pinned list; no running
/// application before a pinned entry; stacks and Trash after every pinned
/// entry and running application.
pub open spec fn in_dock_order(a: ItemView, b: ItemView) -> bool {
    &&& b.kind != ItemKind::Launcher
    &&& (a.pin_index is Some && b.pin_index is Some ==> a.pin_index->0 < b.pin_index->0)
    &&& (b.pin_index is Some ==> !is_running_app(a) && !is_tail_item(a))
    &&& (is_running_app(b) ==> !is_tail_item(a))
}

/// Every two items of `s` stand in dock order.
pub open spec fn dock_ordered(s: Seq<ItemView>) -> bool {
    forall|i: int, j: int| 0 <= i < j < s.len() ==> in_dock_order(#[trigger] s[i], #[trigger] s[j])
}

spec fn plain_item(v: ItemView) -> bool {
    v.kind != ItemKind::Launcher && v.kind != ItemKind::App && !is_tail_item(v) && v.pin_index is None
}

spec fn pinned_item(v: ItemView, n: nat) -> bool {
    &&& v.pin_index is Some
    &&& v.pin_index->0 < n
    &&& v.kind != ItemKind::Launcher
    &&& !is_running_app(v)
    &&& !is_tail_item(v)
}

proof fn lemma_concat_ordered(x: Seq<ItemView>, y: Seq<ItemView>)
    requires
        dock_ordered(x),
        dock_ordered(y),
        forall|i: int, j: int| 0 <= i < x.len() && 0 <= j < y.len() ==> in_dock_order(
            #[trigger] x[i],
            #[trigger] y[j],
        ),
    ensures
        dock_ordered(x + y),
{
    let z = x + y;
    assert forall|i: int, j: int| 0 <= i < j < z.len() implies in_dock_order(
        #[trigger] z[i],
        #[trigger] z[j],
    ) by {
        if j < x.len() {
            assert(z[i] == x[i] && z[j] == x[j]);
        } else if i >= x.len() {
            assert(z[i] == y[i - x.len()] && z[j] == y[j - x.len()]);
        } else {
            assert(z[i] == x[i] && z[j] == y[j - x.len()]);
        }
    }
}

proof fn lemma_pinned_section_order(s: StateView, cfg: Config, n: nat)
    ensures
        dock_ordered(pinned_section(s, cfg, n).0),
        n <= cfg.items.pinned@.len() ==> forall|k: int|
            0 <= k < pinned_section(s, cfg, n).0.len() ==> pinned_item(
                #[trigger] pinned_section(s, cfg, n).0[k],
                n,
            ),
        n > cfg.items.pinned@.len() ==> pinned_section(s, cfg, n).0.len() == 0,
    decreases n,
{
    if n > 0 && n <= cfg.items.pinned@.len() {
        lemma_pinned_section_order(s, cfg, (n - 1) as nat);
        assert(cfg.items.pinned@.len() == cfg.items.pinned.len());
        let prev = pinned_section(s, cfg, (n - 1) as nat).0;
        let cur = pinned_section(s, cfg, n).0;
        assert forall|k: int| 0 <= k < cur.len() implies pinned_item(#[trigger] cur[k], n) by {
            if k < prev.len() {
                assert(cur[k] == prev[k]);
                assert(pinned_item(prev[k], (n - 1) as nat));
            }
        }
        assert forall|i: int, j: int| 0 <= i < j < cur.len() implies in_dock_order(
            #[trigger] cur[i],
            #[trigger] cur[j],
        ) by {
            assert(cur[i] == prev[i]);
            assert(pinned_item(prev[i], (n - 1) as nat));
            if j < prev.len() {
                assert(cur[j] == prev[j]);
            } else {
                assert(cur.len() == prev.len() + 1);
                assert(cur[j] == cur.last());
                assert(cur.last().pin_index == Some((n - 1) as usize));
                assert(in_dock_order(prev[i], cur.last()));
            }
        }
    }
}

proof fn lemma_workspace_tiles_plain(
    wss: Seq<Workspace>,
    clients: Seq<Client>,
    active: Option<i32>,
    show_empty: bool,
    n: nat,
)
    ensures
        forall|k: int| 0 <= k < workspace_tiles(wss, clients, active, show_empty, n).len()
            ==> plain_item(#[trigger] workspace_tiles(wss, clients, active, show_empty, n)[k]),
    decreases n,
{
    if n > 0 && n <= wss.len() {
        lemma_workspace_tiles_plain(wss, clients, active, show_empty, (n - 1) as nat);
        let prev = workspace_tiles(wss, clients, active, show_empty, (n - 1) as nat);
        let cur = workspace_tiles(wss, clients, active, show_empty, n);
        assert forall|k: int| 0 <= k < cur.len() implies plain_item(#[trigger] cur[k]) by {
            if k < prev.len() {
                assert(cur[k] == prev[k]);
            }
        }
    }
}

proof fn lemma_folder_tiles_tail(folders: Seq<Folder>, host: Host, n: nat)
    ensures
        forall|k: int| 0 <= k < folder_tiles(folders, host, n).len() ==> #[trigger] folder_tiles(
            folders,
            host,
            n,
        )[k].kind == ItemKind::Folder && folder_tiles(folders, host, n)[k].pin_index is None,
    decreases n,
{
    if n > 0 && n <= folders.len() {
        lemma_folder_tiles_tail(folders, host, (n - 1) as nat);
        let prev = folder_tiles(folders, host, (n - 1) as nat);
        let cur = folder_tiles(folders, host, n);
        assert forall|k: int| 0 <= k < cur.len() implies #[trigger] cur[k].kind == ItemKind::Folder
            && cur[k].pin_index is None by {
            if k < prev.len() {
                assert(cur[k] == prev[k]);
            }
        }
    }
}

proof fn lemma_sections_ordered(s: StateView, cfg: Config, host: Host)
    ensures
        dock_ordered(sections(s, cfg, host)),
{
    let h = if cfg.launcher.enabled {
        seq![launcher_tile(cfg)]
    } else {
        Seq::empty()
    };
    let w = workspace_section(s, cfg);
    let (p, claimed) = pinned_section(s, cfg, cfg.items.pinned@.len());
    let r = if cfg.items.show_running {
        group_items(s, running_groups(s, claimed, s.clients.len()))
    } else {
        Seq::empty()
    };
    let t = tail_section(cfg, host);
    let s1 = divider_if(w.len() > 0 && h.len() > 0);
    let s2 = divider_if(w.len() > 0 && p.len() + r.len() > 0);
    let s3 = divider_if(r.len() > 0 && h.len() + s1.len() + w.len() + p.len() > 0);
    let before_tail = h + s1 + w + s2 + p + s3 + r;
    let s4 = divider_if(t.len() > 0 && before_tail.len() > 0);
    let n = cfg.items.pinned@.len();
    lemma_pinned_section_order(s, cfg, n);
    lemma_workspace_tiles_plain(
        s.workspaces,
        s.clients,
        active_workspace_of(s.monitors),
        cfg.workspaces.show_empty,
        s.workspaces.len(),
    );
    lemma_folder_tiles_tail(cfg.items.folders@, host, cfg.items.folders@.len());
    let ft = folder_tiles(cfg.items.folders@, host, cfg.items.folders@.len());
    // What each section holds.
    assert(forall|k: int| 0 <= k < h.len() ==> (#[trigger] h[k]).kind == ItemKind::Launcher
        && h[k].pin_index is None);
    assert(forall|k: int| 0 <= k < s1.len() ==> plain_item(#[trigger] s1[k]));
    assert(forall|k: int| 0 <= k < s2.len() ==> plain_item(#[trigger] s2[k]));
    assert(forall|k: int| 0 <= k < s3.len() ==> plain_item(#[trigger] s3[k]));
    assert(forall|k: int| 0 <= k < s4.len() ==> plain_item(#[trigger] s4[k]));
    assert forall|k: int| 0 <= k < w.len() implies plain_item(#[trigger] w[k]) by {
        if cfg.workspaces.enabled {
            let wt = workspace_tiles(
                s.workspaces,
                s.clients,
                active_workspace_of(s.monitors),
                cfg.workspaces.show_empty,
                s.workspaces.len(),
            );
            if k < wt.len() {
                assert(w[k] == wt[k]);
            }
        }
    }
    assert forall|k: int| 0 <= k < r.len() implies is_running_app(#[trigger] r[k])
        && r[k].pin_index is None by {}
    assert forall|k: int| 0 <= k < t.len() implies is_tail_item(#[trigger] t[k])
        && t[k].pin_index is None by {
        if k < ft.len() {
            assert(t[k] == ft[k]);
        }
    }
    // Each section is in order by itself.
    assert(dock_ordered(h));
    assert(dock_ordered(s1));
    assert(dock_ordered(s2));
    assert(dock_ordered(s3));
    assert(dock_ordered(s4));
    assert(dock_ordered(w));
    assert(dock_ordered(r));
    assert(dock_ordered(t));
    // And the sections follow one another in order.
    let x1 = h + s1;
    lemma_concat_ordered(h, s1);
    let x2 = x1 + w;
    lemma_concat_ordered(x1, w);
    let x3 = x2 + s2;
    lemma_concat_ordered(x2, s2);
    assert forall|k: int| 0 <= k < x3.len() implies (#[trigger] x3[k]).kind == ItemKind::Launcher
        && x3[k].pin_index is None || plain_item(x3[k]) by {
        if k < x2.len() {
            if k < x1.len() {
                if k < h.len() {
                    assert(x3[k] == h[k]);
                } else {
                    assert(x3[k] == s1[k - h.len()]);
                }
            } else {
                assert(x3[k] == w[k - x1.len()]);
            }
        } else {
            assert(x3[k] == s2[k - x2.len()]);
        }
    }
    let x4 = x3 + p;
    lemma_concat_ordered(x3, p);
    let x5 = x4 + s3;
    lemma_concat_ordered(x4, s3);
    assert forall|k: int| 0 <= k < x5.len() implies !is_tail_item(#[trigger] x5[k]) by {
        if k < x4.len() {
            if k < x3.len() {
                assert(x5[k] == x3[k]);
            } else {
                assert(x5[k] == p[k - x3.len()]);
            }
        } else {
            assert(x5[k] == s3[k - x4.len()]);
        }
    }
    let x6 = x5 + r;
    lemma_concat_ordered(x5, r);
    assert(x6 == before_tail);
    assert forall|k: int| 0 <= k < x6.len() implies !is_tail_item(#[trigger] x6[k]) by {
        if k < x5.len() {
            assert(x6[k] == x5[k]);
        } else {
            assert(x6[k] == r[k - x5.len()]);
        }
    }
    let x7 = x6 + s4;
    lemma_concat_ordered(x6, s4);
    lemma_concat_ordered(x7, t);
}

/// Dropping items keeps the rest in dock order.
proof fn lemma_dedup_ordered(s: Seq<ItemView>)
    requires
        dock_ordered(s),
    ensures
        dock_ordered(dedup_dividers(s)),
        forall|k: int| 0 <= k < dedup_dividers(s).len() ==> exists|m: int|
            0 <= m < s.len() && #[trigger] dedup_dividers(s)[k] == s[m],
    decreases s.len(),
{
    if s.len() > 0 {
        let t = s.drop_last();
        assert forall|i: int, j: int| 0 <= i < j < t.len() implies in_dock_order(
            #[trigger] t[i],
            #[trigger] t[j],
        ) by {
            assert(t[i] == s[i] && t[j] == s[j]);
        }
        lemma_dedup_ordered(t);
        let d = dedup_dividers(t);
        let e = dedup_dividers(s);
        assert forall|k: int| 0 <= k < d.len() implies exists|m: int|
            0 <= m < s.len() - 1 && #[trigger] d[k] == s[m] by {
            let m = choose|m: int| 0 <= m < t.len() && d[k] == t[m];
            assert(t[m] == s[m]);
        }
        if !(is_divider(s.last()) && d.len() > 0 && is_divider(d.last())) {
            assert forall|i: int, j: int| 0 <= i < j < e.len() implies in_dock_order(
                #[trigger] e[i],
                #[trigger] e[j],
            ) by {
                assert(e[i] == d[i]);
                if j < d.len() {
                    assert(e[j] == d[j]);
                } else {
                    let m = choose|m: int| 0 <= m < s.len() - 1 && d[i] == s[m];
                    assert(e[j] == s[s.len() - 1]);
                    assert(in_dock_order(s[m], s[s.len() - 1]));
                }
            }
            assert forall|k: int| 0 <= k < e.len() implies exists|m: int|
                0 <= m < s.len() && #[trigger] e[k] == s[m] by {
                if k < d.len() {
                    assert(e[k] == d[k]);
                    let m = choose|m: int| 0 <= m < s.len() - 1 && d[k] == s[m];
                    assert(e[k] == s[m]);
                } else {
                    assert(e[k] == s[s.len() - 1]);
                }
            }
        }
    }
}

proof fn lemma_drop_leading_ordered(s: Seq<ItemView>)
    requires
        dock_ordered(s),
    ensures
        dock_ordered(drop_leading_dividers(s)),
    decreases s.len(),
{
    if s.len() > 0 && is_divider(s[0]) {
        let t = s.drop_first();
        assert forall|i: int, j: int| 0 <= i < j < t.len() implies in_dock_order(
            #[trigger] t[i],
            #[trigger] t[j],
        ) by {
            assert(t[i] == s[i + 1] && t[j] == s[j + 1]);
        }
        lemma_drop_leading_ordered(t);
    }
}

proof fn lemma_drop_trailing_ordered(s: Seq<ItemView>)
    requires
        dock_ordered(s),
    ensures
        dock_ordered(drop_trailing_dividers(s)),
    decreases s.len(),
{
    if s.len() > 1 && is_divider(s.last()) {
        let t = s.drop_last();
        assert forall|i: int, j: int| 0 <= i < j < t.len() implies in_dock_order(
            #[trigger] t[i],
            #[trigger] t[j],
        ) by {
            assert(t[i] == s[i] && t[j] == s[j]);
        }
        lemma_drop_trailing_ordered(t);
    }
}

/// The dock runs launcher, pinned entries in the order of the pinned list,
/// running applications that are not pinned, then stacks and Trash: nothing
/// precedes the launcher, pinned entries keep their pinned order, no running
/// application comes before a pinned entry, and no stack or Trash before
/// either.
pub proof fn lemma_layout_order(s: StateView, cfg: Config, host: Host)
    ensures
        dock_ordered(layout(s, cfg, host)),
{
    lemma_sections_ordered(s, cfg, host);
    let all = sections(s, cfg, host);
    lemma_dedup_ordered(all);
    lemma_drop_leading_ordered(dedup_dividers(all));
    lemma_drop_trailing_ordered(drop_leading_dividers(dedup_dividers(all)));
}

// ── transitions ─────────────────────────────────────────────────────────────

/// The predicate "this address is not `a`".
pub open spec fn other_than(a: Seq<char>) -> spec_fn(Seq<char>) -> bool {
    |x: Seq<char>| x != a
}

/// The predicate "this client's address is not `a`".
pub open spec fn not_at(a: Seq<char>) -> spec_fn(Client) -> bool {
    |c: Client| c.address@ != a
}

/// The predicate "some client has this address".
pub open spec fn window_of(clients: Seq<Client>) -> spec_fn(Seq<char>) -> bool {
    |a: Seq<char>| has_client(clients, a)
}

/// The state after a snapshot of the windows: an urgent window that has
/// since closed does not stay urgent.
pub open spec fn with_clients(s: StateView, clients: Seq<Client>) -> StateView {
    StateView { clients, urgent: keep(s.urgent, window_of(clients)), ..s }
}

/// The state after window `a` closed: neither listed, urgent nor focused.
pub open spec fn without_window(s: StateView, a: Seq<char>) -> StateView {
    StateView {
        clients: keep(s.clients, not_at(a)),
        urgent: keep(s.urgent, other_than(a)),
        focused: if s.focused == Some(a) {
            None
        } else {
            s.focused
        },
        ..s
    }
}

/// The state after focus moved to `a` (nowhere, for `None`): focusing a
/// window clears its attention request.
pub open spec fn focused_on(s: StateView, a: Option<Seq<char>>) -> StateView {
    StateView {
        urgent: match a {
            Some(x) => keep(s.urgent, other_than(x)),
            None => s.urgent,
        },
        focused: a,
        ..s
    }
}

/// The state after window `a` asked for attention; the focused window
/// never needs to, and a window is urgent at most once.
pub open spec fn with_urgent(s: StateView, a: Seq<char>) -> StateView {
    StateView {
        urgent: if s.focused != Some(a) && !s.urgent.contains(a) {
            s.urgent.push(a)
        } else {
            s.urgent
        },
        ..s
    }
}

/// The state after the first window with address `a` was retitled.
pub open spec fn retitled(s: StateView, a: Seq<char>, title: String) -> StateView {
    StateView {
        clients: match first_where(s.clients, addr_is(a)) {
            Some(i) => s.clients.update(i, Client { title, ..s.clients[i] }),
            None => s.clients,
        },
        ..s
    }
}


// ── the state ───────────────────────────────────────────────────────────────

impl View for DockState {
    type V = StateView;

    closed spec fn view(&self) -> StateView {
        StateView {
            entries: self.matcher.entry_list(),
            clients: self.clients@,
            monitors: self.monitors@,
            workspaces: self.workspaces@,
            focused: opt_addr(self.focused),
            urgent: addresses(self.urgent@),
        }
    }
}

fn has_client_exec(clients: &Vec<Client>, a: &Address) -> (r: bool)
    ensures
        r == has_client(clients@, a@),
{
    let mut i: usize = 0;
    while i < clients.len()
        invariant
            i <= clients@.len(),
            forall|j: int| 0 <= j < i ==> clients@[j].address@ != a@,
        decreases clients.len() - i,
    {
        if clients[i].address.same(a) {
            return true;
        }
        i = i + 1;
    }
    false
}

/// The clients whose address is not `a`, in order.
fn clients_without(clients: &Vec<Client>, a: &Address) -> (r: Vec<Client>)
    ensures
        r@ == keep(clients@, not_at(a@)),
{
    let mut out: Vec<Client> = Vec::new();
    let mut i: usize = 0;
    while i < clients.len()
        invariant
            i <= clients@.len(),
            out@ == keep(clients@.take(i as int), not_at(a@)),
        decreases clients.len() - i,
    {
        assert(clients@.take(i + 1).drop_last() =~= clients@.take(i as int));
        if !clients[i].address.same(a) {
            out.push(clients[i].clone());
        }
        i = i + 1;
    }
    assert(clients@.take(clients.len() as int) =~= clients@);
    out
}

/// The addresses in `v` other than `a`, in order.
fn addresses_without(v: &Vec<Address>, a: &Address) -> (r: Vec<Address>)
    ensures
        addresses(r@) == keep(addresses(v@), other_than(a@)),
{
    let ghost av = addresses(v@);
    let mut out: Vec<Address> = Vec::new();
    let mut i: usize = 0;
    while i < v.len()
        invariant
            i <= v@.len(),
            av == addresses(v@),
            addresses(out@) == keep(av.take(i as int), other_than(a@)),
        decreases v.len() - i,
    {
        assert(av.take(i + 1).drop_last() =~= av.take(i as int));
        let ghost before = addresses(out@);
        if !v[i].same(a) {
            out.push(v[i].clone());
            assert(addresses(out@) =~= before.push(av[i as int]));
        }
        i = i + 1;
    }
    assert(av.take(v.len() as int) =~= av);
    out
}

fn contains_address(v: &Vec<Address>, a: &Address) -> (r: bool)
    ensures
        r == addresses(v@).contains(a@),
{
    let mut i: usize = 0;
    while i < v.len()
        invariant
            i <= v@.len(),
            forall|j: int| 0 <= j < i ==> addresses(v@)[j] != a@,
        decreases v.len() - i,
    {
        if v[i].same(a) {
            assert(addresses(v@)[i as int] == a@);
            return true;
        }
        i = i + 1;
    }
    false
}

impl DockState {
    pub fn new(entries: Vec<Entry>) -> (r: DockState)
        ensures
            r@ == (StateView {
                entries: entries@,
                clients: Seq::empty(),
                monitors: Seq::empty(),
                workspaces: Seq::empty(),
                focused: None,
                urgent: Seq::empty(),
            }),
    {
        let r = DockState {
            matcher: Matcher::build(entries),
            clients: Vec::new(),
            monitors: Vec::new(),
            workspaces: Vec::new(),
            focused: None,
            urgent: Vec::new(),
        };
        assert(r@.urgent =~= Seq::<Seq<char>>::empty());
        r
    }

    pub fn matcher(&self) -> (r: &Matcher)
        ensures
            r.entry_list() == self@.entries,
    {
        &self.matcher
    }

    /// Replace the window set wholesale, as after a snapshot or reconnect.
    /// An urgent window that has since closed does not stay urgent.
    pub fn set_clients(&mut self, clients: Vec<Client>)
        ensures
            final(self)@ == with_clients(old(self)@, clients@),
    {
        let ghost uv = addresses(self.urgent@);
        let mut kept: Vec<Address> = Vec::new();
        let mut i: usize = 0;
        while i < self.urgent.len()
            invariant
                i <= self.urgent@.len(),
                uv == addresses(self.urgent@),
                addresses(kept@) == keep(uv.take(i as int), window_of(clients@)),
            decreases self.urgent.len() - i,
        {
            assert(uv.take(i + 1).drop_last() =~= uv.take(i as int));
            let ghost before = addresses(kept@);
            if has_client_exec(&clients, &self.urgent[i]) {
                kept.push(self.urgent[i].clone());
                assert(addresses(kept@) =~= before.push(uv[i as int]));
            }
            i = i + 1;
        }
        assert(uv.take(self.urgent.len() as int) =~= uv);
        self.clients = clients;
        self.urgent = kept;
    }

    pub fn set_monitors(&mut self, monitors: Vec<Monitor>)
        ensures
            final(self)@ == (StateView { monitors: monitors@, ..old(self)@ }),
    {
        self.monitors = monitors;
    }

    /// Hyprland reports workspaces in creation order, which would make tiles
    /// jump around as workspaces come and go; they are kept in id order.
    pub fn set_workspaces(&mut self, workspaces: Vec<Workspace>)
        ensures
            final(self)@ == (StateView { workspaces: sort_by_id(workspaces@), ..old(self)@ }),
    {
        let mut sorted: Vec<Workspace> = Vec::new();
        let mut i: usize = 0;
        while i < workspaces.len()
            invariant
                i <= workspaces@.len(),
                sorted@ == sort_by_id(workspaces@.take(i as int)),
            decreases workspaces.len() - i,
        {
            assert(workspaces@.take(i + 1).drop_last() =~= workspaces@.take(i as int));
            let w = workspaces[i].clone();
            let mut j: usize = sorted.len();
            while j > 0 && sorted[j - 1].id > w.id
                invariant
                    j <= sorted@.len(),
                    forall|k: int| j <= k < sorted@.len() ==> sorted@[k].id > w.id,
                decreases j,
            {
                j = j - 1;
            }
            proof {
                lemma_insert_by_id_at(sorted@, w, j as int);
            }
            sorted.insert(j, w);
            i = i + 1;
        }
        assert(workspaces@.take(workspaces.len() as int) =~= workspaces@);
        self.workspaces = sorted;
    }

    /// Whether any window on a currently visible workspace is fullscreen: a
    /// fullscreen window parked on another workspace covers nothing here.
    pub fn has_fullscreen(&self) -> (r: bool)
        ensures
            r == fullscreen_visible(self@.clients, self@.monitors),
    {
        let mut i: usize = 0;
        while i < self.clients.len()
            invariant
                i <= self.clients@.len(),
                forall|a: int, b: int|
                    0 <= a < i && 0 <= b < self.monitors@.len() ==> !(#[trigger] self.clients@[a].fullscreen > 0
                        && #[trigger] self.monitors@[b].active_workspace.id == self.clients@[a].workspace.id),
            decreases self.clients.len() - i,
        {
            if self.clients[i].fullscreen > 0 {
                let mut j: usize = 0;
                while j < self.monitors.len()
                    invariant
                        i < self.clients@.len(),
                        j <= self.monitors@.len(),
                        self.clients@[i as int].fullscreen > 0,
                        forall|b: int|
                            0 <= b < j ==> #[trigger] self.monitors@[b].active_workspace.id
                                != self.clients@[i as int].workspace.id,
                    decreases self.monitors.len() - j,
                {
                    if self.monitors[j].active_workspace.id == self.clients[i].workspace.id {
                        return true;
                    }
                    j = j + 1;
                }
            }
            i = i + 1;
        }
        false
    }

    pub fn monitor_by_name(&self, name: &str) -> (r: Option<&Monitor>)
        ensures
            match first_where(self@.monitors, |m: Monitor| m.name@ == name@) {
                Some(i) => r == Some(&self@.monitors[i]),
                None => r is None,
            },
    {
        let want = chars_of(name);
        let mut i: usize = 0;
        while i < self.monitors.len()
            invariant
                i <= self.monitors@.len(),
                want@ == name@,
                first_where(self.monitors@.take(i as int), |m: Monitor| m.name@ == name@) is None,
            decreases self.monitors.len() - i,
        {
            assert(self.monitors@.take(i + 1).drop_last() =~= self.monitors@.take(i as int));
            if seq_eq(&chars_of(self.monitors[i].name.as_str()), &want) {
                proof {
                    lemma_first_where_prefix(self.monitors@, |m: Monitor| m.name@ == name@, i + 1);
                }
                return Some(&self.monitors[i]);
            }
            i = i + 1;
        }
        assert(self.monitors@.take(self.monitors.len() as int) =~= self.monitors@);
        None
    }

    /// The monitor Hyprland currently considers focused.
    pub fn focused_monitor(&self) -> (r: Option<&Monitor>)
        ensures
            match first_where(self@.monitors, |m: Monitor| m.focused) {
                Some(i) => r == Some(&self@.monitors[i]),
                None => r is None,
            },
    {
        let mut i: usize = 0;
        while i < self.monitors.len()
            invariant
                i <= self.monitors@.len(),
                first_where(self.monitors@.take(i as int), |m: Monitor| m.focused) is None,
            decreases self.monitors.len() - i,
        {
            assert(self.monitors@.take(i + 1).drop_last() =~= self.monitors@.take(i as int));
            if self.monitors[i].focused {
                proof {
                    lemma_first_where_prefix(self.monitors@, |m: Monitor| m.focused, i + 1);
                }
                return Some(&self.monitors[i]);
            }
            i = i + 1;
        }
        assert(self.monitors@.take(self.monitors.len() as int) =~= self.monitors@);
        None
    }

    /// The focused window, if the dock knows about it.
    pub fn focused_client(&self) -> (r: Option<&Client>)
        ensures
            match self@.focused {
                Some(a) => match first_where(self@.clients, addr_is(a)) {
                    Some(i) => r == Some(&self@.clients[i]),
                    None => r is None,
                },
                None => r is None,
            },
    {
        match &self.focused {
            Some(a) => match find_client(&self.clients, a) {
                Some(i) => Some(&self.clients[i]),
                None => None,
            },
            None => None,
        }
    }

    pub fn clients(&self) -> (r: &[Client])
        ensures
            r@ == self@.clients,
    {
        self.clients.as_slice()
    }

    /// Add or replace the window with `client`'s address; it goes last.
    pub fn add_client(&mut self, client: Client)
        ensures
            final(self)@ == (StateView {
                clients: keep(old(self)@.clients, not_at(client.address@)).push(
                    client,
                ),
                ..old(self)@
            }),
    {
        let mut kept = clients_without(&self.clients, &client.address);
        kept.push(client);
        self.clients = kept;
    }

    /// Forget a closed window: it is neither listed, urgent nor focused.
    pub fn remove_client(&mut self, addr: &Address)
        ensures
            final(self)@ == without_window(old(self)@, addr@),
    {
        self.clients = clients_without(&self.clients, addr);
        self.urgent = addresses_without(&self.urgent, addr);
        let clear = match &self.focused {
            Some(f) => f.same(addr),
            None => false,
        };
        if clear {
            self.focused = None;
        }
    }

    /// Focusing a window clears its attention request, as in macOS.
    pub fn set_focused(&mut self, addr: Option<Address>)
        ensures
            final(self)@ == focused_on(old(self)@, opt_addr(addr)),
    {
        if let Some(a) = &addr {
            self.urgent = addresses_without(&self.urgent, a);
        }
        self.focused = addr;
    }

    /// A window asked for attention; the focused one never needs to.
    pub fn set_urgent(&mut self, addr: Address)
        ensures
            final(self)@ == with_urgent(old(self)@, addr@),
    {
        let focused_here = match &self.focused {
            Some(f) => f.same(&addr),
            None => false,
        };
        if !focused_here && !contains_address(&self.urgent, &addr) {
            let ghost before = addresses(self.urgent@);
            self.urgent.push(addr);
            assert(addresses(self.urgent@) =~= before.push(addr@));
        }
    }

    /// Retitle the first window with address `addr`, if there is one.
    pub fn set_title(&mut self, addr: &Address, title: String)
        ensures
            final(self)@ == retitled(old(self)@, addr@, title),
    {
        match find_client(&self.clients, addr) {
            Some(i) => {
                let ghost before = self.clients@;
                let mut c = self.clients.remove(i);
                c.title = title;
                self.clients.insert(i, c);
                assert(self.clients@ =~= before.update(i as int, c));
            },
            None => {},
        }
    }
}

/// The first client with address `a`.
fn find_client(clients: &Vec<Client>, a: &Address) -> (r: Option<usize>)
    ensures
        match r {
            Some(i) => first_where(clients@, addr_is(a@)) == Some(i as int) && i < clients@.len(),
            None => first_where(clients@, addr_is(a@)) is None,
        },
{
    let mut i: usize = 0;
    while i < clients.len()
        invariant
            i <= clients@.len(),
            first_where(clients@.take(i as int), addr_is(a@)) is None,
        decreases clients.len() - i,
    {
        assert(clients@.take(i + 1).drop_last() =~= clients@.take(i as int));
        if clients[i].address.same(a) {
            proof {
                lemma_first_where_prefix(clients@, addr_is(a@), i + 1);
            }
            return Some(i);
        }
        i = i + 1;
    }
    assert(clients@.take(clients.len() as int) =~= clients@);
    None
}


// ── building items ──────────────────────────────────────────────────────────

/// The addresses of the clients satisfying `p`, where `test` decides `p`.
fn addresses_where(clients: &Vec<Client>, id: Option<i32>) -> (r: Vec<Address>)
    ensures
        addresses(r@) == match id {
            Some(i) => addresses_on(clients@, i),
            None => special_addresses(clients@),
        },
{
    let ghost p = match id {
        Some(i) => on_workspace(i),
        None => on_special(),
    };
    let mut out: Vec<Address> = Vec::new();
    let mut i: usize = 0;
    while i < clients.len()
        invariant
            i <= clients@.len(),
            p == (match id {
                Some(i) => on_workspace(i),
                None => on_special(),
            }),
            addresses(out@) == client_addresses(keep(clients@.take(i as int), p)),
        decreases clients.len() - i,
    {
        assert(clients@.take(i + 1).drop_last() =~= clients@.take(i as int));
        let c = &clients[i];
        let hit = match id {
            Some(w) => c.workspace.id == w,
            None => c.is_special(),
        };
        let ghost before = keep(clients@.take(i as int), p);
        if hit {
            let ghost ob = addresses(out@);
            out.push(c.address.clone());
            assert(addresses(out@) =~= ob.push(c.address@));
            assert(client_addresses(before.push(*c)) =~= client_addresses(before).push(c.address@));
        }
        i = i + 1;
    }
    assert(clients@.take(clients.len() as int) =~= clients@);
    out
}

impl DockState {
    /// The workspace shown on the focused monitor, or on the first.
    fn active_workspace_id(&self) -> (r: Option<i32>)
        ensures
            r == active_workspace_of(self@.monitors),
    {
        match self.focused_monitor() {
            Some(m) => Some(m.active_workspace.id),
            None => if self.monitors.len() > 0 {
                Some(self.monitors[0].active_workspace.id)
            } else {
                None
            },
        }
    }

    /// Whether a special workspace is open on any monitor.
    fn special_is_open(&self) -> (r: bool)
        ensures
            r == special_open(self@.monitors),
    {
        let mut i: usize = 0;
        while i < self.monitors.len()
            invariant
                i <= self.monitors@.len(),
                forall|j: int|
                    0 <= j < i ==> !(#[trigger] self.monitors@[j].special_workspace is Some
                        && self.monitors@[j].special_workspace->0.name@.len() > 0),
            decreases self.monitors.len() - i,
        {
            match &self.monitors[i].special_workspace {
                Some(w) => if !w.name.as_str().is_empty() {
                    return true;
                },
                None => {},
            }
            i = i + 1;
        }
        false
    }

    /// Whether any of `windows` asked for attention.
    fn any_urgent(&self, windows: &Vec<Address>) -> (r: bool)
        ensures
            r == exists|i: int|
                0 <= i < windows@.len() && self@.urgent.contains(#[trigger] addresses(windows@)[i]),
    {
        let ghost wv = addresses(windows@);
        let mut i: usize = 0;
        while i < windows.len()
            invariant
                i <= windows@.len(),
                wv == addresses(windows@),
                forall|j: int| 0 <= j < i ==> !self@.urgent.contains(#[trigger] wv[j]),
            decreases windows.len() - i,
        {
            if contains_address(&self.urgent, &windows[i]) {
                assert(self@.urgent.contains(wv[i as int]));
                return true;
            }
            i = i + 1;
        }
        false
    }

    /// Whether some tracked window with address `a` sits on a special
    /// workspace.
    fn is_stashed(&self, a: &Address) -> (r: bool)
        ensures
            r == stashed(self@.clients, a@),
    {
        let mut k: usize = 0;
        while k < self.clients.len()
            invariant
                k <= self.clients@.len(),
                forall|m: int|
                    0 <= m < k ==> !(#[trigger] self@.clients[m].address@ == a@
                        && is_special_name(self@.clients[m].workspace.name@)),
            decreases self.clients.len() - k,
        {
            assert(self@.clients[k as int] == self.clients@[k as int]);
            if self.clients[k].address.same(a) && self.clients[k].is_special() {
                return true;
            }
            k = k + 1;
        }
        false
    }

    /// Whether `windows` is non-empty and every one of them is stashed on a
    /// special workspace.
    fn all_stashed(&self, windows: &Vec<Address>) -> (r: bool)
        ensures
            r == (windows@.len() > 0 && forall|j: int|
                0 <= j < windows@.len() ==> #[trigger] stashed(self@.clients, addresses(windows@)[j])),
    {
        let ghost wv = addresses(windows@);
        if windows.len() == 0 {
            return false;
        }
        let mut i: usize = 0;
        while i < windows.len()
            invariant
                i <= windows@.len(),
                windows@.len() > 0,
                wv == addresses(windows@),
                forall|j: int| 0 <= j < i ==> #[trigger] stashed(self@.clients, wv[j]),
            decreases windows.len() - i,
        {
            if !self.is_stashed(&windows[i]) {
                assert(wv[i as int] == windows@[i as int]@);
                return false;
            }
            assert(wv[i as int] == windows@[i as int]@);
            i = i + 1;
        }
        true
    }

    /// An application item, with focus, urgency and scratchpad state read
    /// off the tracked windows.
    fn make_item(
        &self,
        key: String,
        label: String,
        icon: String,
        windows: Vec<Address>,
        pinned: bool,
        exec_line: String,
        actions: Vec<Action>,
    ) -> (r: DockItem)
        ensures
            r@ == app_view(
                self@,
                key@,
                label@,
                icon@,
                addresses(windows@),
                pinned,
                exec_line@,
                actions_view(actions@),
            ),
    {
        let ghost wv = addresses(windows@);
        let active_window = match &self.focused {
            Some(f) => if contains_address(&windows, f) {
                Some(f.clone())
            } else {
                None
            },
            None => None,
        };
        let urgent = self.any_urgent(&windows);
        let scratchpad = self.all_stashed(&windows);
        let active = active_window.is_some();
        DockItem {
            kind: ItemKind::App,
            key,
            label,
            icon,
            windows,
            pinned,
            active,
            urgent,
            scratchpad,
            active_window,
            exec_line,
            actions,
            path: None,
            pin_index: None,
            glyph: None,
        }
    }

    /// The workspace strip and scratchpad tile, when enabled.
    ///
    /// Windows on a workspace go into the tile's `windows`, which is what
    /// the rest of the dock already keys the running indicator and the count
    /// badge off.
    pub fn workspace_items(&self, cfg: &Config) -> (r: Vec<DockItem>)
        ensures
            items_view(r@) == workspace_section(self@, *cfg),
    {
        let mut items: Vec<DockItem> = Vec::new();
        let active = self.active_workspace_id();
        if cfg.workspaces.enabled {
            let mut i: usize = 0;
            while i < self.workspaces.len()
                invariant
                    i <= self.workspaces@.len(),
                    cfg.workspaces.enabled,
                    active == active_workspace_of(self@.monitors),
                    items_view(items@) == workspace_tiles(
                        self@.workspaces,
                        self@.clients,
                        active,
                        cfg.workspaces.show_empty,
                        i as nat,
                    ),
                decreases self.workspaces.len() - i,
            {
                let ws = &self.workspaces[i];
                let windows = addresses_where(&self.clients, Some(ws.id));
                let skip = ws.is_special() || (windows.len() == 0 && !cfg.workspaces.show_empty
                    && active != Some(ws.id));
                proof {
                    assert(addresses(windows@).len() == windows@.len());
                }
                if !skip {
                    let ghost before = items_view(items@);
                    let key = concat(&chars_of("__ws:"), &chars_of(ws.name.as_str()));
                    let mut tile = blank_item(ItemKind::Workspace, string_of(&key));
                    tile.label = ws.name.clone();
                    tile.windows = windows;
                    tile.active = active == Some(ws.id);
                    items.push(tile);
                    assert(items_view(items@) =~= before.push(
                        workspace_tile(*ws, addresses_on(self@.clients, ws.id), active),
                    ));
                }
                i = i + 1;
            }
        }
        let ghost strip = items_view(items@);
        assert(cfg.workspaces.enabled || strip =~= Seq::<ItemView>::empty());
        if cfg.workspaces.scratchpad {
            let mut tile = blank_item(ItemKind::Scratchpad, string_of(&chars_of("__scratchpad")));
            tile.label = string_of(&chars_of("Scratchpad"));
            tile.windows = addresses_where(&self.clients, None);
            tile.active = self.special_is_open();
            tile.scratchpad = true;
            tile.glyph = Some(string_of(&chars_of("\u{f01c}")));
            items.push(tile);
            assert(items_view(items@) =~= strip + seq![scratchpad_tile(self@)]);
        } else {
            assert(items_view(items@) =~= strip + Seq::<ItemView>::empty());
        }
        items
    }
}


/// Whether `key` equals one of `expected`, ignoring ASCII case.
fn matches_any(key: &str, expected: &Vec<String>) -> (r: bool)
    ensures
        r == matches_expected(key@, strings(expected@)),
{
    let k = chars_of(key);
    let ghost ev = strings(expected@);
    let mut i: usize = 0;
    while i < expected.len()
        invariant
            i <= expected@.len(),
            ev == strings(expected@),
            k@ == key@,
            forall|j: int| 0 <= j < i ==> !eq_ignore_ascii_case(key@, #[trigger] ev[j]),
        decreases expected.len() - i,
    {
        if eq_ignore_ascii_case_vec(&k, &chars_of(expected[i].as_str())) {
            assert(eq_ignore_ascii_case(key@, ev[i as int]));
            return true;
        }
        i = i + 1;
    }
    false
}

impl DockState {
    /// Claim every unclaimed window whose class is one of `expected`, in
    /// window order.
    fn claim_windows(&self, claimed: &mut Vec<bool>, expected: &Vec<String>) -> (w: Vec<Address>)
        requires
            old(claimed)@.len() == self@.clients.len(),
        ensures
            (addresses(w@), final(claimed)@) == claim(
                self@.clients,
                old(claimed)@,
                strings(expected@),
                self@.clients.len(),
            ),
            final(claimed)@.len() == self@.clients.len(),
    {
        let ghost start = claimed@;
        let ghost ev = strings(expected@);
        let mut w: Vec<Address> = Vec::new();
        let mut i: usize = 0;
        assert(addresses(w@) =~= Seq::<Seq<char>>::empty());
        while i < self.clients.len()
            invariant
                i <= self@.clients.len(),
                self@.clients == self.clients@,
                ev == strings(expected@),
                claimed@.len() == self@.clients.len(),
                (addresses(w@), claimed@) == claim(self@.clients, start, ev, i as nat),
            decreases self.clients.len() - i,
        {
            let c = &self.clients[i];
            if !claimed[i] && matches_any(c.match_key(), expected) {
                let ghost before = addresses(w@);
                claimed.set(i, true);
                w.push(c.address.clone());
                assert(addresses(w@) =~= before.push(c.address@));
            }
            i = i + 1;
        }
        w
    }

    /// A pinned application: its entry's name, icon, command and actions,
    /// with the windows it claimed.
    fn pinned_app_item(&self, id: &String, windows: Vec<Address>, p: usize) -> (r: DockItem)
        ensures
            r@ == pinned_app(self@, id@, addresses(windows@), p),
    {
        let entry = self.matcher.by_id(id.as_str());
        let label = match entry {
            Some(e) => e.name.clone(),
            None => id.clone(),
        };
        let icon = match entry {
            Some(e) => if e.icon.as_str().is_empty() {
                id.clone()
            } else {
                e.icon.clone()
            },
            None => id.clone(),
        };
        let exec_line = match entry {
            Some(e) => e.command(),
            None => String::new(),
        };
        let actions = match entry {
            Some(e) => clone_actions(&e.actions),
            None => Vec::new(),
        };
        proof {
            assert(actions_view(Seq::<Action>::empty()) =~= Seq::<ActionView>::empty());
        }
        let mut item = self.make_item(id.clone(), label, icon, windows, true, exec_line, actions);
        item.pin_index = Some(p);
        item
    }

    /// The pinned section, and which windows its applications claimed.
    fn pinned_items(&self, cfg: &Config) -> (r: (Vec<DockItem>, Vec<bool>))
        ensures
            (items_view(r.0@), r.1@) == pinned_section(self@, *cfg, cfg.items.pinned@.len()),
            r.1@.len() == self@.clients.len(),
    {
        let mut claimed: Vec<bool> = Vec::new();
        let mut k: usize = 0;
        while k < self.clients.len()
            invariant
                k <= self.clients@.len(),
                claimed@ == no_claims(k as nat),
            decreases self.clients.len() - k,
        {
            claimed.push(false);
            assert(claimed@ =~= no_claims((k + 1) as nat));
            k = k + 1;
        }
        let mut items: Vec<DockItem> = Vec::new();
        let pinned = &cfg.items.pinned;
        let mut p: usize = 0;
        assert(items_view(items@) =~= Seq::<ItemView>::empty());
        while p < pinned.len()
            invariant
                p <= pinned@.len(),
                pinned@ == cfg.items.pinned@,
                claimed@.len() == self@.clients.len(),
                (items_view(items@), claimed@) == pinned_section(self@, *cfg, p as nat),
            decreases pinned.len() - p,
        {
            let ghost before = items_view(items@);
            let id = &pinned[p];
            let t = trim_vec(&chars_of(id.as_str()));
            if seq_eq(&t, &chars_of(SEPARATOR)) {
                items.push(user_separator(p));
                assert(items_view(items@) =~= before.push(user_separator_view(p)));
            } else if starts_with_vec(&t, &chars_of(COMMAND_KEY)) {
                proof {
                    reveal_strlit("cmd:");
                }
                let want = slice_of(&t, 4, t.len());
                match find_command(&cfg.items.commands, &want) {
                    Some(k) => {
                        items.push(command_item(&cfg.items.commands[k], p));
                        assert(items_view(items@) =~= before.push(
                            command_view(cfg.items.commands@[k as int], p),
                        ));
                    },
                    None => {},
                }
            } else {
                let expected = self.matcher.expected_classes(id.as_str());
                let windows = self.claim_windows(&mut claimed, &expected);
                let item = self.pinned_app_item(id, windows, p);
                items.push(item);
                assert(items_view(items@) =~= before.push(item@));
            }
            p = p + 1;
        }
        (items, claimed)
    }
}

/// The first command tile configured under `id`.
fn find_command(commands: &Vec<CommandItem>, id: &Vec<char>) -> (r: Option<usize>)
    ensures
        match r {
            Some(k) => k < commands@.len() && first_where(
                commands@,
                |c: CommandItem| c.id@ == id@,
            ) == Some(k as int),
            None => first_where(commands@, |c: CommandItem| c.id@ == id@) is None,
        },
{
    let ghost p = |c: CommandItem| c.id@ == id@;
    let mut i: usize = 0;
    while i < commands.len()
        invariant
            i <= commands@.len(),
            p == (|c: CommandItem| c.id@ == id@),
            first_where(commands@.take(i as int), p) is None,
        decreases commands.len() - i,
    {
        assert(commands@.take(i + 1).drop_last() =~= commands@.take(i as int));
        if seq_eq(&chars_of(commands[i].id.as_str()), id) {
            proof {
                lemma_first_where_prefix(commands@, p, i + 1);
            }
            return Some(i);
        }
        i = i + 1;
    }
    assert(commands@.take(commands.len() as int) =~= commands@);
    None
}



/// A group of running windows under construction.
struct Group {
    key: String,
    label: String,
    icon: String,
    addrs: Vec<Address>,
    exec_line: String,
    actions: Vec<Action>,
}

impl View for Group {
    type V = GroupView;

    closed spec fn view(&self) -> GroupView {
        GroupView {
            key: self.key@,
            label: self.label@,
            icon: self.icon@,
            addrs: addresses(self.addrs@),
            exec_line: self.exec_line@,
            actions: actions_view(self.actions@),
        }
    }
}

spec fn groups_view(gs: Seq<Group>) -> Seq<GroupView> {
    gs.map_values(|g: Group| g@)
}


/// The first group keyed `key`.
fn find_group(groups: &Vec<Group>, key: &String) -> (r: Option<usize>)
    ensures
        match r {
            Some(k) => k < groups@.len() && first_where(groups_view(groups@), key_is(key@)) == Some(
                k as int,
            ),
            None => first_where(groups_view(groups@), key_is(key@)) is None,
        },
{
    let ghost gv = groups_view(groups@);
    let want = chars_of(key.as_str());
    let mut i: usize = 0;
    while i < groups.len()
        invariant
            i <= groups@.len(),
            gv == groups_view(groups@),
            want@ == key@,
            first_where(gv.take(i as int), key_is(key@)) is None,
        decreases groups.len() - i,
    {
        assert(gv.take(i + 1).drop_last() =~= gv.take(i as int));
        if seq_eq(&chars_of(groups[i].key.as_str()), &want) {
            proof {
                lemma_first_where_prefix(gv, key_is(key@), i + 1);
            }
            return Some(i);
        }
        i = i + 1;
    }
    assert(gv.take(groups.len() as int) =~= gv);
    None
}

impl DockState {
    /// The group a window would start: its entry's id, name and icon, or
    /// else its own class.
    fn new_group(&self, c: &Client) -> (r: Group)
        ensures
            r@ == group_of_client(self@, *c),
    {
        let entry = self.matcher.match_class(c.match_key());
        let key = match entry {
            Some(e) => e.id.clone(),
            None => string_of(&chars_of(c.match_key())),
        };
        let label = match entry {
            Some(e) => e.name.clone(),
            None => c.class.clone(),
        };
        let icon = match entry {
            Some(e) => if e.icon.as_str().is_empty() {
                c.class.clone()
            } else {
                e.icon.clone()
            },
            None => c.class.clone(),
        };
        let exec_line = match entry {
            Some(e) => e.command(),
            None => String::new(),
        };
        let actions = match entry {
            Some(e) => clone_actions(&e.actions),
            None => Vec::new(),
        };
        let mut addrs: Vec<Address> = Vec::new();
        addrs.push(c.address.clone());
        let g = Group { key, label, icon, addrs, exec_line, actions };
        assert(g@.addrs =~= seq![c.address@]);
        assert(g@.actions =~= group_of_client(self@, *c).actions);
        g
    }

    /// Windows no pinned item claimed, grouped by application in order of
    /// first appearance; stashed windows stay in the scratchpad.
    fn running_groups_exec(&self, claimed: &Vec<bool>) -> (r: Vec<Group>)
        requires
            claimed@.len() == self@.clients.len(),
        ensures
            groups_view(r@) == running_groups(self@, claimed@, self@.clients.len()),
    {
        let mut groups: Vec<Group> = Vec::new();
        let mut i: usize = 0;
        assert(groups_view(groups@) =~= Seq::<GroupView>::empty());
        while i < self.clients.len()
            invariant
                i <= self@.clients.len(),
                self@.clients == self.clients@,
                claimed@.len() == self@.clients.len(),
                groups_view(groups@) == running_groups(self@, claimed@, i as nat),
            decreases self.clients.len() - i,
        {
            let c = &self.clients[i];
            if !claimed[i] && !c.is_special() {
                let g = self.new_group(c);
                let ghost gv = groups_view(groups@);
                match find_group(&groups, &g.key) {
                    Some(k) => {
                        let ghost before = groups@;
                        let mut old_g = groups.remove(k);
                        let ghost prior = old_g.addrs@;
                        old_g.addrs.push(c.address.clone());
                        assert(addresses(old_g.addrs@) =~= addresses(prior).push(c.address@));
                        groups.insert(k, old_g);
                        assert(groups@ =~= before.update(k as int, old_g));
                        assert(groups_view(groups@) =~= gv.update(
                            k as int,
                            GroupView { addrs: gv[k as int].addrs.push(c.address@), ..gv[k as int] },
                        ));
                    },
                    None => {
                        groups.push(g);
                        assert(groups_view(groups@) =~= gv.push(group_of_client(self@, *c)));
                    },
                }
            }
            i = i + 1;
        }
        groups
    }

    /// The running-but-unpinned applications, one item per group.
    fn running_items(&self, claimed: &Vec<bool>) -> (r: Vec<DockItem>)
        requires
            claimed@.len() == self@.clients.len(),
        ensures
            items_view(r@) == group_items(self@, running_groups(self@, claimed@, self@.clients.len())),
    {
        let groups = self.running_groups_exec(claimed);
        let ghost gv = groups_view(groups@);
        let mut items: Vec<DockItem> = Vec::new();
        let mut i: usize = 0;
        while i < groups.len()
            invariant
                i <= groups@.len(),
                gv == groups_view(groups@),
                items_view(items@) == group_items(self@, gv.take(i as int)),
            decreases groups.len() - i,
        {
            let g = &groups[i];
            let item = self.make_item(
                g.key.clone(),
                g.label.clone(),
                g.icon.clone(),
                clone_addresses(&g.addrs),
                false,
                g.exec_line.clone(),
                clone_actions(&g.actions),
            );
            let ghost before = items_view(items@);
            items.push(item);
            assert(items_view(items@) =~= before.push(group_item(self@, gv[i as int])));
            assert(group_items(self@, gv.take(i + 1)) =~= group_items(self@, gv.take(i as int)).push(
                group_item(self@, gv[i as int]),
            ));
            i = i + 1;
        }
        assert(gv.take(groups.len() as int) =~= gv);
        items
    }
}


/// Glyph of the launcher button.
pub const GLYPH_LAUNCHER: &'static str = "\u{e900}";

fn launcher_item(cfg: &Config) -> (r: DockItem)
    ensures
        r@ == launcher_tile(*cfg),
{
    let mut item = blank_item(ItemKind::Launcher, string_of(&chars_of("__launcher")));
    item.label = string_of(&chars_of("Omarchy"));
    item.icon = cfg.launcher.icon.clone();
    item.pinned = true;
    item.exec_line = cfg.launcher_command();
    item.glyph = Some(string_of(&chars_of(GLYPH_LAUNCHER)));
    item
}

/// The home directory as `&str`, when there is one.
fn home_str(host: &Host) -> (r: Option<&str>)
    ensures
        match r {
            Some(h) => host.home is Some && h@ == host.home->0@,
            None => host.home is None,
        },
{
    match &host.home {
        Some(h) => Some(h.as_str()),
        None => None,
    }
}

fn folder_item(f: &Folder, host: &Host) -> (r: DockItem)
    ensures
        r@ == folder_tile(*f, *host),
{
    let home = home_str(host);
    let path = match home {
        Some(h) => expand_tilde(f.path.as_str(), h),
        None => expand_tilde(f.path.as_str(), "/"),
    };
    let key = concat(&chars_of("__folder:"), &chars_of(path.as_str()));
    let mut item = blank_item(ItemKind::Folder, string_of(&key));
    item.label = f.name.clone();
    item.icon = if f.icon.as_str().is_empty() {
        string_of(&chars_of("folder"))
    } else {
        f.icon.clone()
    };
    item.pinned = true;
    item.glyph = Some(string_of(&chars_of(folder_glyph(path.as_str(), home))));
    item.path = Some(path);
    item
}

fn trash_item(host: &Host) -> (r: DockItem)
    ensures
        r@ == trash_tile(*host),
{
    let mut item = blank_item(ItemKind::Trash, string_of(&chars_of("__trash")));
    item.label = string_of(&chars_of("Trash"));
    item.icon = if host.trash_empty {
        string_of(&chars_of("user-trash"))
    } else {
        string_of(&chars_of("user-trash-full"))
    };
    item.pinned = true;
    item.path = Some(host.trash_dir.clone());
    item.glyph = Some(
        if host.trash_empty {
            string_of(&chars_of("\u{f1f8}"))
        } else {
            string_of(&chars_of("\u{f014}"))
        },
    );
    item
}

/// Stacks and Trash.
fn tail_items(cfg: &Config, host: &Host) -> (r: Vec<DockItem>)
    ensures
        items_view(r@) == tail_section(*cfg, *host),
{
    let folders = &cfg.items.folders;
    let mut items: Vec<DockItem> = Vec::new();
    let mut i: usize = 0;
    assert(items_view(items@) =~= Seq::<ItemView>::empty());
    while i < folders.len()
        invariant
            i <= folders@.len(),
            folders@ == cfg.items.folders@,
            items_view(items@) == folder_tiles(folders@, *host, i as nat),
        decreases folders.len() - i,
    {
        if folders[i].enabled {
            let ghost before = items_view(items@);
            items.push(folder_item(&folders[i], host));
            assert(items_view(items@) =~= before.push(folder_tile(folders@[i as int], *host)));
        }
        i = i + 1;
    }
    let ghost stacks = items_view(items@);
    if cfg.items.show_trash {
        items.push(trash_item(host));
        assert(items_view(items@) =~= stacks + seq![trash_tile(*host)]);
    } else {
        assert(items_view(items@) =~= stacks + Seq::<ItemView>::empty());
    }
    items
}

/// `out` followed by `more`.
fn append_items(out: &mut Vec<DockItem>, more: Vec<DockItem>)
    ensures
        items_view(final(out)@) == items_view(old(out)@) + items_view(more@),
{
    let mut more = more;
    let ghost m = more@;
    out.append(&mut more);
    assert(items_view(out@) =~= items_view(old(out)@) + items_view(m));
}

/// A divider, when `b`.
fn push_divider_if(out: &mut Vec<DockItem>, b: bool)
    ensures
        items_view(final(out)@) == items_view(old(out)@) + divider_if(b),
{
    if b {
        out.push(separator());
        assert(items_view(out@) =~= items_view(old(out)@) + seq![separator_view()]);
    } else {
        assert(items_view(out@) =~= items_view(old(out)@) + Seq::<ItemView>::empty());
    }
}

/// Collapse each run of dividers into its first.
fn dedup_items(v: Vec<DockItem>) -> (r: Vec<DockItem>)
    ensures
        items_view(r@) == dedup_dividers(items_view(v@)),
{
    let ghost vv = items_view(v@);
    let mut out: Vec<DockItem> = Vec::new();
    let mut i: usize = 0;
    assert(vv.take(0) =~= Seq::<ItemView>::empty());
    while i < v.len()
        invariant
            i <= v@.len(),
            vv == items_view(v@),
            items_view(out@) == dedup_dividers(vv.take(i as int)),
        decreases v.len() - i,
    {
        assert(vv.take(i + 1).drop_last() =~= vv.take(i as int));
        let sep = v[i].kind == ItemKind::Separator;
        let last_sep = out.len() > 0 && out[out.len() - 1].kind == ItemKind::Separator;
        if !(sep && last_sep) {
            let ghost before = items_view(out@);
            out.push(v[i].clone());
            assert(items_view(out@) =~= before.push(vv[i as int]));
        }
        i = i + 1;
    }
    assert(vv.take(v.len() as int) =~= vv);
    out
}

/// Without dividers at either end (a lone item is left as it is).
fn trim_dividers(v: Vec<DockItem>) -> (r: Vec<DockItem>)
    ensures
        items_view(r@) == drop_trailing_dividers(drop_leading_dividers(items_view(v@))),
{
    let ghost orig = items_view(v@);
    let mut v = v;
    while v.len() > 0 && v[0].kind == ItemKind::Separator
        invariant
            drop_leading_dividers(items_view(v@)) == drop_leading_dividers(orig),
        decreases v.len(),
    {
        let ghost before = items_view(v@);
        v.remove(0);
        assert(items_view(v@) =~= before.drop_first());
    }
    let ghost lead = items_view(v@);
    while v.len() > 1 && v[v.len() - 1].kind == ItemKind::Separator
        invariant
            drop_trailing_dividers(items_view(v@)) == drop_trailing_dividers(lead),
        decreases v.len(),
    {
        let ghost before = items_view(v@);
        v.pop();
        assert(items_view(v@) =~= before.drop_last());
    }
    v
}

impl DockState {
    /// The ordered item list for the dock: launcher, workspace strip,
    /// pinned items, running applications, then stacks and Trash, with a
    /// divider between two sections only where both sides hold something.
    pub fn items(&self, cfg: &Config, host: &Host) -> (r: Vec<DockItem>)
        ensures
            items_view(r@) == layout(self@, *cfg, *host),
    {
        let mut head: Vec<DockItem> = Vec::new();
        if cfg.launcher.enabled {
            head.push(launcher_item(cfg));
        }
        assert(items_view(head@) =~= (if cfg.launcher.enabled {
            seq![launcher_tile(*cfg)]
        } else {
            Seq::<ItemView>::empty()
        }));
        let strip = self.workspace_items(cfg);
        let (pinned, claimed) = self.pinned_items(cfg);
        let running = if cfg.items.show_running {
            self.running_items(&claimed)
        } else {
            Vec::new()
        };
        assert(cfg.items.show_running || items_view(running@) =~= Seq::<ItemView>::empty());
        let tail = tail_items(cfg, host);
        let (nh, nw, np, nr, nt) = (head.len(), strip.len(), pinned.len(), running.len(), tail.len());
        let s1 = nw > 0 && nh > 0;
        let s2 = nw > 0 && (np > 0 || nr > 0);
        let s3 = nr > 0 && (nh > 0 || s1 || nw > 0 || np > 0);
        let mut out = head;
        push_divider_if(&mut out, s1);
        append_items(&mut out, strip);
        push_divider_if(&mut out, s2);
        append_items(&mut out, pinned);
        push_divider_if(&mut out, s3);
        append_items(&mut out, running);
        let s4 = nt > 0 && out.len() > 0;
        push_divider_if(&mut out, s4);
        append_items(&mut out, tail);
        trim_dividers(dedup_items(out))
    }
}


/// What the application does after a Hyprland event: draw the dock again
/// from the new state, and ask for a fresh snapshot of windows, workspaces
/// and monitors.
#[derive(Debug, Clone, Copy, PartialEq, Eq, Structural)]
pub struct Reaction {
    pub redraw: bool,
    pub resync: bool,
}

/// One event folded into the state, and the reaction to it.
///
/// Deltas are applied locally rather than re-querying, so a busy desktop
/// costs no round-trips. `OpenWindow` is the exception: the event carries
/// less than a snapshot (no workspace id, geometry or pid), so a snapshot is
/// asked for instead of inventing a partial window. Focus drives both the
/// active indicator and intelligent hiding, so it redraws and resyncs;
/// titles only show in tooltips, so a retitle redraws nothing.
pub open spec fn after_event(s: StateView, e: HyprEvent) -> (StateView, Reaction) {
    match e {
        HyprEvent::OpenWindow { .. } | HyprEvent::Reconnected => (
            s,
            Reaction { redraw: false, resync: true },
        ),
        HyprEvent::CloseWindow(a) => (without_window(s, a@), Reaction { redraw: true, resync: false }),
        HyprEvent::ActiveWindowAddr(a) => (
            focused_on(s, opt_addr(a)),
            Reaction { redraw: true, resync: true },
        ),
        HyprEvent::Urgent(a) => (with_urgent(s, a@), Reaction { redraw: true, resync: false }),
        HyprEvent::Fullscreen(_) => (s, Reaction { redraw: false, resync: true }),
        HyprEvent::WindowTitle { addr, title } => (
            retitled(s, addr@, title),
            Reaction { redraw: false, resync: false },
        ),
        HyprEvent::MoveWindow { .. } | HyprEvent::ActiveSpecial { .. } | HyprEvent::Workspace { .. }
        | HyprEvent::CreateWorkspace { .. } | HyprEvent::DestroyWorkspace { .. } => (
            s,
            Reaction { redraw: false, resync: true },
        ),
        _ => (s, Reaction { redraw: false, resync: false }),
    }
}

/// Events whose effect on the dock the event itself does not carry: a
/// window opening (the event lacks the window's workspace id, geometry and
/// pid), a reconnection, fullscreen, a window moving, the special workspace
/// toggling, and workspaces changing. The dock asks for a fresh snapshot
/// rather than guess.
pub open spec fn needs_snapshot(e: HyprEvent) -> bool {
    ||| e is OpenWindow
    ||| e is Reconnected
    ||| e is Fullscreen
    ||| e is MoveWindow
    ||| e is ActiveSpecial
    ||| e is Workspace
    ||| e is CreateWorkspace
    ||| e is DestroyWorkspace
}

/// What each event asks for. An event that does not carry its own effect
/// (a window opening among them) leaves the state as it was and asks for a
/// fresh snapshot, without a redraw until that arrives; focus moving is
/// applied and redrawn, and also resynced, since the focused window's
/// geometry drives hiding; a window closing or asking for attention is
/// applied and redrawn locally; a new title is applied without either,
/// titles showing only in tooltips.
pub proof fn lemma_event_reactions(s: StateView, e: HyprEvent)
    ensures
        needs_snapshot(e) ==> after_event(s, e).1.resync && !after_event(s, e).1.redraw
            && after_event(s, e).0 == s,
        e is ActiveWindowAddr ==> after_event(s, e).1.resync && after_event(s, e).1.redraw,
        (e is CloseWindow || e is Urgent) ==> after_event(s, e).1.redraw && !after_event(
            s,
            e,
        ).1.resync,
        e is WindowTitle ==> !after_event(s, e).1.redraw && !after_event(s, e).1.resync,
{
}

/// What the events the dock folds in locally do: a closed window is gone
/// from the clients, the focus and the attention list; focus moves to the
/// window named, which stops asking for attention; a window that asks for
/// attention and is not focused is marked.
pub proof fn lemma_event_effects(s: StateView, e: HyprEvent)
    ensures
        e matches HyprEvent::CloseWindow(a) ==> forall|k: int|
            0 <= k < after_event(s, e).0.clients.len() ==> (#[trigger] after_event(
                s,
                e,
            ).0.clients[k]).address@ != a@,
        e matches HyprEvent::CloseWindow(a) ==> after_event(s, e).0.focused != Some(a@),
        e matches HyprEvent::CloseWindow(a) ==> !after_event(s, e).0.urgent.contains(a@),
        e matches HyprEvent::ActiveWindowAddr(a) ==> after_event(s, e).0.focused == opt_addr(a),
        e matches HyprEvent::ActiveWindowAddr(a) ==> (opt_addr(a) matches Some(x)
            ==> !after_event(s, e).0.urgent.contains(x)),
        e matches HyprEvent::Urgent(a) ==> (s.focused != Some(a@) ==> after_event(
            s,
            e,
        ).0.urgent.contains(a@)),
{
    match e {
        HyprEvent::CloseWindow(a) => {
            let t = after_event(s, e).0;
            assert forall|k: int| 0 <= k < t.clients.len() implies (#[trigger] t.clients[k]).address@
                != a@ by {
                assert(t.clients.contains(t.clients[k]));
                lemma_keep_subset(s.clients, not_at(a@), t.clients[k]);
            }
            lemma_keep_subset(s.urgent, other_than(a@), a@);
            assert(t.focused != Some(a@));
            assert(!t.urgent.contains(a@));
        },
        HyprEvent::ActiveWindowAddr(a) => {
            if let Some(x) = opt_addr(a) {
                lemma_keep_subset(s.urgent, other_than(x), x);
            }
        },
        HyprEvent::Urgent(a) => {
            let u = after_event(s, e).0.urgent;
            if s.focused != Some(a@) && !s.urgent.contains(a@) {
                assert(u[u.len() - 1] == a@);
            }
        },
        _ => {},
    }
}

impl DockState {
    /// Fold one Hyprland event into the state, and say what follows from it.
    pub fn apply_event(&mut self, event: HyprEvent) -> (r: Reaction)
        ensures
            (final(self)@, r) == after_event(old(self)@, event),
            needs_snapshot(event) ==> r.resync && !r.redraw && final(self)@ == old(self)@,
            event is ActiveWindowAddr ==> r.resync && r.redraw,
            (event is CloseWindow || event is Urgent) ==> r.redraw && !r.resync,
            event is WindowTitle ==> !r.redraw && !r.resync,
    {
        match event {
            HyprEvent::OpenWindow { .. } | HyprEvent::Reconnected => Reaction {
                redraw: false,
                resync: true,
            },
            HyprEvent::CloseWindow(a) => {
                self.remove_client(&a);
                Reaction { redraw: true, resync: false }
            },
            HyprEvent::ActiveWindowAddr(a) => {
                self.set_focused(a);
                Reaction { redraw: true, resync: true }
            },
            HyprEvent::Urgent(a) => {
                self.set_urgent(a);
                Reaction { redraw: true, resync: false }
            },
            HyprEvent::Fullscreen(_) => Reaction { redraw: false, resync: true },
            HyprEvent::WindowTitle { addr, title } => {
                self.set_title(&addr, title);
                Reaction { redraw: false, resync: false }
            },
            HyprEvent::MoveWindow { .. } | HyprEvent::ActiveSpecial { .. } | HyprEvent::Workspace {
                ..
            } | HyprEvent::CreateWorkspace { .. } | HyprEvent::DestroyWorkspace { .. } => Reaction {
                redraw: false,
                resync: true,
            },
            _ => Reaction { redraw: false, resync: false },
        }
    }
}


/// The focused window is never marked urgent, and no window is marked
/// urgent twice.
pub open spec fn attention_consistent(s: StateView) -> bool {
    &&& (s.focused matches Some(f) ==> !s.urgent.contains(f))
    &&& s.urgent.no_duplicates()
}

/// Every Hyprland event keeps attention consistent: the focused window
/// never needs attention, focusing a window clears its request, and a window
/// asks for attention at most once.
pub proof fn lemma_events_keep_attention_consistent(s: StateView, e: HyprEvent)
    requires
        attention_consistent(s),
    ensures
        attention_consistent(after_event(s, e).0),
{
    match e {
        HyprEvent::CloseWindow(a) => {
            lemma_keep_no_duplicates(s.urgent, other_than(a@));
            if let Some(f) = s.focused {
                lemma_keep_subset(s.urgent, other_than(a@), f);
            }
        },
        HyprEvent::ActiveWindowAddr(a) => {
            if let Some(x) = a {
                lemma_keep_no_duplicates(s.urgent, other_than(x@));
                lemma_keep_subset(s.urgent, other_than(x@), x@);
            }
        },
        HyprEvent::Urgent(a) => {
            let u = s.urgent;
            if s.focused != Some(a@) && !u.contains(a@) {
                assert forall|i: int, j: int| 0 <= i < u.push(a@).len() && 0 <= j < u.push(a@).len() && i != j implies u.push(a@)[i] != u.push(a@)[j] by {
                    if i < u.len() && j < u.len() {
                    } else if i < u.len() {
                        assert(u.contains(u[i]));
                    } else if j < u.len() {
                        assert(u.contains(u[j]));
                    }
                }
                if let Some(f) = s.focused {
                    if u.push(a@).contains(f) {
                        let k = choose|k: int| 0 <= k < u.push(a@).len() && u.push(a@)[k] == f;
                        if k < u.len() {
                            assert(u.contains(f));
                        }
                    }
                }
            }
        },
        _ => {},
    }
}

/// A fresh snapshot of windows keeps attention consistent too: it only
/// forgets the urgency of windows that are gone.
pub proof fn lemma_snapshot_keeps_attention_consistent(s: StateView, clients: Seq<Client>)
    requires
        attention_consistent(s),
    ensures
        attention_consistent(with_clients(s, clients)),
{
    lemma_keep_no_duplicates(s.urgent, window_of(clients));
    if let Some(f) = s.focused {
        lemma_keep_subset(s.urgent, window_of(clients), f);
    }
}

} // verus!
