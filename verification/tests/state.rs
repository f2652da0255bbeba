use omarchy_dock::config::Config;
use omarchy_dock::hypr::events::HyprEvent;
use omarchy_dock::hypr::model::{Client, Monitor, Workspace, WorkspaceRef};
use omarchy_dock::hypr::Address;
use omarchy_dock::state::dock::Reaction;
use omarchy_dock::state::{
    match_key, match_permutation, move_in_list, reorder_in_list, separator, separator_pin_index,
    user_separator, workspace_of, DockItem, DockState, Host, ItemKind, SEPARATOR,
};

fn item(windows: &[&str], active: Option<&str>) -> DockItem {
    DockItem {
        kind: ItemKind::App,
        key: "k".into(),
        label: "k".into(),
        icon: "k".into(),
        windows: windows.iter().map(|w| Address::parse(w)).collect(),
        pinned: true,
        active: active.is_some(),
        urgent: false,
        scratchpad: false,
        active_window: active.map(Address::parse),
        exec_line: String::new(),
        actions: vec![],
        path: None,
        pin_index: None,
        glyph: None,
    }
}

#[test]
fn repeated_clicks_cycle_and_wrap() {
    let i = item(&["a", "b", "c"], Some("a"));
    assert_eq!(i.click_target(), Some(&Address::parse("b")));
    let i = item(&["a", "b", "c"], Some("c"));
    // Wraps back to the first rather than stopping at the end.
    assert_eq!(i.click_target(), Some(&Address::parse("a")));
}

#[test]
fn clicking_from_elsewhere_jumps_to_the_first_window() {
    let i = item(&["a", "b", "c"], None);
    assert_eq!(i.click_target(), Some(&Address::parse("a")));
}

#[test]
fn single_window_click_is_idempotent() {
    // Focusing the only window again must not wrap to nothing.
    let i = item(&["a"], Some("a"));
    assert_eq!(i.click_target(), Some(&Address::parse("a")));
}

#[test]
fn nothing_running_has_no_target_so_the_caller_launches() {
    assert_eq!(item(&[], None).click_target(), None);
}

#[test]
fn stale_focus_falls_back_to_the_first_window() {
    // Focus can name a window that closed between events.
    let i = item(&["a", "b"], Some("zz"));
    assert_eq!(i.click_target(), Some(&Address::parse("a")));
}

fn focus_client(addr: &str) -> Client {
    Client {
        address: Address::parse(addr),
        class: "x".into(),
        title: "x".into(),
        initial_class: "x".into(),
        workspace: WorkspaceRef { id: 1, name: "1".into() },
        monitor: 0,
        pid: 1,
        floating: false,
        hidden: false,
        mapped: true,
        fullscreen: 0,
        at: (0, 0),
        size: (100, 100),
        focus_history_id: 0,
    }
}

#[test]
fn an_empty_workspace_really_clears_focus() {
    let mut s = DockState::new(vec![]);
    s.set_clients(vec![focus_client("a")]);
    s.set_focused(Some(Address::parse("a")));
    assert!(s.focused_client().is_some());

    // Snapshot arrives while nothing is focused.
    s.set_clients(vec![focus_client("a")]);
    s.set_focused(None);
    assert!(s.focused_client().is_none());
}

fn cfg(pinned: &[&str]) -> Config {
    let mut c = Config::default();
    c.items.pinned = pinned.iter().map(|s| s.to_string()).collect();
    c.items.show_trash = false;
    c.launcher.enabled = false;
    c
}

fn host() -> Host {
    Host { home: Some("/home/u".into()), trash_dir: "/home/u/.local/share/Trash/files".into(), trash_empty: true }
}

fn client(class: &str) -> Client {
    Client {
        address: Address::parse(class),
        class: class.into(),
        title: class.into(),
        initial_class: class.into(),
        workspace: WorkspaceRef { id: 1, name: "1".into() },
        monitor: 0,
        pid: 1,
        floating: false,
        hidden: false,
        mapped: true,
        fullscreen: 0,
        at: (0, 0),
        size: (10, 10),
        focus_history_id: 1,
    }
}

fn kinds(items: &[DockItem]) -> Vec<ItemKind> {
    items.iter().map(|i| i.kind).collect()
}

#[test]
fn running_apps_are_fenced_off_from_pinned_ones() {
    let mut s = DockState::new(vec![]);
    s.set_clients(vec![client("stranger")]);
    let items = s.items(&cfg(&["pinned-app"]), &host());
    assert_eq!(kinds(&items), vec![ItemKind::App, ItemKind::Separator, ItemKind::App]);
}

#[test]
fn no_divider_when_there_is_nothing_to_divide() {
    let s = DockState::new(vec![]);
    // Pinned only: nothing running, so no trailing divider.
    assert_eq!(kinds(&s.items(&cfg(&["a", "b"]), &host())), vec![ItemKind::App; 2]);

    // Running only: no pinned section, so no leading divider.
    let mut s2 = DockState::new(vec![]);
    s2.set_clients(vec![client("x")]);
    assert_eq!(kinds(&s2.items(&cfg(&[]), &host())), vec![ItemKind::App]);
}

#[test]
fn user_separators_are_placed_but_never_left_dangling() {
    let s = DockState::new(vec![]);
    let items = s.items(&cfg(&["a", SEPARATOR, "b"]), &host());
    assert_eq!(kinds(&items), vec![ItemKind::App, ItemKind::Separator, ItemKind::App]);

    // A separator at either end divides nothing and is dropped.
    let items = s.items(&cfg(&[SEPARATOR, "a", SEPARATOR]), &host());
    assert_eq!(kinds(&items), vec![ItemKind::App]);
}

#[test]
fn launcher_leads_and_trash_trails_behind_a_divider() {
    let mut c = cfg(&["a"]);
    c.launcher.enabled = true;
    c.items.show_trash = true;
    let s = DockState::new(vec![]);
    assert_eq!(
        kinds(&s.items(&c, &host())),
        vec![ItemKind::Launcher, ItemKind::App, ItemKind::Separator, ItemKind::Trash]
    );
}

#[test]
fn adjacent_dividers_collapse_into_one() {
    let mut s = DockState::new(vec![]);
    s.set_clients(vec![client("stranger")]);
    // A trailing user separator lands exactly where the automatic divider
    // before the running section goes.
    let items = s.items(&cfg(&["a", SEPARATOR]), &host());
    assert_eq!(
        kinds(&items),
        vec![ItemKind::App, ItemKind::Separator, ItemKind::App],
        "expected one divider, not two"
    );
}

#[test]
fn a_dock_of_only_separators_collapses_rather_than_looping() {
    let s = DockState::new(vec![]);
    let items = s.items(&cfg(&[SEPARATOR, SEPARATOR]), &host());
    assert!(items.len() <= 1, "got {:?}", kinds(&items));
}

fn ws(id: i32, name: &str) -> Workspace {
    Workspace { id, name: name.into(), monitor: "eDP-1".into(), monitor_id: 0, windows: 0 }
}

fn ws_client(addr: &str, ws_id: i32, ws_name: &str) -> Client {
    Client {
        address: Address::parse(addr),
        class: "app".into(),
        initial_class: "app".into(),
        title: "t".into(),
        workspace: WorkspaceRef { id: ws_id, name: ws_name.into() },
        monitor: 0,
        pid: 1,
        floating: false,
        hidden: false,
        mapped: true,
        fullscreen: 0,
        at: (0, 0),
        size: (100, 100),
        focus_history_id: 0,
    }
}

fn monitor(active: i32) -> Monitor {
    Monitor {
        id: 0,
        name: "eDP-1".into(),
        width: 1920,
        height: 1080,
        x: 0,
        y: 0,
        focused: true,
        active_workspace: WorkspaceRef { id: active, name: active.to_string() },
        special_workspace: None,
    }
}

fn state(clients: Vec<Client>, workspaces: Vec<Workspace>, active: i32) -> DockState {
    let mut s = DockState::new(Vec::new());
    s.set_clients(clients);
    s.set_workspaces(workspaces);
    s.set_monitors(vec![monitor(active)]);
    s
}

fn ws_cfg(enabled: bool, show_empty: bool) -> Config {
    let mut c = Config::default();
    c.workspaces.enabled = enabled;
    c.workspaces.show_empty = show_empty;
    c
}

#[test]
fn workspace_tiles_carry_the_windows_on_them() {
    let s = state(
        vec![ws_client("0x1", 1, "1"), ws_client("0x2", 2, "2"), ws_client("0x3", 2, "2")],
        vec![ws(1, "1"), ws(2, "2")],
        1,
    );
    let items = s.workspace_items(&ws_cfg(true, true));
    assert_eq!(items.len(), 2);
    assert_eq!(items[0].windows.len(), 1);
    assert_eq!(items[1].windows.len(), 2);
    // The one you are on is the active one.
    assert!(items[0].active);
    assert!(!items[1].active);
}

#[test]
fn tiles_are_ordered_by_id_not_by_creation() {
    let s = state(vec![], vec![ws(3, "3"), ws(1, "1"), ws(2, "2")], 1);
    let items = s.workspace_items(&ws_cfg(true, true));
    let labels: Vec<&str> = items.iter().map(|i| i.label.as_str()).collect();
    assert_eq!(labels, ["1", "2", "3"]);
}

#[test]
fn empty_workspaces_can_be_hidden_but_the_current_one_never_is() {
    let s = state(vec![ws_client("0x1", 2, "2")], vec![ws(1, "1"), ws(2, "2"), ws(3, "3")], 1);
    let items = s.workspace_items(&ws_cfg(true, false));
    let labels: Vec<&str> = items.iter().map(|i| i.label.as_str()).collect();
    // 2 has a window; 1 is empty but current; 3 is empty and elsewhere.
    assert_eq!(labels, ["1", "2"]);
}

#[test]
fn special_workspaces_never_get_a_tile_of_their_own() {
    let s = state(vec![], vec![ws(1, "1"), ws(-99, "special:scratchpad")], 1);
    let items = s.workspace_items(&ws_cfg(true, true));
    assert_eq!(items.len(), 1);
    assert_eq!(items[0].label, "1");
}

#[test]
fn the_scratchpad_tile_counts_what_is_stashed_in_it() {
    let mut c = ws_cfg(false, true);
    c.workspaces.scratchpad = true;
    let s = state(
        vec![ws_client("0x1", 1, "1"), ws_client("0x2", -99, "special:scratchpad")],
        vec![ws(1, "1")],
        1,
    );
    let items = s.workspace_items(&c);
    assert_eq!(items.len(), 1, "no workspace strip, just the scratchpad");
    assert_eq!(items[0].kind, ItemKind::Scratchpad);
    assert_eq!(items[0].windows.len(), 1);
}

#[test]
fn a_workspace_tile_has_no_running_dot() {
    let s = state(vec![ws_client("0x1", 1, "1")], vec![ws(1, "1")], 1);
    let items = s.workspace_items(&ws_cfg(true, true));
    assert!(items[0].running());
    assert!(!items[0].shows_indicator());
}

#[test]
fn a_tile_key_round_trips_to_its_workspace_name() {
    let s = state(vec![], vec![ws(1, "1"), ws(9, "code")], 1);
    let items = s.workspace_items(&ws_cfg(true, true));
    assert_eq!(workspace_of(&items[0].key), Some("1"));
    // Named workspaces work too — Hyprland's focus dispatcher takes names.
    assert_eq!(workspace_of(&items[1].key), Some("code"));
    assert_eq!(workspace_of("chromium"), None);
}

#[test]
fn fullscreen_counts_only_on_a_visible_workspace() {
    let mut full = ws_client("0x1", 2, "2");
    full.fullscreen = 2;

    // Fullscreen on workspace 2 while looking at workspace 1: nothing is
    // covering the dock, so it must not hide.
    let s = state(vec![full.clone()], vec![ws(1, "1"), ws(2, "2")], 1);
    assert!(!s.has_fullscreen());

    // Same window, now the workspace you are on.
    let s = state(vec![full], vec![ws(1, "1"), ws(2, "2")], 2);
    assert!(s.has_fullscreen());
}

#[test]
fn reordering_inserts_rather_than_swapping() {
    let mut v = vec!["a", "b", "c", "d"];
    // Drag "a" to sit before "d".
    assert!(reorder_in_list(&mut v, 0, 3));
    assert_eq!(v, vec!["b", "c", "a", "d"]);

    // Drag "d" to the front.
    let mut v = vec!["a", "b", "c", "d"];
    assert!(reorder_in_list(&mut v, 3, 0));
    assert_eq!(v, vec!["d", "a", "b", "c"]);

    // Dropping onto itself changes nothing.
    let mut v = vec!["a", "b"];
    assert!(!reorder_in_list(&mut v, 1, 1));
    assert_eq!(v, vec!["a", "b"]);

    // Past the end clamps instead of panicking.
    let mut v = vec!["a", "b"];
    assert!(reorder_in_list(&mut v, 0, 2));
    assert_eq!(v, vec!["b", "a"]);
}

#[test]
fn moving_clamps_at_the_ends_instead_of_wrapping() {
    let mut v = vec!["a", "b", "c"];
    assert!(move_in_list(&mut v, 0, 1));
    assert_eq!(v, vec!["b", "a", "c"]);

    // Already at the left end: no move, and no wrap to the far end.
    let mut v = vec!["a", "b", "c"];
    assert!(!move_in_list(&mut v, 0, -1));
    assert_eq!(v, vec!["a", "b", "c"]);

    // Same at the right end.
    let mut v = vec!["a", "b", "c"];
    assert!(!move_in_list(&mut v, 2, 1));
    assert_eq!(v, vec!["a", "b", "c"]);

    // Out of range is a no-op rather than a panic.
    let mut v = vec!["a"];
    assert!(!move_in_list(&mut v, 9, 1));
}

#[test]
fn only_user_placed_separators_carry_an_editable_index() {
    assert_eq!(separator_pin_index("---:3"), Some(3));
    assert_eq!(separator_pin_index("---:0"), Some(0));
    // Automatic dividers are derived, so they are not editable.
    assert_eq!(separator_pin_index("---"), None);
    assert_eq!(separator_pin_index("chromium"), None);
}

/// A pinned app, as `items()` would produce it.
fn app(key: &str, pin: usize) -> DockItem {
    DockItem {
        kind: ItemKind::App,
        key: key.into(),
        label: key.into(),
        icon: key.into(),
        windows: Vec::new(),
        pinned: true,
        active: false,
        urgent: false,
        scratchpad: false,
        active_window: None,
        exec_line: String::new(),
        actions: Vec::new(),
        path: None,
        pin_index: Some(pin),
        glyph: None,
    }
}

#[test]
fn a_moved_separator_is_still_matched_to_its_own_widget() {
    let old = vec![app("a", 0), user_separator(1), app("b", 2)];
    let new = vec![user_separator(0), app("a", 1), app("b", 2)];
    assert_eq!(match_permutation(&old, &new), Some(vec![1, 0, 2]));
}

#[test]
fn each_separator_claims_a_distinct_slot() {
    let old = vec![app("a", 0), user_separator(1), user_separator(2), separator(), app("b", 3)];
    let new = vec![user_separator(0), app("a", 1), user_separator(2), separator(), app("b", 3)];
    let from = match_permutation(&old, &new).expect("still a permutation");
    assert_eq!(from, vec![1, 0, 2, 3, 4]);

    let mut seen = from.clone();
    seen.sort_unstable();
    seen.dedup();
    assert_eq!(seen.len(), from.len(), "no old slot may be claimed twice");
}

#[test]
fn a_user_separator_never_matches_an_automatic_divider() {
    let old = vec![app("a", 0), user_separator(1)];
    let new = vec![app("a", 0), separator()];
    assert_eq!(match_permutation(&old, &new), None);
}

#[test]
fn a_changed_item_set_falls_back_to_a_rebuild() {
    let old = vec![app("a", 0), app("b", 1)];
    let new = vec![app("a", 0), app("c", 1)];
    assert_eq!(match_permutation(&old, &new), None);

    // A different length is never a permutation either.
    let new = vec![app("a", 0)];
    assert_eq!(match_permutation(&old, &new), None);
}

#[test]
fn the_permutation_maps_new_positions_back_to_old_ones() {
    let old = vec![app("a", 0), app("b", 1), app("c", 2)];
    let new = vec![app("c", 0), app("a", 1), app("b", 2)];
    let from = match_permutation(&old, &new).expect("a permutation");
    assert_eq!(from, vec![2, 0, 1]);

    // Reading old through `from` must reproduce new.
    let rebuilt: Vec<&str> = from.iter().map(|&i| old[i].key.as_str()).collect();
    let want: Vec<&str> = new.iter().map(|i| i.key.as_str()).collect();
    assert_eq!(rebuilt, want);
}

#[test]
fn separators_share_one_match_key() {
    assert_eq!(match_key(&user_separator(4)), match_key(&user_separator(0)));
    assert_ne!(match_key(&user_separator(4)), match_key(&separator()));
    assert_eq!(match_key(&app("a", 0)), "a");
}

#[test]
fn a_pinned_app_claims_its_windows_before_the_running_section() {
    let mut s = DockState::new(vec![]);
    s.set_clients(vec![client("kitty"), client("stranger"), client("Kitty")]);
    s.set_focused(Some(Address::parse("kitty")));
    let items = s.items(&cfg(&["kitty"]), &host());
    assert_eq!(kinds(&items), vec![ItemKind::App, ItemKind::Separator, ItemKind::App]);
    // Case-insensitive class matching claims both kitty windows.
    assert_eq!(items[0].windows.len(), 2);
    assert!(items[0].active);
    assert_eq!(items[0].pin_index, Some(0));
    assert_eq!(items[2].key, "stranger");
    assert_eq!(items[2].windows.len(), 1);
}

#[test]
fn events_update_the_state_and_say_what_follows() {
    let mut s = DockState::new(vec![]);
    s.set_clients(vec![client("a"), client("b")]);
    assert_eq!(
        s.apply_event(HyprEvent::Urgent(Address::parse("b"))),
        Reaction { redraw: true, resync: false }
    );
    assert_eq!(
        s.apply_event(HyprEvent::ActiveWindowAddr(Some(Address::parse("b")))),
        Reaction { redraw: true, resync: true }
    );
    assert_eq!(s.focused_client().map(|c| c.class.as_str()), Some("b"));
    assert_eq!(
        s.apply_event(HyprEvent::CloseWindow(Address::parse("b"))),
        Reaction { redraw: true, resync: false }
    );
    assert!(s.focused_client().is_none());
    assert_eq!(s.clients().len(), 1);
    assert_eq!(
        s.apply_event(HyprEvent::WindowTitle { addr: Address::parse("a"), title: "new".into() }),
        Reaction { redraw: false, resync: false }
    );
    assert_eq!(s.clients()[0].title, "new");
    assert_eq!(s.apply_event(HyprEvent::Reconnected), Reaction { redraw: false, resync: true });
    assert_eq!(s.apply_event(HyprEvent::MonitorAdded("x".into())), Reaction { redraw: false, resync: false });
}

#[test]
fn folders_and_trash_form_the_tail() {
    let mut c = cfg(&["a"]);
    c.items.show_trash = true;
    c.items.folders = vec![
        omarchy_dock::config::Folder { path: "~/Downloads".into(), name: "Downloads".into(), icon: String::new(), enabled: true },
        omarchy_dock::config::Folder { path: "/srv".into(), name: "Srv".into(), icon: "x".into(), enabled: false },
    ];
    let h = Host { home: Some("/home/u".into()), trash_dir: "/t/files".into(), trash_empty: false };
    let items = DockState::new(vec![]).items(&c, &h);
    assert_eq!(kinds(&items), vec![ItemKind::App, ItemKind::Separator, ItemKind::Folder, ItemKind::Trash]);
    assert_eq!(items[2].key, "__folder:/home/u/Downloads");
    assert_eq!(items[2].path.as_deref(), Some("/home/u/Downloads"));
    assert_eq!(items[2].icon, "folder");
    assert_eq!(items[2].glyph.as_deref(), Some("\u{f019}"));
    assert_eq!(items[3].icon, "user-trash-full");
    assert_eq!(items[3].path.as_deref(), Some("/t/files"));
}

#[test]
fn no_window_is_shown_by_two_application_icons() {
    let mut s = DockState::new(vec![]);
    let mut second = ws_client("0xb2", 1, "1");
    second.class = "other".into();
    second.initial_class = "other".into();
    s.set_clients(vec![ws_client("0xa1", 1, "1"), second, ws_client("0xa3", 2, "2")]);
    // The same app pinned twice: the first slot claims every window.
    let items = s.items(&cfg(&["app", "app"]), &host());
    assert_eq!(kinds(&items), vec![ItemKind::App, ItemKind::App, ItemKind::Separator, ItemKind::App]);
    assert_eq!(items[0].windows, vec![Address::parse("a1"), Address::parse("a3")]);
    assert!(items[1].windows.is_empty());
    assert_eq!(items[3].key, "other");
    assert_eq!(items[3].windows, vec![Address::parse("b2")]);
}

#[test]
fn adding_a_window_again_replaces_it_and_events_keep_one_per_address() {
    let mut s = DockState::new(vec![]);
    s.set_clients(vec![ws_client("0xa1", 1, "1"), ws_client("0xa2", 1, "1")]);
    let mut again = ws_client("0xa1", 2, "2");
    again.title = "moved".into();
    s.add_client(again);
    let addrs: Vec<String> = s.clients().iter().map(|c| c.address.0.clone()).collect();
    assert_eq!(addrs, vec!["a2", "a1"]);
    assert_eq!(s.clients()[1].title, "moved");
    s.apply_event(HyprEvent::WindowTitle { addr: Address::parse("a2"), title: "x".into() });
    s.apply_event(HyprEvent::CloseWindow(Address::parse("a1")));
    let addrs: Vec<String> = s.clients().iter().map(|c| c.address.0.clone()).collect();
    assert_eq!(addrs, vec!["a2"]);
}

#[test]
fn a_huge_move_clamps_at_the_end() {
    let mut v = vec![1, 2, 3];
    assert!(move_in_list(&mut v, 1, i32::MAX));
    assert_eq!(v, [1, 3, 2]);
    assert!(move_in_list(&mut v, 2, i32::MIN));
    assert_eq!(v, [2, 3, 1]);
}

#[test]
fn the_dock_runs_launcher_pinned_running_then_trash() {
    let mut c = cfg(&["b", SEPARATOR, "a"]);
    c.launcher.enabled = true;
    c.items.show_trash = true;
    let mut s = DockState::new(vec![]);
    s.set_clients(vec![client("stranger"), client("other")]);
    let items = s.items(&c, &host());
    assert_eq!(
        kinds(&items),
        vec![
            ItemKind::Launcher,
            ItemKind::App,
            ItemKind::Separator,
            ItemKind::App,
            ItemKind::Separator,
            ItemKind::App,
            ItemKind::App,
            ItemKind::Separator,
            ItemKind::Trash,
        ]
    );
    let pins: Vec<Option<usize>> = items.iter().map(|i| i.pin_index).collect();
    assert_eq!(pins, vec![None, Some(0), Some(1), Some(2), None, None, None, None, None]);
    assert!(items[1].pinned && items[3].pinned && !items[5].pinned && !items[6].pinned);
}
