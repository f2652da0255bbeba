use omarchy_dock::config::{Folder, HideMode, Position};
use omarchy_dock::pins::{
    activation, add_separator, chosen_hide_mode, chosen_position, hide_mode_choice, position_choice,
    remove_last_separator, remove_pin, set_folder_enabled, set_pinned, toggled_hide_mode, Activation,
};
use omarchy_dock::hypr::Address;
use omarchy_dock::state::{DockItem, ItemKind};

fn pins(v: &[&str]) -> Vec<String> {
    v.iter().map(|s| s.to_string()).collect()
}

#[test]
fn pinning_moves_a_key_to_the_end_and_unpinning_drops_it() {
    let mut p = pins(&["a", "b", "a", "c"]);
    set_pinned(&mut p, "a", true);
    assert_eq!(p, pins(&["b", "c", "a"]));
    set_pinned(&mut p, "c", false);
    assert_eq!(p, pins(&["b", "a"]));
    remove_pin(&mut p, 5);
    assert_eq!(p, pins(&["b", "a"]));
    remove_pin(&mut p, 0);
    assert_eq!(p, pins(&["a"]));
}

#[test]
fn an_added_separator_lands_mid_list_and_never_beside_another() {
    let mut p = pins(&["a", "b", "c", "d"]);
    add_separator(&mut p);
    assert_eq!(p, pins(&["a", "b", "---", "c", "d"]));
    // The middle is taken: it moves on to a clear slot.
    add_separator(&mut p);
    assert_eq!(p, pins(&["a", "b", "---", "c", "---", "d"]));
    // Only room after a separator: nothing happens.
    let mut p = pins(&["a", "---"]);
    add_separator(&mut p);
    assert_eq!(p, pins(&["a", "---"]));
    let mut p = Vec::new();
    add_separator(&mut p);
    assert_eq!(p, pins(&["---"]));
}

#[test]
fn the_autohide_toggle() {
    assert_eq!(toggled_hide_mode(HideMode::Never), HideMode::Intelligent);
    assert_eq!(toggled_hide_mode(HideMode::Always), HideMode::Never);
    assert_eq!(toggled_hide_mode(HideMode::Intelligent), HideMode::Never);
}

fn item(windows: &[&str], active: Option<&str>, exec: &str) -> DockItem {
    DockItem {
        kind: ItemKind::App,
        key: "k".into(),
        label: "k".into(),
        icon: "k".into(),
        windows: windows.iter().map(|w| Address::parse(w)).collect(),
        pinned: true,
        active: active.is_some(),
        urgent: false,
        scratchpad: false,
        active_window: active.map(Address::parse),
        exec_line: exec.into(),
        actions: vec![],
        path: None,
        pin_index: None,
        glyph: None,
    }
}

#[test]
fn activating_focuses_or_launches() {
    match activation(&item(&["a", "b"], Some("a"), "x")) {
        Some(Activation::Focus(a)) => assert_eq!(a, Address::parse("b")),
        _ => panic!("expected a focus"),
    }
    match activation(&item(&[], None, "kitty")) {
        Some(Activation::Launch(c)) => assert_eq!(c, "kitty"),
        _ => panic!("expected a launch"),
    }
    assert!(activation(&item(&[], None, "")).is_none());
}

#[test]
fn pinning_twice_still_pins_once() {
    let mut p = pins(&["a", "b", "a"]);
    set_pinned(&mut p, "a", true);
    set_pinned(&mut p, "a", true);
    assert_eq!(p, pins(&["b", "a"]));
    set_pinned(&mut p, "a", false);
    assert_eq!(p, pins(&["b"]));
}

#[test]
fn the_last_separator_goes() {
    let mut p = pins(&["a", "---", "b", " --- ", "c"]);
    remove_last_separator(&mut p);
    assert_eq!(p, pins(&["a", "---", "b", "c"]));
    remove_last_separator(&mut p);
    assert_eq!(p, pins(&["a", "b", "c"]));
    remove_last_separator(&mut p);
    assert_eq!(p, pins(&["a", "b", "c"]));
}

#[test]
fn settings_choices_show_and_set_the_config() {
    for p in [Position::Bottom, Position::Top, Position::Left, Position::Right] {
        assert_eq!(chosen_position(position_choice(p)), p);
    }
    assert_eq!(position_choice(Position::Left), 2);
    assert_eq!(chosen_position(9), Position::Bottom);
    for m in [HideMode::Never, HideMode::Intelligent, HideMode::Always] {
        assert_eq!(chosen_hide_mode(hide_mode_choice(m)), m);
    }
    assert_eq!(hide_mode_choice(HideMode::Always), 2);
    assert_eq!(chosen_hide_mode(7), HideMode::Intelligent);
}

#[test]
fn a_folder_switch_touches_only_its_folder() {
    let folder = |name: &str| Folder { path: format!("~/{name}"), name: name.into(), icon: String::new(), enabled: true };
    let mut f = vec![folder("a"), folder("b")];
    set_folder_enabled(&mut f, 1, false);
    assert!(f[0].enabled && !f[1].enabled);
    assert_eq!(f[1].name, "b");
    set_folder_enabled(&mut f, 5, false);
    assert!(f[0].enabled);
}
