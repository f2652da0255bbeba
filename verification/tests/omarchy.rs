use omarchy_dock::config::Position;
use omarchy_dock::omarchy::{bar_edge_in, bar_position, menu_route, notify, open, Surface};

#[test]
fn every_surface_has_a_label_and_is_offered() {
    // A surface added to the enum but left out of `all()` would never be
    // reachable from the menu.
    assert_eq!(Surface::all().len(), 5);
    for s in Surface::all() {
        assert!(!s.label().is_empty());
    }
}

#[test]
fn surfaces_open_through_the_shell() {
    let c = open(Surface::Themes);
    assert_eq!(c.program, "omarchy-shell");
    assert_eq!(c.args, ["-q", "shell", "summon", "omarchy.menu", "{\"menu\":\"style.theme\"}"]);
    let c = open(Surface::Menu);
    assert_eq!(c.args[4], "{\"menu\":\"root\"}");
    let c = open(Surface::Emojis);
    assert_eq!(c.args, ["-q", "shell", "toggle", "omarchy.emojis"]);
    assert_eq!(open(Surface::Clipboard).args[3], "omarchy.clipboard");
    assert_eq!(Surface::Backgrounds.label(), "Backgrounds…");
}

#[test]
fn notifications_go_through_omarchy() {
    let c = notify("Saved", Some("config written"), Some("\u{f0c7}"));
    assert_eq!(c.program, "omarchy");
    assert_eq!(
        c.args,
        ["notification", "send", "--app-name", "Dock", "-g", "\u{f0c7}", "Saved", "config written"]
    );
    assert_eq!(notify("Hi", None, None).args, ["notification", "send", "--app-name", "Dock", "Hi"]);
}

#[test]
fn the_bar_position_comes_from_shell_json() {
    assert_eq!(bar_position("bottom"), Position::Bottom);
    assert_eq!(bar_position("left"), Position::Left);
    assert_eq!(bar_position("right"), Position::Right);
    assert_eq!(bar_position("top"), Position::Top);
    assert_eq!(bar_position("anything"), Position::Top);
}

#[test]
fn a_menu_route_is_summoned_with_its_payload() {
    let c = menu_route("system.power");
    assert_eq!(c.program, "omarchy-shell");
    assert_eq!(c.args, ["-q", "shell", "summon", "omarchy.menu", "{\"menu\":\"system.power\"}"]);
}

#[test]
fn the_bar_edge_is_read_from_shell_json() {
    assert_eq!(bar_edge_in(r#"{"bar": {"position": "left"}}"#), Some(Position::Left));
    assert_eq!(bar_edge_in(r#"{"bar": {"position": "middle"}}"#), Some(Position::Top));
    assert_eq!(bar_edge_in(r#"{"bar": {"size": 3}}"#), None);
    assert_eq!(bar_edge_in(r#"{"bar": {"position": 2}}"#), None);
    assert_eq!(bar_edge_in("not json"), None);
}
