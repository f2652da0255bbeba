use omarchy_dock::ipc_ctl::{parse, socket_path, Control};

#[test]
fn activate_is_one_based_on_the_wire() {
    // Keybindings read `activate 1` for the first icon.
    assert_eq!(parse("activate 1"), Some(Control::Activate(0)));
    assert_eq!(parse("activate 9"), Some(Control::Activate(8)));
    // Zero would silently mean "last item" if it were just decremented.
    assert_eq!(parse("activate 0"), None);
}

#[test]
fn rejects_unknown_and_malformed() {
    assert_eq!(parse("frobnicate"), None);
    assert_eq!(parse("activate"), None);
    assert_eq!(parse("activate x"), None);
    assert_eq!(parse(""), None);
}

#[test]
fn accepts_the_simple_verbs() {
    assert_eq!(parse("reveal"), Some(Control::Reveal));
    assert_eq!(parse("toggle-autohide"), Some(Control::ToggleAutohide));
}

#[test]
fn the_control_socket_is_in_the_runtime_directory() {
    assert_eq!(socket_path(Some("/run/user/1000")), "/run/user/1000/omarchy-dock.sock");
    assert_eq!(socket_path(None), "/tmp/omarchy-dock.sock");
    assert_eq!(parse("  hide  "), Some(Control::Hide));
    assert_eq!(parse("reload"), Some(Control::Reload));
}

#[test]
fn the_theme_hook_verb_is_understood() {
    // What the theme-set hook sends once Omarchy has applied a theme.
    assert_eq!(parse("restyle"), Some(Control::Restyle));
    assert!(omarchy_dock::integrate::hook_script().contains("omarchy-dockctl restyle"));
}
