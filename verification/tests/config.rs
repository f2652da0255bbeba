use omarchy_dock::config::{
    config_path, expand_tilde, omadock_folders, omadock_import, omadock_pins, Config, Folder, HideMode, Position,
};

#[test]
fn expands_bare_tilde_as_well_as_tilde_slash() {
    let home = dirs::home_dir().unwrap();
    let h = home.to_str().unwrap();
    assert_eq!(expand_tilde("~", h), h);
    assert_eq!(expand_tilde("~/Downloads", h), home.join("Downloads").to_str().unwrap());
    // Only a leading ~ is special; a path containing one is left alone.
    assert_eq!(expand_tilde("/tmp/~x", h), "/tmp/~x");
}

#[test]
fn tilde_expansion_against_a_given_home() {
    assert_eq!(expand_tilde("~", "/home/u"), "/home/u");
    assert_eq!(expand_tilde("~/a/b", "/home/u/"), "/home/u/a/b");
    assert_eq!(expand_tilde("~user/x", "/home/u"), "~user/x");
    assert_eq!(config_path("/home/u/.config/omarchy-dock"), "/home/u/.config/omarchy-dock/config.toml");
}

#[test]
fn defaults_and_the_launcher_command() {
    let mut c = Config::default();
    assert_eq!(c.autohide.mode, HideMode::Intelligent);
    assert!(c.launcher.enabled && c.items.show_trash && c.items.show_running);
    assert!(!c.workspaces.enabled);
    assert_eq!(c.launcher_command(), "omarchy-menu toggle");
    c.launcher.command = "  walker ".into();
    assert_eq!(c.launcher_command(), "  walker ");
    c.launcher.command = " \t".into();
    assert_eq!(c.launcher_command(), "omarchy-menu toggle");
    assert!(Position::Left.is_vertical() && !Position::Bottom.is_vertical());
}

#[test]
fn a_first_run_inherits_the_stock_dock() {
    let folder = Folder { path: "~/Downloads".into(), name: "Downloads".into(), icon: String::new(), enabled: true };
    let c = Config::bootstrap(vec!["firefox".into()], vec![folder]);
    assert_eq!(c.items.pinned, vec!["firefox".to_string()]);
    assert_eq!(c.items.folders.len(), 1);
    let c = Config::bootstrap(vec![], vec![]);
    assert!(c.items.pinned.is_empty() && c.items.folders.is_empty());
}

#[test]
fn stock_dock_pins_are_read_only_when_every_entry_is_a_string() {
    let s = |x: &str| Some(x.to_string());
    assert_eq!(omadock_pins(Some(vec![s("firefox"), s("kitty")])), vec!["firefox", "kitty"]);
    assert!(omadock_pins(Some(vec![s("firefox"), None, s("kitty")])).is_empty());
    assert!(omadock_pins(None).is_empty());
    assert!(omadock_pins(Some(vec![])).is_empty());
}

#[test]
fn stock_dock_folders_need_a_path_and_a_name() {
    let s = |x: &str| Some(x.to_string());
    let got = omadock_folders(Some(vec![
        (s("~"), s("Home"), s("user-home")),
        (s("~/Downloads"), None, s("folder-download")),
        (None, s("Nowhere"), None),
        (s("~/Documents"), s("Documents"), None),
    ]));
    assert_eq!(got.len(), 2);
    assert_eq!((got[0].path.as_str(), got[0].name.as_str(), got[0].icon.as_str()), ("~", "Home", "user-home"));
    assert_eq!((got[1].path.as_str(), got[1].name.as_str(), got[1].icon.as_str()), ("~/Documents", "Documents", ""));
    assert!(got.iter().all(|f| f.enabled));
    assert!(omadock_folders(None).is_empty());
}

#[test]
fn a_first_run_reads_the_stock_docks_json() {
    let (pins, folders) = omadock_import(
        Some(r#"{"pinned": ["firefox", "kitty"]}"#),
        Some(r#"{"pinnedFolders": [{"path": "~", "name": "Home", "icon": "user-home"}, {"path": "~/x"}, 7]}"#),
    );
    assert_eq!(pins, vec!["firefox", "kitty"]);
    assert_eq!(folders.len(), 1);
    assert_eq!((folders[0].path.as_str(), folders[0].name.as_str(), folders[0].icon.as_str()), ("~", "Home", "user-home"));
    assert!(folders[0].enabled);
    // One entry that is not a string voids the pins; text that is not JSON
    // or lacks the list seeds nothing.
    let (pins, folders) = omadock_import(Some(r#"{"pinned": ["a", 1]}"#), Some("{}"));
    assert!(pins.is_empty() && folders.is_empty());
    let (pins, folders) = omadock_import(Some("not json"), None);
    assert!(pins.is_empty() && folders.is_empty());
}
