use omarchy_dock::desktop::Entry;
use omarchy_dock::state::matcher::{chromium_app_class, exec_basename, Matcher};

#[test]
fn derives_chromium_class_from_omarchy_webapp_exec() {
    assert_eq!(
        chromium_app_class(r#"omarchy-launch-webapp "https://gmail.com""#).as_deref(),
        Some("chrome-gmail.com__-Default".to_lowercase().as_str())
    );
    assert_eq!(
        chromium_app_class(r#"omarchy-launch-webapp "https://github.com/""#).as_deref(),
        Some("chrome-github.com__-Default".to_lowercase().as_str())
    );
    // Trailing slash is preserved as a trailing underscore.
    assert_eq!(
        chromium_app_class(r#"omarchy-launch-webapp "https://outlook.live.com/mail/""#).as_deref(),
        Some("chrome-outlook.live.com__mail_-Default".to_lowercase().as_str())
    );
}

#[test]
fn matches_the_live_class_observed_from_hyprland() {
    assert_eq!(
        chromium_app_class("omarchy-launch-webapp https://example.com/foo/bar").as_deref(),
        Some("chrome-example.com__foo_bar-Default".to_lowercase().as_str())
    );
}

fn entry(id: &str, name: &str, exec: &str, wm_class: Option<&str>) -> Entry {
    Entry {
        id: id.into(),
        name: name.into(),
        icon: id.into(),
        exec_line: exec.into(),
        wm_class: wm_class.map(str::to_string),
        no_display: false,
        terminal: false,
        actions: vec![],
        path: String::new(),
    }
}

#[test]
fn a_bogus_startupwmclass_does_not_shadow_the_id_fallback() {
    let e = entry("chromium", "Chromium", "/usr/bin/chromium %U", None);
    let m = Matcher::build(vec![e]);
    // The real window class Hyprland reports.
    assert!(m.expected_classes("chromium").contains(&"chromium".to_string()));
    assert!(m.match_class("chromium").is_some());
}

#[test]
fn ignores_non_webapp_execs() {
    assert_eq!(chromium_app_class("/usr/bin/kitty"), None);
    assert_eq!(exec_basename("/usr/bin/kitty --title x").as_deref(), Some("kitty"));
}

#[test]
fn classes_resolve_case_insensitively_and_by_their_first_dotted_part() {
    let m = Matcher::build(vec![
        entry("org.gnome.Nautilus", "Files", "nautilus --new-window", None),
        entry("code", "Code", "/usr/bin/code %F", Some("Code")),
    ]);
    assert_eq!(m.match_class("org.gnome.Nautilus").map(|e| e.name.as_str()), Some("Files"));
    assert_eq!(m.match_class("ORG.GNOME.NAUTILUS").map(|e| e.name.as_str()), Some("Files"));
    assert_eq!(m.match_class("code.bin").map(|e| e.name.as_str()), Some("Code"));
    assert_eq!(m.match_class("Code.Wrapped.bin").map(|e| e.name.as_str()), Some("Code"));
    assert!(m.match_class("com.example.code").is_none());
    assert!(m.match_class("unknown").is_none());
    assert_eq!(m.by_id("CODE").map(|e| e.id.as_str()), Some("code"));
    assert_eq!(m.expected_classes("code"), vec!["code".to_string()]);
    assert_eq!(
        m.expected_classes("org.gnome.Nautilus"),
        vec!["org.gnome.nautilus".to_string(), "nautilus".to_string()]
    );
    assert_eq!(m.expected_classes("firefox"), vec!["firefox".to_string()]);
    assert_eq!(m.entries().len(), 2);
}

#[test]
fn a_startupwmclass_comes_first_and_the_id_is_always_offered() {
    let m = Matcher::build(vec![entry("Brave", "Brave", "/usr/bin/brave", Some("Brave-Browser"))]);
    let r = m.expected_classes("brave");
    assert_eq!(r[0], "brave-browser");
    assert!(r.contains(&"brave".to_string()));
    assert_eq!(r, vec!["brave-browser".to_string(), "brave".to_string()]);
    let unknown = m.expected_classes("Zed");
    assert_eq!(unknown, vec!["zed".to_string()]);
    assert!(m.expected_classes("").is_empty());
}
