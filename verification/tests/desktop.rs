use omarchy_dock::desktop::{collect_entries, parse, sane_wm_class, strip_field_codes, Entry};

#[test]
fn rejects_unsubstituted_startupwmclass_templates() {
    // Real value from Arch's chromium.desktop.
    assert_eq!(sane_wm_class("@@startup_wm_class"), None);
    assert_eq!(sane_wm_class("${WMCLASS}"), None);
    assert_eq!(sane_wm_class(""), None);
    assert_eq!(sane_wm_class("Code").as_deref(), Some("Code"));
}

#[test]
fn strips_field_codes_but_keeps_literal_percent() {
    assert_eq!(strip_field_codes("chromium --app=x %U"), "chromium --app=x");
    assert_eq!(strip_field_codes("foo %F --bar %i"), "foo  --bar");
    assert_eq!(strip_field_codes("wine 100%% --go"), "wine 100% --go");
}

const FIREFOX: &str = "[Desktop Entry]\n\
Name=Firefox\n\
Name[de]=Feuerfuchs\n\
Icon=firefox\n\
Exec=/usr/lib/firefox/firefox %u\n\
StartupWMClass=firefox\n\
Actions=private;new-window;\n\
# a comment\n\
\n\
[Desktop Action new-window]\n\
Name=New Window\n\
Exec=/usr/lib/firefox/firefox --new-window %u\n\
\n\
[Desktop Action unlisted]\n\
Name=Unlisted\n\
Exec=true\n\
\n\
[Desktop Action private]\n\
Name=New Private Window\n\
Exec=/usr/lib/firefox/firefox --private-window %u\n\
\n\
[Other Group]\n\
Name=Not the entry's name\n";

#[test]
fn a_desktop_file_is_read_group_by_group() {
    let e = parse("/usr/share/applications/firefox.desktop", FIREFOX).unwrap();
    assert_eq!(e.id, "firefox");
    assert_eq!(e.name, "Firefox");
    assert_eq!(e.icon, "firefox");
    assert_eq!(e.exec_line, "/usr/lib/firefox/firefox %u");
    assert_eq!(e.command(), "/usr/lib/firefox/firefox");
    assert_eq!(e.wm_class.as_deref(), Some("firefox"));
    assert!(!e.no_display);
    assert!(!e.terminal);
    assert_eq!(e.path, "/usr/share/applications/firefox.desktop");
    // Only advertised actions, in the advertised order.
    let ids: Vec<&str> = e.actions.iter().map(|a| a.id.as_str()).collect();
    assert_eq!(ids, ["private", "new-window"]);
    assert_eq!(e.actions[0].name, "New Private Window");
    assert_eq!(e.actions[1].exec_line, "/usr/lib/firefox/firefox --new-window %u");
}

#[test]
fn an_entry_without_a_name_is_no_entry() {
    assert!(parse("/x/nameless.desktop", "[Desktop Entry]\nExec=foo\n").is_none());
    // Keys outside [Desktop Entry] do not count.
    assert!(parse("/x/other.desktop", "[Other]\nName=Foo\n").is_none());
    // A path with no file name has no desktop id.
    assert!(parse("/", "[Desktop Entry]\nName=Foo\n").is_none());
}

#[test]
fn hidden_and_terminal_flags_and_a_bogus_wm_class() {
    let text = "[Desktop Entry]\r\nName = Tool \r\nNoDisplay=false\r\nHidden=true\r\nTerminal=true\r\nStartupWMClass=@@x\r\n";
    let e = parse("tool.old.desktop", text).unwrap();
    assert_eq!(e.id, "tool.old");
    assert_eq!(e.name, "Tool");
    assert!(e.no_display);
    assert!(e.terminal);
    assert_eq!(e.wm_class, None);
    // Without an Actions= line no action is advertised, so none is kept.
    let e = parse("a.desktop", "[Desktop Entry]\nName=A\n[Desktop Action x]\n[Desktop Action y]\nName=Why\n").unwrap();
    assert!(e.actions.is_empty());
    let e = parse(
        "/p/app.desktop",
        "[Desktop Entry]\nName=App\nExec=app\n[Desktop Action new]\nName=New\nExec=app --new\n",
    )
    .unwrap();
    assert_eq!((e.id.as_str(), e.name.as_str(), e.exec_line.as_str()), ("app", "App", "app"));
    assert!(e.actions.is_empty());
}

fn entry(id: &str, name: &str) -> Entry {
    Entry {
        id: id.into(),
        name: name.into(),
        icon: String::new(),
        exec_line: String::new(),
        wm_class: None,
        no_display: false,
        terminal: false,
        actions: vec![],
        path: String::new(),
    }
}

#[test]
fn the_first_entry_for_an_id_wins_and_entries_come_sorted() {
    let found = vec![entry("zed", "user zed"), entry("alacritty", "A"), entry("zed", "system zed")];
    let v = collect_entries(found);
    let got: Vec<(&str, &str)> = v.iter().map(|e| (e.id.as_str(), e.name.as_str())).collect();
    assert_eq!(got, [("alacritty", "A"), ("zed", "user zed")]);
}
