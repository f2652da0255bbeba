use omarchy_dock::desktop::Action;
use omarchy_dock::hypr::Address;
use omarchy_dock::menu::{context_menu, launcher_menu, DockCommand, LauncherAction, LauncherRow, MenuAction, MenuRow};
use omarchy_dock::omarchy::Surface;
use omarchy_dock::popover::{file_row, folder_popover, trash_popover, Removal, StackAction, StackRow};
use omarchy_dock::stacks::StackEntry;
use omarchy_dock::state::{DockItem, ItemKind};

fn item(key: &str, windows: &[&str], pinned: bool, actions: Vec<Action>) -> DockItem {
    DockItem {
        kind: ItemKind::App,
        key: key.into(),
        label: key.into(),
        icon: key.into(),
        windows: windows.iter().map(|w| Address::parse(w)).collect(),
        pinned,
        active: false,
        urgent: false,
        scratchpad: false,
        active_window: None,
        exec_line: String::new(),
        actions,
        path: None,
        pin_index: None,
        glyph: None,
    }
}

/// A row as text: headings in brackets, separators as a dash, items with
/// what they ask for.
fn describe(row: &MenuRow) -> String {
    match row {
        MenuRow::Heading(h) => format!("[{h}]"),
        MenuRow::Separator => "-".into(),
        MenuRow::Item { label, actions } => {
            let acts: Vec<String> = actions
                .iter()
                .map(|a| match a {
                    MenuAction::Command(DockCommand::Focus(w)) => format!("focus {}", w.0),
                    MenuAction::Command(DockCommand::Exec(c)) => format!("exec {c}"),
                    MenuAction::Command(DockCommand::Close(w)) => format!("close {}", w.0),
                    MenuAction::SetPinned { key, pinned } => format!("pin {key} {pinned}"),
                    MenuAction::Rescan => "rescan".into(),
                })
                .collect();
            format!("{label}: {}", acts.join(", "))
        }
    }
}

#[test]
fn a_multi_window_app_lists_its_windows_actions_pin_and_quit() {
    let actions = vec![
        Action { id: "new".into(), name: "New Window".into(), exec_line: "chromium --new-window %U".into() },
        Action { id: "none".into(), name: "Nothing".into(), exec_line: "%U".into() },
    ];
    let rows: Vec<String> = context_menu(&item("chromium", &["0xa", "0xb"], true, actions)).iter().map(describe).collect();
    assert_eq!(
        rows,
        [
            "[2 windows]",
            "Window 1: focus a",
            "Window 2: focus b",
            "-",
            "New Window: exec chromium --new-window",
            "-",
            "Remove from Dock: pin chromium false",
            "Quit All: close a, close b",
        ]
    );
}

#[test]
fn a_single_window_and_an_idle_item() {
    let rows: Vec<String> = context_menu(&item("kitty", &["0xa"], false, vec![])).iter().map(describe).collect();
    assert_eq!(rows, ["Keep in Dock: pin kitty true", "Quit: close a"]);
    let rows: Vec<String> = context_menu(&item("__trash", &[], true, vec![])).iter().map(describe).collect();
    assert!(rows.is_empty());
}

#[test]
fn the_launcher_menu_offers_the_shell_surfaces_then_the_dock() {
    let rows = launcher_menu();
    let text: Vec<String> = rows
        .iter()
        .map(|r| match r {
            LauncherRow::Heading(h) => format!("[{h}]"),
            LauncherRow::Separator => "-".into(),
            LauncherRow::Item { label, .. } => label.clone(),
        })
        .collect();
    assert_eq!(
        text,
        [
            "[Omarchy]",
            "Omarchy menu",
            "Themes…",
            "Backgrounds…",
            "Clipboard…",
            "Emojis…",
            "-",
            "[Dock]",
            "Settings…",
            "Add separator",
            "Edit config file…",
        ]
    );
    match &rows[2] {
        LauncherRow::Item { action, .. } => assert_eq!(*action, LauncherAction::OpenSurface(Surface::Themes)),
        other => panic!("unexpected row {other:?}"),
    }
}

fn entry(name: &str, is_dir: bool) -> StackEntry {
    StackEntry { path: format!("/d/{name}"), name: name.into(), is_dir, modified: None }
}

fn stack_text(rows: &[StackRow]) -> Vec<String> {
    rows.iter()
        .map(|r| match r {
            StackRow::Heading(h) => format!("[{h}]"),
            StackRow::Separator => "-".into(),
            StackRow::File(f) => format!("{} {} {:?}", f.icon, f.name, f.removal),
            StackRow::Action { label, action: StackAction::OpenFolder(d) } => format!("{label} {d}"),
            StackRow::Action { label, action: StackAction::EmptyTrash } => label.clone(),
        })
        .collect()
}

#[test]
fn a_folder_stack_counts_what_it_shows() {
    let entries = vec![entry("Projects", true), entry("notes.txt", false)];
    assert_eq!(
        stack_text(&folder_popover("/home/u/Downloads", "Downloads", &entries)),
        [
            "[Downloads — 2 recent]",
            "folder Projects ToTrash",
            "text-x-generic notes.txt ToTrash",
            "-",
            "Open folder /home/u/Downloads",
        ]
    );
    assert_eq!(stack_text(&folder_popover("/d", "D", &vec![entry("a", false)]))[0], "[D — 1 item]");
    assert_eq!(stack_text(&folder_popover("/d", "D", &vec![]))[0], "[D — empty]");
}

#[test]
fn the_trash_offers_emptying_only_when_there_is_something_to_empty() {
    assert_eq!(stack_text(&trash_popover("/t/files", &vec![])), ["[Trash — empty]", "Open Trash folder /t/files"]);
    assert_eq!(
        stack_text(&trash_popover("/t/files", &vec![entry("old.txt", false)])),
        ["[Trash]", "text-x-generic old.txt Permanently", "-", "Empty Trash", "Open Trash folder /t/files"]
    );
    let row = file_row(&entry("x", true), Removal::Permanently);
    assert_eq!((row.icon.as_str(), row.path.as_str()), ("folder", "/d/x"));
}
