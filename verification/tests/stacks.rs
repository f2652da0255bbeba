use omarchy_dock::autohide::{hide_verdict, HideVerdict};
use omarchy_dock::config::HideMode;
use omarchy_dock::hypr::model::{Client, WorkspaceRef};
use omarchy_dock::hypr::Address;
use omarchy_dock::stacks::{newest_first, open, reveal_path, trash_files_dir, trash_info_dir, StackEntry, STACK_LIMIT};

fn entry(name: &str, modified: Option<(u64, u32)>) -> StackEntry {
    StackEntry { path: format!("/d/{name}"), name: name.into(), is_dir: false, modified }
}

#[test]
fn stacks_list_newest_first_and_skip_dotfiles() {
    let v = newest_first(
        vec![
            entry("old.txt", Some((10, 0))),
            entry(".hidden", Some((30, 0))),
            entry("new.txt", Some((20, 0))),
            entry("b-undated", None),
            entry("a-undated", None),
            entry("newer.txt", Some((20, 5))),
        ],
        STACK_LIMIT,
    );
    let names: Vec<&str> = v.iter().map(|e| e.name.as_str()).collect();
    assert_eq!(names, ["newer.txt", "new.txt", "old.txt", "a-undated", "b-undated"]);
    let v = newest_first(vec![entry("x", Some((1, 0))), entry("y", Some((2, 0)))], 1);
    assert_eq!(v.len(), 1);
    assert_eq!(v[0].name, "y");
}

#[test]
fn the_trash_lives_under_the_data_directory() {
    assert_eq!(trash_files_dir(Some("/home/u/.local/share")), "/home/u/.local/share/Trash/files");
    assert_eq!(trash_info_dir(Some("/home/u/.local/share")), "/home/u/.local/share/Trash/info");
    assert_eq!(trash_files_dir(None), "/tmp/Trash/files");
    let c = open("/home/u/a b.txt");
    assert_eq!(c.program, "xdg-open");
    assert_eq!(c.args, ["/home/u/a b.txt"]);
}

fn client(monitor: i32, ws: &str, mapped: bool, hidden: bool) -> Client {
    Client {
        address: Address::parse("1"),
        class: "x".into(),
        title: "x".into(),
        initial_class: "x".into(),
        workspace: WorkspaceRef { id: 1, name: ws.into() },
        monitor,
        pid: 1,
        floating: false,
        hidden,
        mapped,
        fullscreen: 0,
        at: (10, 20),
        size: (300, 400),
        focus_history_id: 0,
    }
}

#[test]
fn only_the_focused_window_on_this_monitor_can_hide_the_dock() {
    let c = client(0, "1", true, false);
    assert_eq!(hide_verdict(HideMode::Never, 0, Some(&c)), HideVerdict::Show);
    assert_eq!(hide_verdict(HideMode::Always, 0, None), HideVerdict::Hide);
    assert_eq!(
        hide_verdict(HideMode::Intelligent, 0, Some(&c)),
        HideVerdict::IfCovered { x: 10, y: 20, w: 300, h: 400 }
    );
    // An empty desktop keeps the dock visible.
    assert_eq!(hide_verdict(HideMode::Intelligent, 0, None), HideVerdict::Show);
    // Other monitors, scratchpads, unmapped and hidden windows are ignored.
    assert_eq!(hide_verdict(HideMode::Intelligent, 1, Some(&c)), HideVerdict::Show);
    let s = client(0, "special:scratchpad", true, false);
    assert_eq!(hide_verdict(HideMode::Intelligent, 0, Some(&s)), HideVerdict::Show);
    assert_eq!(hide_verdict(HideMode::Intelligent, 0, Some(&client(0, "1", false, false))), HideVerdict::Show);
    assert_eq!(hide_verdict(HideMode::Intelligent, 0, Some(&client(0, "1", true, true))), HideVerdict::Show);
}

#[test]
fn revealing_opens_the_parent_directory() {
    let c = reveal_path("/home/u/Downloads/report.pdf").unwrap();
    assert_eq!(c.program, "xdg-open");
    assert_eq!(c.args, ["/home/u/Downloads"]);
    assert_eq!(reveal_path("/").map(|c| c.args), None);
    assert_eq!(reveal_path("notes.txt").unwrap().args, [""]);
}
