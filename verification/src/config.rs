//! User configuration: the sections of `~/.config/omarchy-dock/config.toml`
//! that decide what the dock shows and how it behaves.
//!
//! Reading, writing and the geometric sections (sizes, spacing, spring
//! constants, opacity) are the application's; everything here is plain data
//! with its defaults, plus the path rules the dock applies to it.
use vstd::prelude::*;
use crate::hypr::{join_path, join_path_exec};
use crate::text::{
    chars_of, opt_chars, opt_strings, seq_eq, slice_of, starts_with_vec, string_of, strings, trim,
    trim_vec,
};

verus! {

/// Where the dock sits on screen.
#[derive(Debug, Clone, Copy, PartialEq, Eq, Structural)]
pub enum Position {
    Bottom,
    Top,
    Left,
    Right,
}

impl Position {
    /// Docks on a vertical edge stack their items top-to-bottom.
    pub fn is_vertical(self) -> (r: bool)
        ensures
            r == (self == Position::Left || self == Position::Right),
    {
        match self {
            Position::Left | Position::Right => true,
            _ => false,
        }
    }
}

impl Default for Position {
    fn default() -> (r: Self)
        ensures
            r == Position::Bottom,
    {
        Position::Bottom
    }
}

/// Which monitors get a dock.
#[derive(Debug, Clone, Copy, PartialEq, Eq, Structural)]
pub enum MonitorMode {
    /// An independent dock instance on every connected output.
    All,
    /// Only the output named in `monitors.primary`, or Hyprland's first.
    Primary,
    /// A single dock that follows the focused output.
    Focused,
}

impl Default for MonitorMode {
    fn default() -> (r: Self)
        ensures
            r == MonitorMode::All,
    {
        MonitorMode::All
    }
}

#[derive(Debug, Clone, Copy, PartialEq, Eq, Structural)]
pub enum HideMode {
    /// Always visible.
    Never,
    /// Always hidden until the pointer hits the trigger edge.
    Always,
    /// Hidden only while a window would overlap the dock's rectangle.
    Intelligent,
}

impl Default for HideMode {
    fn default() -> (r: Self)
        ensures
            r == HideMode::Intelligent,
    {
        HideMode::Intelligent
    }
}

#[derive(Debug, Clone, Copy)]
pub struct Autohide {
    pub mode: HideMode,
    /// How long the pointer must rest on the trigger edge before revealing.
    pub reveal_delay_ms: u64,
    /// Grace period after the pointer leaves before hiding again.
    pub hide_delay_ms: u64,
    /// Thickness of the screen-edge trigger strip, in pixels.
    pub trigger_px: i32,
    /// Duration of the slide in/out animation.
    pub slide_ms: u64,
}

impl Default for Autohide {
    fn default() -> (r: Self)
        ensures
            r.mode == HideMode::Intelligent,
            r.reveal_delay_ms == 160,
            r.hide_delay_ms == 500,
            r.trigger_px == 2,
            r.slide_ms == 220,
    {
        Autohide {
            mode: HideMode::Intelligent,
            reveal_delay_ms: 160,
            hide_delay_ms: 500,
            trigger_px: 2,
            slide_ms: 220,
        }
    }
}

#[derive(Debug)]
pub struct Launcher {
    pub enabled: bool,
    pub icon: String,
    /// Shell command to run. Empty uses Omarchy's own menu.
    pub command: String,
}

impl Default for Launcher {
    fn default() -> (r: Self)
        ensures
            r.enabled,
            r.icon@ == "omarchy"@,
            r.command@ == Seq::<char>::empty(),
    {
        Launcher { enabled: true, icon: string_of(&chars_of("omarchy")), command: String::new() }
    }
}

#[derive(Debug)]
pub struct Monitors {
    pub mode: MonitorMode,
    /// Output name for `MonitorMode::Primary`, e.g. "eDP-1".
    pub primary: String,
}

impl Default for Monitors {
    fn default() -> (r: Self)
        ensures
            r.mode == MonitorMode::All,
            r.primary@ == Seq::<char>::empty(),
    {
        Monitors { mode: MonitorMode::All, primary: String::new() }
    }
}

/// A folder stack.
#[derive(Debug)]
pub struct Folder {
    pub path: String,
    pub name: String,
    pub icon: String,
    /// Show this stack. Each folder toggles independently.
    pub enabled: bool,
}

/// A pinned shell command, shown as a glyph tile: pinned as `cmd:<id>`.
#[derive(Debug)]
pub struct CommandItem {
    pub id: String,
    pub label: String,
    pub glyph: String,
    pub command: String,
}

#[derive(Debug)]
pub struct Items {
    /// Desktop-entry ids or Hyprland window classes, in dock order.
    pub pinned: Vec<String>,
    pub folders: Vec<Folder>,
    pub show_trash: bool,
    /// Show apps that are running but not pinned.
    pub show_running: bool,
    /// Command tiles that `pinned` may refer to as `cmd:<id>`.
    pub commands: Vec<CommandItem>,
}

impl Default for Items {
    fn default() -> (r: Self)
        ensures
            r.pinned@.len() == 0,
            r.folders@.len() == 0,
            r.show_trash,
            r.show_running,
            r.commands@.len() == 0,
    {
        Items {
            pinned: Vec::new(),
            folders: Vec::new(),
            show_trash: true,
            show_running: true,
            commands: Vec::new(),
        }
    }
}

/// The workspace strip and scratchpad tile; both off by default, since the
/// bar already shows workspaces.
#[derive(Debug, Clone, Copy, Default)]
pub struct Workspaces {
    pub enabled: bool,
    pub show_empty: bool,
    pub scratchpad: bool,
}

/// The configuration sections the dock's logic reads.
#[derive(Debug)]
pub struct Config {
    pub autohide: Autohide,
    pub launcher: Launcher,
    pub monitors: Monitors,
    pub items: Items,
    pub workspaces: Workspaces,
}

impl Default for Config {
    fn default() -> (r: Self)
        ensures
            r.autohide.mode == HideMode::Intelligent,
            r.launcher.enabled,
            r.launcher.icon@ == "omarchy"@,
            r.launcher.command@ == Seq::<char>::empty(),
            r.monitors.mode == MonitorMode::All,
            r.items.pinned@.len() == 0,
            r.items.folders@.len() == 0,
            r.items.show_trash,
            r.items.show_running,
            r.items.commands@.len() == 0,
            !r.workspaces.enabled,
            !r.workspaces.show_empty,
            !r.workspaces.scratchpad,
    {
        Config {
            autohide: Autohide::default(),
            launcher: Launcher::default(),
            monitors: Monitors::default(),
            items: Items::default(),
            workspaces: Workspaces { enabled: false, show_empty: false, scratchpad: false },
        }
    }
}

/// `serde(default = "yes")`: a folder stack is shown unless it says otherwise.
pub fn yes() -> (r: bool)
    ensures
        r,
{
    true
}

/// What the launcher button runs: the configured command, or Omarchy's own
/// menu when none is set.
pub open spec fn launcher_command_of(command: Seq<char>) -> Seq<char> {
    if trim(command).len() == 0 {
        "omarchy-menu toggle"@
    } else {
        command
    }
}

impl Config {
    pub fn launcher_command(&self) -> (r: String)
        ensures
            r@ == launcher_command_of(self.launcher.command@),
    {
        if trim_vec(&chars_of(self.launcher.command.as_str())).len() == 0 {
            string_of(&chars_of("omarchy-menu toggle"))
        } else {
            self.launcher.command.clone()
        }
    }
}

/// The config file inside the dock's config directory.
pub fn config_path(config_dir: &str) -> (r: String)
    ensures
        r@ == join_path(config_dir@, "config.toml"@),
{
    join_path_exec(config_dir, "config.toml")
}

/// A path with a leading `~` expanded against `home`: a bare `~` as well as
/// `~/…`; anything else unchanged.
pub open spec fn tilde_expanded(p: Seq<char>, home: Seq<char>) -> Seq<char> {
    if p == "~"@ {
        home
    } else if p.len() >= 2 && p[0] == '~' && p[1] == '/' {
        join_path(home, p.subrange(2, p.len() as int))
    } else {
        p
    }
}

/// Expand a leading `~` against the user's home directory `home`.
///
/// Handles a bare `~` as well as `~/…`: Omarchy's own `omadock.json` pins
/// Home as exactly `"~"`.
pub fn expand_tilde(p: &str, home: &str) -> (r: String)
    ensures
        r@ == tilde_expanded(p@, home@),
{
    let v = chars_of(p);
    if seq_eq(&v, &chars_of("~")) {
        return string_of(&chars_of(home));
    }
    if v.len() >= 2 && v[0] == '~' && v[1] == '/' {
        let rest = string_of(&slice_of(&v, 2, v.len()));
        return join_path_exec(home, rest.as_str());
    }
    string_of(&v)
}


impl Config {
    /// Defaults, plus what the stock Omarchy dock had: its pinned apps and
    /// pinned folders, when it had any, so a first run inherits the user's
    /// existing dock.
    pub fn bootstrap(pinned: Vec<String>, folders: Vec<Folder>) -> (r: Config)
        ensures
            r.items.pinned@ == pinned@,
            r.items.folders@ == folders@,
            r.autohide.mode == HideMode::Intelligent,
            r.launcher.enabled,
            r.launcher.icon@ == "omarchy"@,
            r.launcher.command@ == Seq::<char>::empty(),
            r.monitors.mode == MonitorMode::All,
            r.items.show_trash,
            r.items.show_running,
            r.items.commands@.len() == 0,
            !r.workspaces.enabled,
            !r.workspaces.show_empty,
            !r.workspaces.scratchpad,
    {
        let mut cfg = Config::default();
        if pinned.len() > 0 {
            cfg.items.pinned = pinned;
        } else {
            assert(pinned@ =~= cfg.items.pinned@);
        }
        if folders.len() > 0 {
            cfg.items.folders = folders;
        } else {
            assert(folders@ =~= cfg.items.folders@);
        }
        cfg
    }
}


// ── seeding from Omarchy's stock dock ───────────────────────────────────────

/// Whether every entry of `l` was a string.
pub open spec fn all_strings(l: Seq<Option<Seq<char>>>) -> bool {
    forall|i: int| 0 <= i < l.len() ==> (#[trigger] l[i]) is Some
}

/// The pins `dock.json` lists: its `pinned` entries when it has that list
/// and every entry is a string, else none — one entry that is not a string
/// makes the whole list unreadable rather than silently shorter.
pub open spec fn omadock_pins_of(list: Option<Seq<Option<Seq<char>>>>) -> Seq<Seq<char>> {
    match list {
        Some(l) => if all_strings(l) {
            l.map_values(|v: Option<Seq<char>>| v->0)
        } else {
            Seq::empty()
        },
        None => Seq::empty(),
    }
}

/// The pins to seed from `dock.json`'s `pinned` list, each entry a string or
/// not (`None`); no list at all is `None`.
pub fn omadock_pins(list: Option<Vec<Option<String>>>) -> (r: Vec<String>)
    ensures
        strings(r@) == omadock_pins_of(
            match list {
                Some(l) => Some(opt_strings(l@)),
                None => None,
            },
        ),
{
    let Some(l) = list else {
        let r: Vec<String> = Vec::new();
        assert(strings(r@) =~= Seq::<Seq<char>>::empty());
        return r;
    };
    let ghost v = opt_strings(l@);
    let mut out: Vec<String> = Vec::new();
    let mut i: usize = 0;
    while i < l.len()
        invariant
            i <= l@.len(),
            list == Some(l),
            v == opt_strings(l@),
            forall|k: int| 0 <= k < i ==> (#[trigger] v[k]) is Some,
            strings(out@) == v.take(i as int).map_values(|x: Option<Seq<char>>| x->0),
        decreases l.len() - i,
    {
        match &l[i] {
            Some(s) => {
                let ghost before = strings(out@);
                out.push(s.clone());
                assert(v[i as int] == Some(s@));
                assert(v.take(i + 1) =~= v.take(i as int).push(v[i as int]));
                assert(strings(out@) =~= before.push(s@));
                assert(v.take(i + 1).map_values(|x: Option<Seq<char>>| x->0) =~= v.take(
                    i as int,
                ).map_values(|x: Option<Seq<char>>| x->0).push(s@));
            },
            None => {
                assert(v[i as int] is None);
                assert(!all_strings(v));
                let r: Vec<String> = Vec::new();
                assert(strings(r@) =~= Seq::<Seq<char>>::empty());
                return r;
            },
        }
        i = i + 1;
    }
    assert(v.take(l.len() as int) =~= v);
    out
}

/// One `pinnedFolders` entry of `omadock.json`, by what it holds: its
/// `path`, `name` and `icon` when each is a string.
pub type FolderFields = (Option<String>, Option<String>, Option<String>);

/// An entry's fields by their characters.
pub open spec fn fields_view(f: FolderFields) -> (Option<Seq<char>>, Option<Seq<char>>, Option<Seq<char>>) {
    (opt_chars(f.0), opt_chars(f.1), opt_chars(f.2))
}

/// The folder stack an entry seeds: one with a path and a name, enabled,
/// its icon or none.
pub open spec fn omadock_folder_of(
    f: (Option<Seq<char>>, Option<Seq<char>>, Option<Seq<char>>),
) -> Option<(Seq<char>, Seq<char>, Seq<char>)> {
    match (f.0, f.1) {
        (Some(p), Some(n)) => Some(
            (
                p,
                n,
                match f.2 {
                    Some(i) => i,
                    None => Seq::empty(),
                },
            ),
        ),
        _ => None,
    }
}

/// The stacks seeded from the first `n` entries: those with a path and a
/// name, in order; the others are skipped.
pub open spec fn omadock_folders_of(
    l: Seq<(Option<Seq<char>>, Option<Seq<char>>, Option<Seq<char>>)>,
    n: nat,
) -> Seq<(Seq<char>, Seq<char>, Seq<char>)>
    decreases n,
{
    if n == 0 || n > l.len() {
        Seq::empty()
    } else {
        let prev = omadock_folders_of(l, (n - 1) as nat);
        match omadock_folder_of(l[n - 1]) {
            Some(f) => prev.push(f),
            None => prev,
        }
    }
}

/// A folder stack by its path, name and icon.
pub open spec fn folder_fields(f: Folder) -> (Seq<char>, Seq<char>, Seq<char>) {
    (f.path@, f.name@, f.icon@)
}

/// The stacks seeded from every entry of `l`.
pub open spec fn omadock_folders_all(
    l: Seq<(Option<Seq<char>>, Option<Seq<char>>, Option<Seq<char>>)>,
) -> Seq<(Seq<char>, Seq<char>, Seq<char>)> {
    omadock_folders_of(l, l.len())
}

/// The folder stacks to seed from `omadock.json`'s `pinnedFolders` list;
/// no list at all seeds none. Every seeded stack is enabled.
pub fn omadock_folders(list: Option<Vec<FolderFields>>) -> (r: Vec<Folder>)
    ensures
        r@.map_values(|f: Folder| folder_fields(f)) == match list {
            Some(l) => omadock_folders_all(l@.map_values(|f: FolderFields| fields_view(f))),
            None => Seq::empty(),
        },
        forall|i: int| 0 <= i < r@.len() ==> (#[trigger] r@[i]).enabled,
{
    let Some(l) = list else {
        let r: Vec<Folder> = Vec::new();
        assert(r@.map_values(|f: Folder| folder_fields(f)) =~= Seq::empty());
        return r;
    };
    let ghost lv = l@.map_values(|f: FolderFields| fields_view(f));
    let mut out: Vec<Folder> = Vec::new();
    let mut i: usize = 0;
    assert(out@.map_values(|f: Folder| folder_fields(f)) =~= omadock_folders_of(lv, 0));
    while i < l.len()
        invariant
            i <= l@.len(),
            list == Some(l),
            lv == l@.map_values(|f: FolderFields| fields_view(f)),
            out@.map_values(|f: Folder| folder_fields(f)) == omadock_folders_of(lv, i as nat),
            forall|k: int| 0 <= k < out@.len() ==> (#[trigger] out@[k]).enabled,
        decreases l.len() - i,
    {
        let (p, n, ic) = &l[i];
        assert(lv[i as int] == fields_view(l@[i as int]));
        match (p, n) {
            (Some(p), Some(n)) => {
                let icon = match ic {
                    Some(x) => x.clone(),
                    None => String::new(),
                };
                let ghost before = out@;
                out.push(Folder { path: p.clone(), name: n.clone(), icon, enabled: true });
                assert(out@.map_values(|f: Folder| folder_fields(f)) =~= before.map_values(
                    |f: Folder| folder_fields(f),
                ).push(omadock_folder_of(lv[i as int])->0));
            },
            _ => {},
        }
        i = i + 1;
    }
    out
}

/// What `dock.json`'s text lists under `pinned`: `None` when the text is
/// not JSON or has no `pinned` list; else each entry, where it is a string.
pub uninterp spec fn json_dock_pins(text: Seq<char>) -> Option<Seq<Option<Seq<char>>>>;

/// What `omadock.json`'s text lists under `pinnedFolders`: `None` when the
/// text is not JSON or has no such list; else each entry's `path`, `name`
/// and `icon`, each where it is a string.
pub uninterp spec fn json_omadock_folders(text: Seq<char>) -> Option<
    Seq<(Option<Seq<char>>, Option<Seq<char>>, Option<Seq<char>>)>,
>;

/// Parses `text` with `serde_json::from_str` into a `Value` and reads its
/// `pinned` list with `Value::get`, `as_array` and, per entry, `as_str`.
/// Claimed: the result is `json_dock_pins` of the text.
#[verifier::external_body]
fn dock_json_pins(text: &str) -> (r: Option<Vec<Option<String>>>)
    ensures
        json_dock_pins(text@) == match r {
            Some(v) => Some(opt_strings(v@)),
            None => None,
        },
{
    let v = serde_json::from_str::<serde_json::Value>(text).ok()?;
    let list = v.get("pinned")?.as_array()?;
    Some(list.iter().map(|s| s.as_str().map(str::to_owned)).collect())
}

/// Parses `text` with `serde_json::from_str` into a `Value` and reads its
/// `pinnedFolders` list with `Value::get` and `as_array`, and each entry's
/// `path`, `name` and `icon` with `Value::get` and `as_str`. Claimed: the
/// result is `json_omadock_folders` of the text.
#[verifier::external_body]
fn omadock_json_folders(text: &str) -> (r: Option<Vec<FolderFields>>)
    ensures
        json_omadock_folders(text@) == match r {
            Some(v) => Some(v@.map_values(|f: FolderFields| fields_view(f))),
            None => None,
        },
{
    let v = serde_json::from_str::<serde_json::Value>(text).ok()?;
    let list = v.get("pinnedFolders")?.as_array()?;
    let field = |f: &serde_json::Value, k: &str| f.get(k).and_then(|x| x.as_str()).map(str::to_owned);
    Some(list.iter().map(|f| (field(f, "path"), field(f, "name"), field(f, "icon"))).collect())
}

/// What a first run takes from Omarchy's stock dock, given the text of
/// `dock.json` and of `omadock.json` where each could be read: the pinned
/// apps and the pinned folders.
pub fn omadock_import(dock_json: Option<&str>, omadock_json: Option<&str>) -> (r: (
    Vec<String>,
    Vec<Folder>,
))
    ensures
        strings(r.0@) == omadock_pins_of(
            match dock_json {
                Some(t) => json_dock_pins(t@),
                None => None,
            },
        ),
        r.1@.map_values(|f: Folder| folder_fields(f)) == match omadock_json {
            Some(t) => match json_omadock_folders(t@) {
                Some(l) => omadock_folders_all(l),
                None => Seq::empty(),
            },
            None => Seq::empty(),
        },
        forall|i: int| 0 <= i < r.1@.len() ==> (#[trigger] r.1@[i]).enabled,
{
    let pins = match dock_json {
        Some(t) => omadock_pins(dock_json_pins(t)),
        None => omadock_pins(None),
    };
    let folders = match omadock_json {
        Some(t) => omadock_folders(omadock_json_folders(t)),
        None => omadock_folders(None),
    };
    (pins, folders)
}

} // verus!
