//! The right-click menu on a dock item: which rows it offers, in what order,
//! and what each row asks for. Drawing the rows is the application's.
//!
//! The rows are dynamic — one per open window, one per desktop action — so
//! the menu is built afresh for each item from what the item shows.
use vstd::prelude::*;
use crate::desktop::{strip_field_codes, ActionView, command_of};
use crate::hypr::Address;
use crate::omarchy::{surface_label, Surface};
use crate::state::DockItem;
use crate::text::{chars_of, concat, decimal, seq_eq, string_of, usize_to_string};

verus! {

/// What the dock asks its worker to do.
#[derive(Debug)]
pub enum DockCommand {
    /// Focus this window.
    Focus(Address),
    /// Run this command line.
    Exec(String),
    /// Close this window.
    Close(Address),
}

/// What a menu row asks for after the menu closes.
#[derive(Debug)]
pub enum MenuAction {
    Command(DockCommand),
    /// Add or remove this item from the pinned list, and persist it.
    SetPinned { key: String, pinned: bool },
    /// Something on disk changed; re-read state so the Trash icon and stack
    /// contents catch up.
    Rescan,
}

/// One row of the menu.
#[derive(Debug)]
pub enum MenuRow {
    Heading(String),
    /// A clickable row, and what clicking it asks for, in order.
    Item { label: String, actions: Vec<MenuAction> },
    Separator,
}

/// A menu action by its characters.
pub enum ActionSpec {
    Focus(Seq<char>),
    Exec(Seq<char>),
    Close(Seq<char>),
    SetPinned(Seq<char>, bool),
    Rescan,
}

/// A menu row by its characters.
pub enum RowSpec {
    Heading(Seq<char>),
    Item(Seq<char>, Seq<ActionSpec>),
    Separator,
}

pub open spec fn action_spec(a: MenuAction) -> ActionSpec {
    match a {
        MenuAction::Command(DockCommand::Focus(w)) => ActionSpec::Focus(w@),
        MenuAction::Command(DockCommand::Exec(c)) => ActionSpec::Exec(c@),
        MenuAction::Command(DockCommand::Close(w)) => ActionSpec::Close(w@),
        MenuAction::SetPinned { key, pinned } => ActionSpec::SetPinned(key@, pinned),
        MenuAction::Rescan => ActionSpec::Rescan,
    }
}

pub open spec fn actions_spec(s: Seq<MenuAction>) -> Seq<ActionSpec> {
    s.map_values(|a: MenuAction| action_spec(a))
}

pub open spec fn row_spec(r: MenuRow) -> RowSpec {
    match r {
        MenuRow::Heading(h) => RowSpec::Heading(h@),
        MenuRow::Item { label, actions } => RowSpec::Item(label@, actions_spec(actions@)),
        MenuRow::Separator => RowSpec::Separator,
    }
}

pub open spec fn rows_spec(s: Seq<MenuRow>) -> Seq<RowSpec> {
    s.map_values(|r: MenuRow| row_spec(r))
}

/// One row per window among the first `n`, each focusing its window.
pub open spec fn window_rows(windows: Seq<Seq<char>>, n: nat) -> Seq<RowSpec>
    decreases n,
{
    if n == 0 || n > windows.len() {
        Seq::empty()
    } else {
        window_rows(windows, (n - 1) as nat).push(
            RowSpec::Item("Window "@ + decimal(n), seq![ActionSpec::Focus(windows[n - 1])]),
        )
    }
}

/// One row per desktop action among the first `n` whose command is not
/// empty, each running that command.
pub open spec fn action_rows(actions: Seq<ActionView>, n: nat) -> Seq<RowSpec>
    decreases n,
{
    if n == 0 || n > actions.len() {
        Seq::empty()
    } else {
        let prev = action_rows(actions, (n - 1) as nat);
        let a = actions[n - 1];
        if command_of(a.exec_line).len() == 0 {
            prev
        } else {
            prev.push(RowSpec::Item(a.name, seq![ActionSpec::Exec(command_of(a.exec_line))]))
        }
    }
}

pub open spec fn close_all(windows: Seq<Seq<char>>) -> Seq<ActionSpec> {
    windows.map_values(|w: Seq<char>| ActionSpec::Close(w))
}

/// The menu for an item showing `windows` and desktop `actions`, keyed
/// `key`, pinned or not:
///
/// - with more than one window, a heading counting them and a row per
///   window, so a multi-window app can be steered directly instead of only
///   cycled through, then a separator;
/// - with desktop actions, a row for each that has a command, then a
///   separator;
/// - except on Trash, a row that pins or unpins the item;
/// - while it runs, a row that closes every window: what "Quit" means for a
///   dock item, the app exiting once its last window goes.
pub open spec fn menu_of(
    windows: Seq<Seq<char>>,
    actions: Seq<ActionView>,
    key: Seq<char>,
    pinned: bool,
) -> Seq<RowSpec> {
    let n = windows.len();
    let wins = if n > 1 {
        seq![RowSpec::Heading(decimal(n) + " windows"@)] + window_rows(windows, n) + seq![
            RowSpec::Separator,
        ]
    } else {
        Seq::empty()
    };
    let acts = if actions.len() > 0 {
        action_rows(actions, actions.len()) + seq![RowSpec::Separator]
    } else {
        Seq::empty()
    };
    let pin = if key != "__trash"@ {
        seq![
            RowSpec::Item(
                if pinned {
                    "Remove from Dock"@
                } else {
                    "Keep in Dock"@
                },
                seq![ActionSpec::SetPinned(key, !pinned)],
            ),
        ]
    } else {
        Seq::empty()
    };
    let quit = if n > 0 {
        seq![
            RowSpec::Item(
                if n > 1 {
                    "Quit All"@
                } else {
                    "Quit"@
                },
                close_all(windows),
            ),
        ]
    } else {
        Seq::empty()
    };
    wins + acts + pin + quit
}

fn text(s: &str) -> (r: String)
    ensures
        r@ == s@,
{
    string_of(&chars_of(s))
}

fn push_row(rows: &mut Vec<MenuRow>, row: MenuRow)
    ensures
        rows_spec(final(rows)@) == rows_spec(old(rows)@).push(row_spec(row)),
{
    let ghost before = rows@;
    rows.push(row);
    assert(rows_spec(rows@) =~= rows_spec(before).push(row_spec(row)));
}

fn one_action(a: MenuAction) -> (r: Vec<MenuAction>)
    ensures
        actions_spec(r@) == seq![action_spec(a)],
{
    let mut v: Vec<MenuAction> = Vec::new();
    v.push(a);
    assert(actions_spec(v@) =~= seq![action_spec(a)]);
    v
}

/// Build (but do not show) the context menu for `item`.
pub fn context_menu(item: &DockItem) -> (r: Vec<MenuRow>)
    ensures
        rows_spec(r@) == menu_of(item@.windows, item@.actions, item@.key, item@.pinned),
{
    let ghost ws = item@.windows;
    let ghost acts = item@.actions;
    let mut rows: Vec<MenuRow> = Vec::new();
    let n = item.windows.len();
    assert(ws.len() == n);
    // ── open windows ────────────────────────────────────────────────────────
    if n > 1 {
        let count = concat(&chars_of(usize_to_string(n).as_str()), &chars_of(" windows"));
        push_row(&mut rows, MenuRow::Heading(string_of(&count)));
        let mut i: usize = 0;
        assert(rows_spec(rows@) =~= seq![RowSpec::Heading(decimal(n as nat) + " windows"@)]
            + window_rows(ws, 0));
        while i < n
            invariant
                i <= n == item.windows@.len(),
                ws == item@.windows,
                rows_spec(rows@) == seq![RowSpec::Heading(decimal(n as nat) + " windows"@)]
                    + window_rows(ws, i as nat),
            decreases n - i,
        {
            let label = concat(&chars_of("Window "), &chars_of(usize_to_string(i + 1).as_str()));
            let w = item.windows[i].clone();
            assert(w@ == ws[i as int]);
            push_row(
                &mut rows,
                MenuRow::Item {
                    label: string_of(&label),
                    actions: one_action(MenuAction::Command(DockCommand::Focus(w))),
                },
            );
            i = i + 1;
            assert(rows_spec(rows@) =~= seq![RowSpec::Heading(decimal(n as nat) + " windows"@)]
                + window_rows(ws, i as nat));
        }
        push_row(&mut rows, MenuRow::Separator);
    }
    let ghost after_windows = rows_spec(rows@);
    // ── desktop actions ─────────────────────────────────────────────────────
    if item.actions.len() > 0 {
        let mut k: usize = 0;
        assert(rows_spec(rows@) =~= after_windows + action_rows(acts, 0));
        while k < item.actions.len()
            invariant
                k <= item.actions@.len() == acts.len(),
                acts == item@.actions,
                rows_spec(rows@) == after_windows + action_rows(acts, k as nat),
            decreases item.actions.len() - k,
        {
            let exec = strip_field_codes(item.actions[k].exec_line.as_str());
            assert(acts[k as int].exec_line == item.actions@[k as int].exec_line@);
            let nonempty = chars_of(exec.as_str()).len() > 0;
            if nonempty {
                push_row(
                    &mut rows,
                    MenuRow::Item {
                        label: item.actions[k].name.clone(),
                        actions: one_action(MenuAction::Command(DockCommand::Exec(exec))),
                    },
                );
            }
            k = k + 1;
            assert(rows_spec(rows@) =~= after_windows + action_rows(acts, k as nat));
        }
        push_row(&mut rows, MenuRow::Separator);
    }
    let ghost after_actions = rows_spec(rows@);
    // ── pinning ─────────────────────────────────────────────────────────────
    if !seq_eq(&chars_of(item.key.as_str()), &chars_of("__trash")) {
        let label = if item.pinned {
            text("Remove from Dock")
        } else {
            text("Keep in Dock")
        };
        let set = MenuAction::SetPinned { key: item.key.clone(), pinned: !item.pinned };
        push_row(&mut rows, MenuRow::Item { label, actions: one_action(set) });
    }
    let ghost after_pin = rows_spec(rows@);
    // ── quit ────────────────────────────────────────────────────────────────
    if n > 0 {
        let mut closes: Vec<MenuAction> = Vec::new();
        let mut j: usize = 0;
        assert(actions_spec(closes@) =~= close_all(ws.take(0)));
        while j < n
            invariant
                j <= n == item.windows@.len(),
                ws == item@.windows,
                actions_spec(closes@) == close_all(ws.take(j as int)),
            decreases n - j,
        {
            let ghost before = closes@;
            let w = item.windows[j].clone();
            assert(w@ == ws[j as int]);
            closes.push(MenuAction::Command(DockCommand::Close(w)));
            assert(actions_spec(closes@) =~= actions_spec(before).push(ActionSpec::Close(ws[j as int])));
            assert(ws.take(j + 1) =~= ws.take(j as int).push(ws[j as int]));
            assert(close_all(ws.take(j + 1)) =~= close_all(ws.take(j as int)).push(ActionSpec::Close(ws[j as int])));
            assert(actions_spec(closes@) =~= close_all(ws.take(j + 1)));
            j = j + 1;
        }
        assert(ws.take(n as int) =~= ws);
        let label = if n > 1 {
            text("Quit All")
        } else {
            text("Quit")
        };
        push_row(&mut rows, MenuRow::Item { label, actions: closes });
    }
    proof {
        assert(rows_spec(rows@) =~= menu_of(ws, acts, item@.key, item@.pinned));
    }
    rows
}

// ── the launcher's menu ─────────────────────────────────────────────────────

/// What a row of the launcher's right-click menu does.
#[derive(Debug, Clone, Copy, PartialEq, Eq, Structural)]
pub enum LauncherAction {
    /// Raise one of the shell's own surfaces over IPC, rather than the dock
    /// drawing a lookalike.
    OpenSurface(Surface),
    /// Open the settings window, or raise the one already open.
    Settings,
    /// Add a separator to the pinned list.
    AddSeparator,
    /// Open the config file with the desktop's handler.
    EditConfig,
}

/// One row of the launcher's menu.
#[derive(Debug)]
pub enum LauncherRow {
    Heading(String),
    Item { label: String, action: LauncherAction },
    Separator,
}

pub enum LauncherRowSpec {
    Heading(Seq<char>),
    Item(Seq<char>, LauncherAction),
    Separator,
}

pub open spec fn launcher_row_spec(r: LauncherRow) -> LauncherRowSpec {
    match r {
        LauncherRow::Heading(h) => LauncherRowSpec::Heading(h@),
        LauncherRow::Item { label, action } => LauncherRowSpec::Item(label@, action),
        LauncherRow::Separator => LauncherRowSpec::Separator,
    }
}

pub open spec fn launcher_rows_spec(s: Seq<LauncherRow>) -> Seq<LauncherRowSpec> {
    s.map_values(|r: LauncherRow| launcher_row_spec(r))
}

pub open spec fn surface_row(s: Surface) -> LauncherRowSpec {
    LauncherRowSpec::Item(surface_label(s), LauncherAction::OpenSurface(s))
}

/// The launcher's menu: the shell's surfaces under "Omarchy", in the order
/// `Surface::all` gives them, then the dock's own entries under "Dock".
pub open spec fn launcher_menu_of() -> Seq<LauncherRowSpec> {
    seq![
        LauncherRowSpec::Heading("Omarchy"@),
        surface_row(Surface::Menu),
        surface_row(Surface::Themes),
        surface_row(Surface::Backgrounds),
        surface_row(Surface::Clipboard),
        surface_row(Surface::Emojis),
        LauncherRowSpec::Separator,
        LauncherRowSpec::Heading("Dock"@),
        LauncherRowSpec::Item("Settings…"@, LauncherAction::Settings),
        LauncherRowSpec::Item("Add separator"@, LauncherAction::AddSeparator),
        LauncherRowSpec::Item("Edit config file…"@, LauncherAction::EditConfig),
    ]
}

fn push_launcher_row(rows: &mut Vec<LauncherRow>, row: LauncherRow)
    ensures
        launcher_rows_spec(final(rows)@) == launcher_rows_spec(old(rows)@).push(launcher_row_spec(row)),
{
    let ghost before = rows@;
    rows.push(row);
    assert(launcher_rows_spec(rows@) =~= launcher_rows_spec(before).push(launcher_row_spec(row)));
}

/// Build (but do not show) the launcher's right-click menu.
pub fn launcher_menu() -> (r: Vec<LauncherRow>)
    ensures
        launcher_rows_spec(r@) == launcher_menu_of(),
{
    let mut rows: Vec<LauncherRow> = Vec::new();
    push_launcher_row(&mut rows, LauncherRow::Heading(text("Omarchy")));
    let all = Surface::all();
    let mut i: usize = 0;
    while i < 5
        invariant
            i <= 5,
            all@ == seq![
                Surface::Menu,
                Surface::Themes,
                Surface::Backgrounds,
                Surface::Clipboard,
                Surface::Emojis,
            ],
            launcher_rows_spec(rows@) == seq![LauncherRowSpec::Heading("Omarchy"@)] + all@.take(
                i as int,
            ).map_values(|s: Surface| surface_row(s)),
        decreases 5 - i,
    {
        let s = all[i];
        push_launcher_row(
            &mut rows,
            LauncherRow::Item { label: text(s.label()), action: LauncherAction::OpenSurface(s) },
        );
        assert(all@.take(i + 1) =~= all@.take(i as int).push(s));
        assert(all@.take(i + 1).map_values(|s: Surface| surface_row(s)) =~= all@.take(
            i as int,
        ).map_values(|s: Surface| surface_row(s)).push(surface_row(s)));
        i = i + 1;
    }
    push_launcher_row(&mut rows, LauncherRow::Separator);
    push_launcher_row(&mut rows, LauncherRow::Heading(text("Dock")));
    push_launcher_row(
        &mut rows,
        LauncherRow::Item { label: text("Settings…"), action: LauncherAction::Settings },
    );
    push_launcher_row(
        &mut rows,
        LauncherRow::Item { label: text("Add separator"), action: LauncherAction::AddSeparator },
    );
    push_launcher_row(
        &mut rows,
        LauncherRow::Item { label: text("Edit config file…"), action: LauncherAction::EditConfig },
    );
    proof {
        assert(all@.take(5) =~= all@);
        assert(launcher_rows_spec(rows@) =~= launcher_menu_of());
    }
    rows
}

} // verus!
