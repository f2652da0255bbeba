//! The folder-stack and Trash popovers: which rows they list and what each
//! offers. Listing the directory and drawing the rows are the application's.
//!
//! Rows carry their own reveal and remove buttons rather than a nested
//! context menu: the popover is already transient, and a second layer of
//! menus inside a layer-shell popover is fiddly to dismiss.
use vstd::prelude::*;
use crate::stacks::StackEntry;
use crate::text::{chars_of, concat, decimal, string_of, usize_to_string};

verus! {

/// How a file row's last button gets rid of the file.
#[derive(Debug, Clone, Copy, PartialEq, Eq, Structural)]
pub enum Removal {
    /// Into the Trash, for a folder stack's files.
    ToTrash,
    /// For good, for what is already in the Trash. Restoring is not offered:
    /// it needs the original path, and restoring to the wrong place is worse
    /// than not offering it.
    Permanently,
}

/// One file row: clicking it opens the file; beside it, a button reveals
/// the file in the file manager and one removes it.
#[derive(Debug)]
pub struct FileRow {
    pub path: String,
    pub name: String,
    /// Themed icon for the file itself.
    pub icon: String,
    pub removal: Removal,
}

/// What a popover's action row does.
#[derive(Debug)]
pub enum StackAction {
    /// Open this directory with the desktop's handler.
    OpenFolder(String),
    EmptyTrash,
}

/// One row of a stack popover.
#[derive(Debug)]
pub enum StackRow {
    Heading(String),
    File(FileRow),
    Separator,
    Action { label: String, action: StackAction },
}

/// A file row by its characters: path, name, icon, removal.
pub struct FileRowSpec {
    pub path: Seq<char>,
    pub name: Seq<char>,
    pub icon: Seq<char>,
    pub removal: Removal,
}

pub enum StackRowSpec {
    Heading(Seq<char>),
    File(FileRowSpec),
    Separator,
    OpenFolder(Seq<char>, Seq<char>),
    EmptyTrash(Seq<char>),
}

pub open spec fn file_row_spec(r: FileRow) -> FileRowSpec {
    FileRowSpec { path: r.path@, name: r.name@, icon: r.icon@, removal: r.removal }
}

pub open spec fn stack_row_spec(r: StackRow) -> StackRowSpec {
    match r {
        StackRow::Heading(h) => StackRowSpec::Heading(h@),
        StackRow::File(f) => StackRowSpec::File(file_row_spec(f)),
        StackRow::Separator => StackRowSpec::Separator,
        StackRow::Action { label, action } => match action {
            StackAction::OpenFolder(d) => StackRowSpec::OpenFolder(label@, d@),
            StackAction::EmptyTrash => StackRowSpec::EmptyTrash(label@),
        },
    }
}

pub open spec fn stack_rows_spec(s: Seq<StackRow>) -> Seq<StackRowSpec> {
    s.map_values(|r: StackRow| stack_row_spec(r))
}

/// The row for `entry`: a folder or a plain file icon, and the removal the
/// popover offers.
pub open spec fn file_row_of(entry: StackEntry, removal: Removal) -> FileRowSpec {
    FileRowSpec {
        path: entry.path@,
        name: entry.name@,
        icon: if entry.is_dir {
            "folder"@
        } else {
            "text-x-generic"@
        },
        removal,
    }
}

pub open spec fn file_rows(entries: Seq<StackEntry>, removal: Removal) -> Seq<StackRowSpec> {
    entries.map_values(|e: StackEntry| StackRowSpec::File(file_row_of(e, removal)))
}

/// How a folder stack's heading counts what it shows.
pub open spec fn count_text(n: nat) -> Seq<char> {
    if n == 0 {
        "empty"@
    } else if n == 1 {
        "1 item"@
    } else {
        decimal(n) + " recent"@
    }
}

/// A folder stack for `dir`, called `label`, showing `entries`: a heading
/// with the count, a row per entry with a move to the Trash, and a row
/// that opens the folder.
pub open spec fn folder_popover_of(dir: Seq<char>, label: Seq<char>, entries: Seq<StackEntry>) -> Seq<
    StackRowSpec,
> {
    seq![StackRowSpec::Heading(label + " — "@ + count_text(entries.len()))] + file_rows(
        entries,
        Removal::ToTrash,
    ) + seq![StackRowSpec::Separator, StackRowSpec::OpenFolder("Open folder"@, dir)]
}

/// The Trash at `trash_dir` showing `entries`: a heading that says when it
/// is empty, a row per entry with a permanent delete, emptying when there
/// is anything to empty, and a row that opens the Trash folder.
pub open spec fn trash_popover_of(trash_dir: Seq<char>, entries: Seq<StackEntry>) -> Seq<StackRowSpec> {
    seq![
        StackRowSpec::Heading(
            if entries.len() == 0 {
                "Trash — empty"@
            } else {
                "Trash"@
            },
        ),
    ] + file_rows(entries, Removal::Permanently) + (if entries.len() > 0 {
        seq![StackRowSpec::Separator, StackRowSpec::EmptyTrash("Empty Trash"@)]
    } else {
        Seq::empty()
    }) + seq![StackRowSpec::OpenFolder("Open Trash folder"@, trash_dir)]
}

fn text(s: &str) -> (r: String)
    ensures
        r@ == s@,
{
    string_of(&chars_of(s))
}

fn push_row(rows: &mut Vec<StackRow>, row: StackRow)
    ensures
        stack_rows_spec(final(rows)@) == stack_rows_spec(old(rows)@).push(stack_row_spec(row)),
{
    let ghost before = rows@;
    rows.push(row);
    assert(stack_rows_spec(rows@) =~= stack_rows_spec(before).push(stack_row_spec(row)));
}

/// The row for one file.
pub fn file_row(entry: &StackEntry, removal: Removal) -> (r: FileRow)
    ensures
        file_row_spec(r) == file_row_of(*entry, removal),
{
    FileRow {
        path: entry.path.clone(),
        name: entry.name.clone(),
        icon: if entry.is_dir {
            text("folder")
        } else {
            text("text-x-generic")
        },
        removal,
    }
}

fn push_file_rows(rows: &mut Vec<StackRow>, entries: &Vec<StackEntry>, removal: Removal)
    ensures
        stack_rows_spec(final(rows)@) == stack_rows_spec(old(rows)@) + file_rows(entries@, removal),
{
    let ghost start = stack_rows_spec(rows@);
    let mut i: usize = 0;
    assert(file_rows(entries@.take(0), removal) =~= Seq::<StackRowSpec>::empty());
    assert(stack_rows_spec(rows@) =~= start + file_rows(entries@.take(0), removal));
    while i < entries.len()
        invariant
            i <= entries@.len(),
            stack_rows_spec(rows@) == start + file_rows(entries@.take(i as int), removal),
        decreases entries.len() - i,
    {
        push_row(rows, StackRow::File(file_row(&entries[i], removal)));
        assert(entries@.take(i + 1) =~= entries@.take(i as int).push(entries@[i as int]));
        assert(file_rows(entries@.take(i + 1), removal) =~= file_rows(entries@.take(i as int), removal).push(
            StackRowSpec::File(file_row_of(entries@[i as int], removal)),
        ));
        i = i + 1;
    }
    assert(entries@.take(entries.len() as int) =~= entries@);
}

/// The heading count: `empty`, `1 item`, or how many recent entries.
fn count(n: usize) -> (r: String)
    ensures
        r@ == count_text(n as nat),
{
    if n == 0 {
        text("empty")
    } else if n == 1 {
        text("1 item")
    } else {
        string_of(&concat(&chars_of(usize_to_string(n).as_str()), &chars_of(" recent")))
    }
}

/// The rows of the popover for the folder stack at `dir`, called `label`,
/// showing `entries`.
pub fn folder_popover(dir: &str, label: &str, entries: &Vec<StackEntry>) -> (r: Vec<StackRow>)
    ensures
        stack_rows_spec(r@) == folder_popover_of(dir@, label@, entries@),
{
    let mut rows: Vec<StackRow> = Vec::new();
    let heading = concat(&concat(&chars_of(label), &chars_of(" — ")), &chars_of(count(entries.len()).as_str()));
    push_row(&mut rows, StackRow::Heading(string_of(&heading)));
    push_file_rows(&mut rows, entries, Removal::ToTrash);
    push_row(&mut rows, StackRow::Separator);
    push_row(
        &mut rows,
        StackRow::Action { label: text("Open folder"), action: StackAction::OpenFolder(text(dir)) },
    );
    proof {
        assert(stack_rows_spec(rows@) =~= folder_popover_of(dir@, label@, entries@));
    }
    rows
}

/// The rows of the Trash popover for the Trash at `trash_dir`, showing
/// `entries`.
pub fn trash_popover(trash_dir: &str, entries: &Vec<StackEntry>) -> (r: Vec<StackRow>)
    ensures
        stack_rows_spec(r@) == trash_popover_of(trash_dir@, entries@),
{
    let mut rows: Vec<StackRow> = Vec::new();
    let heading = if entries.len() == 0 {
        text("Trash — empty")
    } else {
        text("Trash")
    };
    push_row(&mut rows, StackRow::Heading(heading));
    push_file_rows(&mut rows, entries, Removal::Permanently);
    let ghost before_empty = stack_rows_spec(rows@);
    if entries.len() > 0 {
        push_row(&mut rows, StackRow::Separator);
        push_row(&mut rows, StackRow::Action { label: text("Empty Trash"), action: StackAction::EmptyTrash });
    }
    push_row(
        &mut rows,
        StackRow::Action {
            label: text("Open Trash folder"),
            action: StackAction::OpenFolder(text(trash_dir)),
        },
    );
    proof {
        assert(stack_rows_spec(rows@) =~= trash_popover_of(trash_dir@, entries@));
    }
    rows
}

} // verus!
