//! Typed views over Hyprland's JSON, holding only the fields the dock uses.
//!
//! Deserialisation happens in the application; these are the plain values
//! the dock's logic reads.
use vstd::prelude::*;
use super::Address;
use crate::text::{chars_of, starts_with, starts_with_vec};

verus! {

#[derive(Debug)]
pub struct WorkspaceRef {
    pub id: i32,
    pub name: String,
}

#[derive(Debug)]
pub struct Client {
    pub address: Address,
    pub class: String,
    pub title: String,
    pub initial_class: String,
    pub workspace: WorkspaceRef,
    pub monitor: i32,
    pub pid: i32,
    pub floating: bool,
    pub hidden: bool,
    pub mapped: bool,
    pub fullscreen: i32,
    pub at: (i32, i32),
    pub size: (i32, i32),
    /// Lower means more recently focused; 0 is the active window.
    pub focus_history_id: i32,
}

/// Whether a workspace name denotes a special (scratchpad) workspace.
pub open spec fn is_special_name(name: Seq<char>) -> bool {
    starts_with(name, "special"@)
}

pub fn is_special_name_exec(name: &str) -> (r: bool)
    ensures
        r == is_special_name(name@),
{
    starts_with_vec(&chars_of(name), &chars_of("special"))
}

/// The class a client is matched against desktop entries by: its initial
/// class, or its current class when Hyprland reports no initial one.
pub open spec fn client_match_key(c: Client) -> Seq<char> {
    if c.initial_class@.len() == 0 {
        c.class@
    } else {
        c.initial_class@
    }
}

impl Client {
    /// Whether this client sits on a special (scratchpad) workspace.
    pub fn is_special(&self) -> (r: bool)
        ensures
            r == is_special_name(self.workspace.name@),
    {
        is_special_name_exec(self.workspace.name.as_str())
    }

    /// The best identifier to match against a desktop entry.
    pub fn match_key(&self) -> (r: &str)
        ensures
            r@ == client_match_key(*self),
    {
        if self.initial_class.as_str().is_empty() {
            self.class.as_str()
        } else {
            self.initial_class.as_str()
        }
    }
}

#[derive(Debug)]
pub struct Workspace {
    pub id: i32,
    pub name: String,
    pub monitor: String,
    pub monitor_id: i32,
    pub windows: i32,
}

impl Workspace {
    pub fn is_special(&self) -> (r: bool)
        ensures
            r == is_special_name(self.name@),
    {
        is_special_name_exec(self.name.as_str())
    }
}

/// A monitor as the dock's logic sees it. The output scale, which only the
/// pixel geometry uses, stays with the application.
#[derive(Debug)]
pub struct Monitor {
    pub id: i32,
    pub name: String,
    pub width: i32,
    pub height: i32,
    pub x: i32,
    pub y: i32,
    pub focused: bool,
    pub active_workspace: WorkspaceRef,
    /// Name is empty when no special workspace is open on this monitor.
    pub special_workspace: Option<WorkspaceRef>,
}

impl Clone for WorkspaceRef {
    fn clone(&self) -> (r: Self)
        ensures
            r == *self,
    {
        WorkspaceRef { id: self.id, name: self.name.clone() }
    }
}

impl Clone for Client {
    fn clone(&self) -> (r: Self)
        ensures
            r == *self,
    {
        Client {
            address: self.address.clone(),
            class: self.class.clone(),
            title: self.title.clone(),
            initial_class: self.initial_class.clone(),
            workspace: self.workspace.clone(),
            monitor: self.monitor,
            pid: self.pid,
            floating: self.floating,
            hidden: self.hidden,
            mapped: self.mapped,
            fullscreen: self.fullscreen,
            at: self.at,
            size: self.size,
            focus_history_id: self.focus_history_id,
        }
    }
}

impl Clone for Workspace {
    fn clone(&self) -> (r: Self)
        ensures
            r == *self,
    {
        Workspace {
            id: self.id,
            name: self.name.clone(),
            monitor: self.monitor.clone(),
            monitor_id: self.monitor_id,
            windows: self.windows,
        }
    }
}

impl Clone for Monitor {
    fn clone(&self) -> (r: Self)
        ensures
            r == *self,
    {
        Monitor {
            id: self.id,
            name: self.name.clone(),
            width: self.width,
            height: self.height,
            x: self.x,
            y: self.y,
            focused: self.focused,
            active_workspace: self.active_workspace.clone(),
            special_workspace: match &self.special_workspace {
                Some(w) => Some(w.clone()),
                None => None,
            },
        }
    }
}

} // verus!
