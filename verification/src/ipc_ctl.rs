//! The dock's own control protocol.
//!
//! A layer-shell surface cannot grab `Super+1`: global shortcuts belong to
//! the compositor. So Hyprland binds the key to `omarchy-dockctl activate 1`,
//! which writes one line to the dock's control socket, and the dock acts on
//! it. Serving the socket is the application's job; what a line means is
//! decided here.
use vstd::prelude::*;
use crate::text::{chars_of, parse_usize, parse_usize_vec, seq_eq, words, words_vec};

verus! {

/// A request from `omarchy-dockctl`.
#[derive(Debug, Clone, Copy, PartialEq, Eq)]
pub enum Control {
    /// Focus, cycle, or launch the nth dock item (0-based here; the wire
    /// form is 1-based, as typed by users).
    Activate(usize),
    /// Force the dock visible, hidden, or back to its configured behaviour.
    Reveal,
    Hide,
    ToggleAutohide,
    /// Re-read config and rebuild.
    Reload,
    /// Theme only: what Omarchy's theme-set hook sends once a theme has been
    /// applied. Restyling keeps hover and slide state, and rebuilds only if
    /// the new theme actually moves the geometry.
    Restyle,
}

/// What one command line means. Unknown verbs are rejected rather than
/// ignored, so a typo in a keybinding is visible instead of silently doing
/// nothing.
pub open spec fn control_of(line: Seq<char>) -> Option<Control> {
    let w = words(line);
    if w.len() == 0 {
        None
    } else if w[0] == "activate"@ {
        if w.len() < 2 {
            None
        } else {
            match parse_usize(w[1]) {
                Some(n) => if n >= 1 {
                    Some(Control::Activate((n - 1) as usize))
                } else {
                    None
                },
                None => None,
            }
        }
    } else if w[0] == "reveal"@ {
        Some(Control::Reveal)
    } else if w[0] == "hide"@ {
        Some(Control::Hide)
    } else if w[0] == "toggle-autohide"@ {
        Some(Control::ToggleAutohide)
    } else if w[0] == "reload"@ {
        Some(Control::Reload)
    } else if w[0] == "restyle"@ {
        Some(Control::Restyle)
    } else {
        None
    }
}

/// Parse one command line.
pub fn parse(line: &str) -> (r: Option<Control>)
    ensures
        r == control_of(line@),
{
    let w = words_vec(&chars_of(line));
    proof {
        assert(w@.map_values(|v: Vec<char>| v@).len() == w@.len());
    }
    if w.len() == 0 {
        return None;
    }
    let verb = &w[0];
    assert(words(line@)[0] == w@[0]@);
    if seq_eq(verb, &chars_of("activate")) {
        if w.len() < 2 {
            return None;
        }
        assert(words(line@)[1] == w@[1]@);
        match parse_usize_vec(&w[1]) {
            // 1-based on the wire because keybindings read `activate 1`.
            Some(n) => if n >= 1 {
                Some(Control::Activate(n - 1))
            } else {
                None
            },
            None => None,
        }
    } else if seq_eq(verb, &chars_of("reveal")) {
        Some(Control::Reveal)
    } else if seq_eq(verb, &chars_of("hide")) {
        Some(Control::Hide)
    } else if seq_eq(verb, &chars_of("toggle-autohide")) {
        Some(Control::ToggleAutohide)
    } else if seq_eq(verb, &chars_of("reload")) {
        Some(Control::Reload)
    } else if seq_eq(verb, &chars_of("restyle")) {
        Some(Control::Restyle)
    } else {
        None
    }
}


/// The control socket, `omarchy-dock.sock` in the user's runtime directory
/// `runtime_dir` (user-private, so no authentication is needed beyond the
/// filesystem), or in `/tmp` without one.
pub fn socket_path(runtime_dir: Option<&str>) -> (r: String)
    ensures
        r@ == crate::hypr::join_path(
            match runtime_dir {
                Some(d) => d@,
                None => "/tmp"@,
            },
            "omarchy-dock.sock"@,
        ),
{
    match runtime_dir {
        Some(d) => crate::hypr::join_path_exec(d, "omarchy-dock.sock"),
        None => crate::hypr::join_path_exec("/tmp", "omarchy-dock.sock"),
    }
}

} // verus!
