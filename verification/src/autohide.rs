//! Auto-hide policy: whether the dock should be hidden, and on what it
//! depends.
//!
//! Deciding *whether* to hide is separated from the animation that performs
//! it. The dock's own rectangle is laid out in fractional logical pixels by
//! the application, so the final overlap test is the application's; which
//! window that test is about, if any, is decided here.
use vstd::prelude::*;
use crate::config::HideMode;
use crate::hypr::model::{is_special_name, Client};

verus! {

/// What hiding depends on.
#[derive(Debug, Clone, Copy, PartialEq, Eq, Structural)]
pub enum HideVerdict {
    /// Stay visible.
    Show,
    /// Stay hidden until the pointer reaches the trigger edge.
    Hide,
    /// Hide exactly while this window rectangle, in layout coordinates,
    /// overlaps the dock; touching edges do not count.
    IfCovered { x: i32, y: i32, w: i32, h: i32 },
}

/// Whether the dock should hide under `mode`, on monitor `monitor_id`, with
/// `focused` the focused window.
///
/// `Intelligent` hides only when the focused window would sit under the
/// dock: a background window under it is not something the user is looking
/// at, and an empty desktop keeps the dock in view. A window on another
/// monitor, on a special workspace, unmapped or hidden covers nothing.
pub open spec fn verdict(mode: HideMode, monitor_id: i32, focused: Option<Client>) -> HideVerdict {
    match mode {
        HideMode::Never => HideVerdict::Show,
        HideMode::Always => HideVerdict::Hide,
        HideMode::Intelligent => match focused {
            None => HideVerdict::Show,
            Some(c) => if c.monitor != monitor_id || is_special_name(c.workspace.name@) || !c.mapped
                || c.hidden {
                HideVerdict::Show
            } else {
                HideVerdict::IfCovered { x: c.at.0, y: c.at.1, w: c.size.0, h: c.size.1 }
            },
        },
    }
}

pub fn hide_verdict(mode: HideMode, monitor_id: i32, focused: Option<&Client>) -> (r: HideVerdict)
    ensures
        r == verdict(
            mode,
            monitor_id,
            match focused {
                Some(c) => Some(*c),
                None => None,
            },
        ),
{
    match mode {
        HideMode::Never => HideVerdict::Show,
        HideMode::Always => HideVerdict::Hide,
        HideMode::Intelligent => match focused {
            None => HideVerdict::Show,
            Some(c) => if c.monitor != monitor_id || c.is_special() || !c.mapped || c.hidden {
                HideVerdict::Show
            } else {
                HideVerdict::IfCovered { x: c.at.0, y: c.at.1, w: c.size.0, h: c.size.1 }
            },
        },
    }
}

} // verus!
