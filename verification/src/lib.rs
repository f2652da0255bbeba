use vstd::prelude::*;

pub mod text;
pub mod hypr;
pub mod ipc_ctl;
pub mod desktop;
pub mod state;
pub mod config;
pub mod paths;
pub mod lists;
pub mod integrate;
pub mod theme;
pub mod tray;
pub mod omarchy;
pub mod stacks;
pub mod autohide;
pub mod pins;
pub mod menu;
pub mod popover;

verus! {
} // verus!
