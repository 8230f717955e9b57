//! Tag windows of a tiling window manager and show or hide them as a group.
//!
//! The library holds the membership state of tagged and untagged windows, the
//! transitions that events make on it, the commands each transition issues,
//! and the parsing of window-manager notifications and client requests.
pub mod node;
pub mod state;
pub mod event;
pub mod dispatch;
