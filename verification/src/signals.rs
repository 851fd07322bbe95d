//! The activity signals the desktop environment sends.
//!
//! These are the plain shapes in which collaborators — an idle
//! monitor, a virtual-desktop watcher — report what the user is
//! doing. The recorder is driven by them; it never talks to the
//! desktop itself.

use vstd::prelude::*;

verus! {

/// A report from the idle monitor: the user has gone idle, or has
/// come back.
pub enum IdleNotification {
    Idle,
    Resumed,
}

/// A message from a virtual-desktop watcher in its plainest form:
/// the user idled, became active again, or switched to a desktop
/// with the given name.
pub enum VDMessage {
    Idle,
    Active,
    DesktopChange(String),
}

/// The identifier a desktop environment gives one of its virtual
/// desktops.
#[derive(Debug, Clone, PartialEq, Eq)]
pub struct DesktopId(pub String);

/// A message from the virtual-desktop controller: the user idled or
/// resumed, switched desktops, or renamed a desktop.
#[derive(Debug, Clone, PartialEq, Eq)]
pub enum VirtualDesktopMessage {
    Idle,
    Active,
    DesktopChange(DesktopId),
    DesktopNameChanged(DesktopId, String),
}

} // verus!
