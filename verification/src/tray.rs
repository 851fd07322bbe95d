//! The tray icon's menu, as decisions.
//!
//! The menu shown from the tray is a single root with one child,
//! the "Quit" item. The bus plumbing that serves it lives with the
//! process shell; what the menu answers is decided here.

use vstd::prelude::*;

verus! {

/// The tray menu model: a root (id 0) whose one child is the
/// "Quit" item.
pub struct DbusMenu();

impl DbusMenu {
    pub fn new() -> DbusMenu {
        DbusMenu()
    }

    /// Whether a layout exists under the given parent: only the
    /// root has one.
    pub fn has_layout(&self, parent_id: i32) -> (r: bool)
        ensures
            r == (parent_id == 0),
    {
        parent_id == 0
    }

    /// The id of the menu's one child, the "Quit" item.
    pub fn quit_item_id(&self) -> (r: i32)
        ensures
            r == 1,
    {
        1
    }

    /// The label of the menu's one child.
    pub fn quit_label(&self) -> (r: String)
        ensures
            r@ == "Quit"@,
    {
        String::from_str("Quit")
    }

    /// The menu protocol revision the menu reports.
    pub fn version(&self) -> (r: u32)
        ensures
            r == 3,
    {
        3
    }
}

} // verus!
