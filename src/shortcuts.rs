//! Keyboard shortcuts: with Ctrl held, `a`, `c` and `v` pick the status filter and `d`
//! switches between light and dark mode.
use vstd::prelude::*;

use crate::text::same_text;
use crate::todo::FilterState;

verus! {

/// What a key press asks for.
#[derive(Clone, Copy, Debug, PartialEq, Eq, Structural)]
pub enum ShortcutAction {
    /// Show the todos that the filter admits.
    SetFilter(FilterState),
    /// Switch between light and dark mode.
    ToggleTheme,
}

/// The action bound to a key, pressed with or without Ctrl.
pub open spec fn shortcut_for(ctrl: bool, key: Seq<char>) -> Option<ShortcutAction> {
    if !ctrl {
        None
    } else if key == "a"@ {
        Some(ShortcutAction::SetFilter(FilterState::All))
    } else if key == "c"@ {
        Some(ShortcutAction::SetFilter(FilterState::Completed))
    } else if key == "v"@ {
        Some(ShortcutAction::SetFilter(FilterState::Active))
    } else if key == "d"@ {
        Some(ShortcutAction::ToggleTheme)
    } else {
        None
    }
}

/// The action that a key press asks for, if any; the caller then performs it and stops the
/// key's default handling.
pub fn shortcut_action(ctrl: bool, key: &str) -> (r: Option<ShortcutAction>)
    ensures
        r == shortcut_for(ctrl, key@),
{
    if !ctrl {
        None
    } else if same_text(key, "a") {
        Some(ShortcutAction::SetFilter(FilterState::All))
    } else if same_text(key, "c") {
        Some(ShortcutAction::SetFilter(FilterState::Completed))
    } else if same_text(key, "v") {
        Some(ShortcutAction::SetFilter(FilterState::Active))
    } else if same_text(key, "d") {
        Some(ShortcutAction::ToggleTheme)
    } else {
        None
    }
}

} // verus!
