//! Decisions of the desktop shell: what a global shortcut does, whether the
//! main window is hidden or shown, and how the tray icon and the taskbar
//! button follow the settings.

use vstd::prelude::*;
use crate::text::str_eq;

verus! {

/// What a global shortcut event does.
pub enum ShortcutAction {
    Nothing,
    /// Hide or show the main window.
    ToggleWindow,
    /// Quit the application.
    Quit,
}

/// The action of a shortcut of kind `kind` ("toggle" or "quit"): only a
/// key press acts.
pub fn shortcut_action(pressed: bool, kind: &str) -> (a: ShortcutAction)
    ensures
        a == if !pressed {
            ShortcutAction::Nothing
        } else if kind@ == "toggle"@ {
            ShortcutAction::ToggleWindow
        } else if kind@ == "quit"@ {
            ShortcutAction::Quit
        } else {
            ShortcutAction::Nothing
        },
{
    proof {
        reveal_strlit("toggle");
        reveal_strlit("quit");
    }
    if !pressed {
        ShortcutAction::Nothing
    } else if str_eq(kind, "toggle") {
        ShortcutAction::ToggleWindow
    } else if str_eq(kind, "quit") {
        ShortcutAction::Quit
    } else {
        ShortcutAction::Nothing
    }
}

/// Whether toggling hides the main window: when it is visible (and, on
/// Windows, not minimized); otherwise it is shown.
pub fn window_should_hide(windows: bool, visible: bool, minimized: bool) -> (b: bool)
    ensures
        b == (visible && !(windows && minimized)),
{
    if windows {
        visible && !minimized
    } else {
        visible
    }
}

/// What applying the settings does to the tray icon.
pub enum TrayAction {
    /// Create the tray icon.
    Create,
    /// Remove the tray icon.
    Remove,
    /// Leave it as it is.
    Keep,
}

/// The tray icon is created when it should show and does not exist yet,
/// and removed whenever it should not show.
pub fn tray_action(show_tray_icon: bool, tray_exists: bool) -> (a: TrayAction)
    ensures
        a == if show_tray_icon && !tray_exists {
            TrayAction::Create
        } else if !show_tray_icon {
            TrayAction::Remove
        } else {
            TrayAction::Keep
        },
{
    if show_tray_icon && !tray_exists {
        TrayAction::Create
    } else if !show_tray_icon {
        TrayAction::Remove
    } else {
        TrayAction::Keep
    }
}

/// The main window's extended style for a shown or hidden taskbar button:
/// a tool window (`tool_window` bit set) has no taskbar button.
pub fn taskbar_ex_style(ex_style: i32, tool_window: i32, show: bool) -> (r: i32)
    ensures
        r == if show {
            ex_style & !tool_window
        } else {
            ex_style | tool_window
        },
{
    if show {
        ex_style & !tool_window
    } else {
        ex_style | tool_window
    }
}

} // verus!
