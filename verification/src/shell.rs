//! What the window and the tray show.
//!
//! The shell itself belongs to the caller. This module holds the choices
//! that the shell makes: which icon stands for a status, which command a
//! menu entry stands for, and what a click on "show or hide" does.

use vstd::prelude::*;
use crate::scheduler::Status;
use crate::text::same_text;

verus! {

/// The name of the icon that stands for a status.
pub open spec fn icon_of(status: Status) -> Seq<char> {
    match status {
        Status::Unset => "sync-unset.png"@,
        Status::Running => "sync-running.png"@,
        Status::Idle => "sync-done.png"@,
    }
}

/// The name of the icon that stands for `status`.
pub fn icon_name(status: Status) -> (name: &'static str)
    ensures
        name@ == icon_of(status),
{
    match status {
        Status::Unset => "sync-unset.png",
        Status::Running => "sync-running.png",
        Status::Idle => "sync-done.png",
    }
}

/// A command of the tray menu.
#[derive(Clone, Copy, Debug, PartialEq, Eq, Structural)]
pub enum MenuCommand {
    ShowOrHide,
    ForceSync,
    Quit,
}

/// The command that a menu entry stands for.
pub open spec fn menu_command(id: Seq<char>) -> Option<MenuCommand> {
    if id == "show_or_hide"@ {
        Some(MenuCommand::ShowOrHide)
    } else if id == "force_sync"@ {
        Some(MenuCommand::ForceSync)
    } else if id == "quit"@ {
        Some(MenuCommand::Quit)
    } else {
        None
    }
}

/// The command that the menu entry `id` stands for.
pub fn parse_menu_command(id: &str) -> (command: Option<MenuCommand>)
    ensures
        command == menu_command(id@),
{
    if same_text(id, "show_or_hide") {
        Some(MenuCommand::ShowOrHide)
    } else if same_text(id, "force_sync") {
        Some(MenuCommand::ForceSync)
    } else if same_text(id, "quit") {
        Some(MenuCommand::Quit)
    } else {
        None
    }
}

/// What is known of the main window.
#[derive(Clone, Copy, Debug, PartialEq, Eq, Structural)]
pub enum WindowState {
    /// There is no window.
    Absent,
    /// The window exists and is hidden.
    Hidden,
    /// The window exists and is shown.
    Visible,
}

/// What is done to the main window.
#[derive(Clone, Copy, Debug, PartialEq, Eq, Structural)]
pub enum WindowAction {
    /// Make the window anew, then show it.
    Create,
    /// Show the window.
    Show,
    /// Hide the window.
    Hide,
}

/// What a click on "show or hide" comes to.
#[derive(Clone, Copy, Debug, PartialEq, Eq)]
pub struct WindowChange {
    pub action: WindowAction,
    /// Whether the window gets the focus.
    pub focus: bool,
    /// The new title of the menu entry.
    pub title: &'static str,
}

/// What a click on "show or hide" does to a window in `state`: a visible
/// window is hidden and the entry then offers to show it; any other window
/// is shown, made first if need be, and gets the focus, and the entry then
/// offers to hide it.
pub fn toggle_window(state: WindowState) -> (change: WindowChange)
    ensures
        change.action == match state {
            WindowState::Absent => WindowAction::Create,
            WindowState::Hidden => WindowAction::Show,
            WindowState::Visible => WindowAction::Hide,
        },
        change.focus == (state != WindowState::Visible),
        change.title@ == if state == WindowState::Visible {
            "Show"@
        } else {
            "Hide"@
        },
{
    match state {
        WindowState::Absent => WindowChange {
            action: WindowAction::Create,
            focus: true,
            title: "Hide",
        },
        WindowState::Hidden => WindowChange { action: WindowAction::Show, focus: true, title: "Hide" },
        WindowState::Visible => WindowChange {
            action: WindowAction::Hide,
            focus: false,
            title: "Show",
        },
    }
}

} // verus!
