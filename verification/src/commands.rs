//! The subcommands of the command-line tools for the extension and media players.
use vstd::prelude::*;

verus! {

/// Requests to the GNOME extension.
pub enum ExtensionCommands {
    /// Type a string into the focused window.
    Type { text: String },
    /// Get the clipboard content.
    GetClipboard,
    /// Set the clipboard content.
    SetClipboard { text: String },
    /// Raise the application window.
    Raise,
    /// Update the tray icon and menu.
    UpdateMenu,
    /// Listen for extension events (shortcut, menu selection).
    Listen,
    /// Register a global shortcut.
    RegisterShortcut { shortcut: String },
    /// Unregister the global shortcut.
    UnregisterShortcut,
}

/// Requests to media players.
pub enum MprisCommands {
    /// Show playback status and metadata for all active players.
    Status,
    /// Send Play to the active player.
    Play,
    /// Send Pause to the active player.
    Pause,
}

} // verus!
