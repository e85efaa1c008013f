//! The editor's configuration: its keymap preset and statusline.
use vstd::prelude::*;

verus! {

/// The keymaps the editor starts with.
#[derive(Debug, PartialEq, Eq, Structural, PartialOrd, Ord, Clone, Copy, Hash)]
pub enum KeyMapPreset {
    Vim,
    VSCode,
}

/// Whether the editor works in modes.
#[derive(Debug, PartialEq, Eq, Structural, Clone, Copy)]
pub enum EditorKind {
    Modal,
    NonModal,
}

/// Where the statusline is drawn.
#[derive(Debug, PartialEq, Eq, Structural, PartialOrd, Ord, Clone, Copy, Hash)]
pub enum StatuslineMode {
    /// One statusline for the editor.
    Global,
    /// One statusline per window.
    Local,
}

impl Default for StatuslineMode {
    fn default() -> (r: StatuslineMode)
        ensures
            r == StatuslineMode::Global,
    {
        StatuslineMode::Global
    }
}

/// How the statusline is drawn.
#[derive(Debug, PartialEq, Eq, Structural, Clone, Copy)]
pub struct StatuslineConfig {
    pub mode: StatuslineMode,
}

impl Default for StatuslineConfig {
    fn default() -> (r: StatuslineConfig)
        ensures
            r.mode == StatuslineMode::Global,
    {
        StatuslineConfig { mode: StatuslineMode::default() }
    }
}

/// The editor's configuration.
#[derive(Debug, PartialEq, Eq, Structural, Clone, Copy)]
pub struct Config {
    pub keymap_preset: KeyMapPreset,
    pub statusline: StatuslineConfig,
}

} // verus!
