//! Editor modes, the commands keys resolve to, and what resolves them.
use vstd::prelude::*;

use crate::event::Event;

pub mod keymappers;
pub mod vim_key_mapper;
pub mod vsc_key_mapper;

verus! {

/// The editing style and, for vim, its mode.
#[derive(Debug, Clone, Copy, PartialEq, Eq, Structural, PartialOrd, Ord, Hash)]
pub enum EditorMode {
    Vim(VimMode),
    VSCode,
    Emacs,
}

impl EditorMode {
    /// The vim mode; the editing style must be vim's.
    pub fn expect_vim(self) -> (r: VimMode)
        requires
            self is Vim,
        ensures
            self == EditorMode::Vim(r),
    {
        match self {
            Self::Vim(vim_mode) => vim_mode,
            Self::VSCode => {
                proof {
                    assert(false);
                }
                VimMode::Normal
            },
            Self::Emacs => {
                proof {
                    assert(false);
                }
                VimMode::Normal
            },
        }
    }
}

/// The modes of vim.
#[derive(Debug, Clone, Copy, PartialEq, Eq, Structural, PartialOrd, Ord, Hash)]
pub enum VimMode {
    Normal,
    Insert,
    Visual,
    Command,
}

impl Default for VimMode {
    fn default() -> (r: VimMode)
        ensures
            r == VimMode::Normal,
    {
        VimMode::Normal
    }
}

/// The name of a vim mode.
pub open spec fn vim_mode_name(mode: VimMode) -> Seq<char> {
    match mode {
        VimMode::Normal => "normal"@,
        VimMode::Insert => "insert"@,
        VimMode::Visual => "visual"@,
        VimMode::Command => "command"@,
    }
}

impl VimMode {
    /// The name of the mode, such as `normal`.
    pub fn to_string(&self) -> (r: String)
        ensures
            r@ == vim_mode_name(*self),
    {
        match self {
            Self::Normal => "normal".to_owned(),
            Self::Insert => "insert".to_owned(),
            Self::Visual => "visual".to_owned(),
            Self::Command => "command".to_owned(),
        }
    }
}

/// What a key can make the editor do.
#[derive(Debug, Clone, Copy, PartialEq, Eq, Structural, PartialOrd, Ord, Hash)]
pub enum Command {
    MoveCursorLeft,
    MoveCursorDown,
    MoveCursorUp,
    MoveCursorRight,
    MoveCursorRightOverLines,
    MoveCursorLineStart,
    MoveCursorLineEnd,
    MoveToMatchingPair,
    DeleteWholeLine,
    MoveToTop,
    MoveToBottom,
    MoveToFirstNonSpace,
    MoveToLastNonSpace,
    MoveToNextParagraph,
    MoveToPrevParagraph,
    DeletePrevChar,
    DeleteCurrChar,
    MoveToNextWord,
    TypeChar(char),
    Save,
    SaveAll,
    PageUp,
    PageDown,
    Quit,
}

/// The commands a key event resolved to, and the mode it switched to.
#[derive(Debug)]
pub struct ResolvedKeymap {
    pub commands: Vec<Command>,
    pub mode: Option<EditorMode>,
}

/// What resolves key events to commands, keeping a mode.
pub trait Keymapper {
    fn parse_event(&mut self, event: Option<Event>) -> Option<ResolvedKeymap>;

    fn mode(&self) -> EditorMode;
}

} // verus!
