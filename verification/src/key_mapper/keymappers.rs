//! Keymappers that resolve a key event straight to commands, and the choice
//! between them.
use vstd::prelude::*;

use crate::event::Event;
use crate::key_mapper::vim_key_mapper::VimKeymapper;
use crate::key_mapper::vsc_key_mapper::VSCodeKeymapper;
use crate::key_mapper::Command;

verus! {

/// What resolves a key event to commands.
pub trait Keymapper {
    fn parse_event(&mut self, event: Option<Event>) -> Option<Vec<Command>>;
}

/// The keymapper of the chosen editing style.
pub enum KeymapperKind {
    Vim(VimKeymapper),
    VSCode(VSCodeKeymapper),
}

impl Keymapper for KeymapperKind {
    /// Hands the event to the chosen keymapper, which stays the chosen one.
    fn parse_event(&mut self, event: Option<Event>) -> (r: Option<Vec<Command>>)
        ensures
            match *old(self) {
                KeymapperKind::Vim(before) => match *final(self) {
                    KeymapperKind::Vim(after) => before.parses(after, event, r),
                    KeymapperKind::VSCode(_) => false,
                },
                KeymapperKind::VSCode(before) => match *final(self) {
                    KeymapperKind::VSCode(after) => before.parses(after, event, r),
                    KeymapperKind::Vim(_) => false,
                },
            },
    {
        match self {
            Self::Vim(vim) => vim.parse_event(event),
            Self::VSCode(vsc) => vsc.parse_event(event),
        }
    }
}

impl From<VimKeymapper> for KeymapperKind {
    fn from(k: VimKeymapper) -> (r: Self) {
        Self::Vim(k)
    }
}

impl vstd::std_specs::convert::FromSpecImpl<VimKeymapper> for KeymapperKind {
    open spec fn obeys_from_spec() -> bool {
        true
    }

    open spec fn from_spec(k: VimKeymapper) -> KeymapperKind {
        KeymapperKind::Vim(k)
    }
}

impl From<VSCodeKeymapper> for KeymapperKind {
    fn from(k: VSCodeKeymapper) -> (r: Self) {
        Self::VSCode(k)
    }
}

impl vstd::std_specs::convert::FromSpecImpl<VSCodeKeymapper> for KeymapperKind {
    open spec fn obeys_from_spec() -> bool {
        true
    }

    open spec fn from_spec(k: VSCodeKeymapper) -> KeymapperKind {
        KeymapperKind::VSCode(k)
    }
}

} // verus!
