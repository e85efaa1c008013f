//! An editing style as a whole: its keymaps, statusline and command handler.
use vstd::prelude::*;

use crate::command_handler::CommandHandler;
use crate::key_mapper::Keymapper;
use crate::status_provider::StatuslineProvider;

verus! {

/// An editing style: it resolves keys, draws the statusline and handles
/// its commands.
pub trait EditingPlugin: StatuslineProvider + Keymapper {
    /// The handler of the style's commands.
    type Handler: CommandHandler;

    fn create_command_handler(&self) -> Self::Handler;
}

} // verus!
