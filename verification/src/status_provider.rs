//! What draws a statusline, and what it is drawn from.
use vstd::prelude::*;

use crate::buffer_manager::Buffer;
use crate::geometry::Point;
use crate::key_mapper::EditorMode;

verus! {

/// The state a statusline shows.
pub struct StatuslineContext<'ctx> {
    pub current_mode: EditorMode,
    pub cursor_position: Point<usize>,
    pub buffer_info: &'ctx Buffer,
    pub width: usize,
}

/// What renders a statusline.
pub trait StatuslineProvider {
    fn render_statusline(&self, ctx: &StatuslineContext) -> String;
}

} // verus!
