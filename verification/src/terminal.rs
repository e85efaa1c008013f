//! A screen drawn in frames: the frame being drawn and the one shown, so
//! that only the cells that changed are drawn again.
use vstd::prelude::*;

use crate::backend::Backend;
use crate::buffer::Buffer;
use crate::lua_config::LuaCursorConfig;
use crate::rect::Rect;

verus! {

/// A backend with two frames: the one being drawn and the one last shown.
pub struct Terminal<B: Backend> {
    pub backend: B,
    current: Buffer,
    previous: Buffer,
}

impl<B: Backend> Terminal<B> {
    /// The frame being drawn.
    pub closed spec fn spec_current(&self) -> Buffer {
        self.current
    }

    /// The frame last shown.
    pub closed spec fn spec_previous(&self) -> Buffer {
        self.previous
    }

    /// A terminal whose two frames cover `area` with blank cells.
    pub fn new(backend: B, area: Rect) -> (t: Terminal<B>)
        requires
            area.width * area.height <= u16::MAX,
        ensures
            t.spec_current().wf(),
            t.spec_previous().wf(),
            t.spec_current().spec_area() == area,
            t.spec_previous().spec_area() == area,
            t.spec_current().spec_cells() == t.spec_previous().spec_cells(),
    {
        let current = Buffer::new(area);
        let previous = Buffer::new(area);
        assert(current.spec_cells() =~= previous.spec_cells());
        Terminal { backend, current, previous }
    }

    /// The frame being drawn, for drawing on it.
    pub fn current_buffer(&mut self) -> (r: &mut Buffer)
        ensures
            *r == old(self).spec_current(),
            final(self).spec_current() == *final(r),
            final(self).spec_previous() == old(self).spec_previous(),
    {
        &mut self.current
    }

    /// Makes the frame being drawn the one shown, and the one shown the
    /// next to draw on.
    pub fn swap_buffers(&mut self)
        ensures
            final(self).spec_current() == old(self).spec_previous(),
            final(self).spec_previous() == old(self).spec_current(),
    {
        std::mem::swap(&mut self.current, &mut self.previous);
    }

    /// Draws the cells of the current frame that differ from the shown
    /// one, then flushes the backend.
    pub fn flush(&mut self, cursor: LuaCursorConfig) -> (r: Result<(), std::io::Error>)
        requires
            old(self).spec_current().wf(),
            old(self).spec_previous().spec_cells().len() >= old(self).spec_current().spec_cells().len(),
        ensures
            final(self).spec_current() == old(self).spec_current(),
            final(self).spec_previous() == old(self).spec_previous(),
    {
        let diffs = self.current.diff(&self.previous);
        let changes = diffs.into_changes();
        match self.backend.draw(changes, cursor) {
            Ok(()) => {},
            Err(e) => return Err(e),
        }
        self.backend.flush()
    }

    /// Moves both frames to `new_area`, with blank cells.
    pub fn resize(&mut self, new_area: Rect)
        requires
            new_area.width * new_area.height <= u16::MAX,
        ensures
            final(self).spec_current().wf(),
            final(self).spec_previous().wf(),
            final(self).spec_current().spec_area() == new_area,
            final(self).spec_previous().spec_area() == new_area,
            final(self).spec_current().spec_cells() == final(self).spec_previous().spec_cells(),
    {
        self.current.resize(new_area);
        self.previous.resize(new_area);
        assert(self.current.spec_cells() =~= self.previous.spec_cells());
    }
}

} // verus!
