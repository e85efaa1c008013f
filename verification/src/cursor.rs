//! The cursor of a view: a column and a line, plus the column it would like
//! to return to after vertical moves.
use vstd::prelude::*;

use crate::buffer_manager::Buffer;
use crate::text::{line_len, num_lines};

verus! {

#[derive(Debug, Default, PartialEq, Eq, Structural, PartialOrd, Ord)]
pub struct Cursor {
    pub x: usize,
    pub y: usize,
    pub virtual_x: usize,
}

impl Cursor {
    /// A cursor at column `x` of line `y`.
    pub fn new(x: usize, y: usize) -> (c: Cursor)
        ensures
            c == (Cursor { x, y, virtual_x: x }),
    {
        Cursor { x, y, virtual_x: x }
    }

    /// Moves `amount` columns left, stopping at the first column.
    pub fn move_left_by(&mut self, amount: usize)
        ensures
            final(self).x == (if old(self).x >= amount {
                old(self).x - amount
            } else {
                0
            }),
            final(self).y == old(self).y,
            final(self).virtual_x == final(self).x,
    {
        self.x = self.x.saturating_sub(amount);
        self.virtual_x = self.x;
    }

    /// Moves to column `x` of line `y`, which must exist in `buffer`.
    pub fn move_to(&mut self, buffer: &Buffer, x: usize, y: usize)
        requires
            buffer.view().len() < usize::MAX,
            y < num_lines(buffer.view()),
            x < line_len(buffer.view(), y as int),
        ensures
            *final(self) == (Cursor { x, y, virtual_x: x }),
    {
        let total_lines = buffer.len_lines();
        assert(y < total_lines);
        let line_len = buffer.line_len(y);
        assert(x < line_len);
        self.x = x;
        self.y = y;
        self.virtual_x = self.x;
    }

    /// Moves to line `y`, and to column `x` or, if the line is shorter, to
    /// `offset` columns before its end.
    pub fn move_to_with_offset(&mut self, buffer: &Buffer, x: usize, y: usize, offset: usize)
        requires
            buffer.view().len() < usize::MAX,
            y < num_lines(buffer.view()),
        ensures
            ({
                let len = line_len(buffer.view(), y as int);
                let max_x = if len >= offset { len - offset } else { 0 };
                *final(self) == (Cursor {
                    x: (if x <= max_x { x as int } else { max_x }) as usize,
                    y,
                    virtual_x: (if x <= max_x { x as int } else { max_x }) as usize,
                })
            }),
    {
        let total_lines = buffer.len_lines();
        assert(y < total_lines);
        let line_len = buffer.line_len(y).saturating_sub(offset);
        self.x = if x <= line_len { x } else { line_len };
        self.y = y;
        self.virtual_x = self.x;
    }

    /// Moves `amount` lines down, stopping at the last line.
    pub fn move_down_by(&mut self, buffer: &Buffer, amount: usize)
        requires
            buffer.view().len() < usize::MAX,
        ensures
            ({
                let max_y = num_lines(buffer.view()) - 1;
                let target = old(self).y + amount;
                final(self).y == (if target <= max_y { target } else { max_y })
            }),
            final(self).x == old(self).x,
            final(self).virtual_x == old(self).virtual_x,
    {
        let total_lines = buffer.len_lines();
        let max_y = total_lines.saturating_sub(1);
        let target = self.y.saturating_add(amount);
        self.y = if target <= max_y { target } else { max_y };
    }

    /// Moves `amount` lines up, stopping at the first line.
    pub fn move_up_by(&mut self, amount: usize)
        ensures
            final(self).y == (if old(self).y >= amount {
                old(self).y - amount
            } else {
                0
            }),
            final(self).x == old(self).x,
            final(self).virtual_x == old(self).virtual_x,
    {
        self.y = self.y.saturating_sub(amount);
    }

    /// Moves `amount` columns right, stopping `offset` columns before the end
    /// of the line.
    pub fn move_right_by_with_offset(&mut self, buffer: &Buffer, amount: usize, offset: usize)
        requires
            buffer.view().len() < usize::MAX,
            old(self).y < num_lines(buffer.view()),
        ensures
            ({
                let len = line_len(buffer.view(), old(self).y as int);
                let max_x = if len >= offset { len - offset } else { 0 };
                let target = if old(self).x + amount <= usize::MAX {
                    old(self).x + amount
                } else {
                    usize::MAX as int
                };
                final(self).x == (if target <= max_x { target } else { max_x })
            }),
            final(self).y == old(self).y,
            final(self).virtual_x == final(self).x,
            line_len(buffer.view(), old(self).y as int) <= usize::MAX,
    {
        let line_len = buffer.line_len(self.y);
        let max_x = line_len.saturating_sub(offset);
        let target = self.x.saturating_add(amount);
        self.x = if target <= max_x { target } else { max_x };
        self.virtual_x = self.x;
    }

    /// Moves to the first column.
    pub fn move_to_line_start(&mut self)
        ensures
            *final(self) == (Cursor { x: 0, y: old(self).y, virtual_x: 0 }),
    {
        self.x = 0;
        self.virtual_x = 0;
    }

    /// Moves `offset` columns before the end of the line, remembering that
    /// vertical moves should keep to line ends.
    pub fn move_to_line_end_with_offset(&mut self, buffer: &Buffer, offset: usize)
        requires
            buffer.view().len() < usize::MAX,
            old(self).y < num_lines(buffer.view()),
        ensures
            ({
                let len = line_len(buffer.view(), old(self).y as int);
                final(self).x == (if len >= offset { len - offset } else { 0 })
            }),
            final(self).y == old(self).y,
            final(self).virtual_x == usize::MAX,
    {
        self.move_right_by_with_offset(buffer, usize::MAX, offset);
        self.virtual_x = usize::MAX;
    }
}

} // verus!
