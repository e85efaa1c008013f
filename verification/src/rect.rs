//! Screen cells: points and rectangles, and splitting a rectangle into two.
use vstd::prelude::*;

use crate::cursor::Cursor;

verus! {

/// A screen cell.
#[derive(Debug, Default, Clone, Copy, PartialEq, Eq, Structural, PartialOrd, Ord)]
pub struct Point {
    pub x: u16,
    pub y: u16,
}

impl From<Cursor> for Point {
    fn from(value: Cursor) -> (p: Point) {
        Point { x: value.x as u16, y: value.y as u16 }
    }
}

impl vstd::std_specs::convert::FromSpecImpl<Cursor> for Point {
    open spec fn obeys_from_spec() -> bool {
        true
    }

    /// The cursor's column and line, cut to 16 bits.
    open spec fn from_spec(value: Cursor) -> Point {
        Point { x: value.x as u16, y: value.y as u16 }
    }
}

impl From<&Cursor> for Point {
    fn from(value: &Cursor) -> (p: Point) {
        Point { x: value.x as u16, y: value.y as u16 }
    }
}

impl vstd::std_specs::convert::FromSpecImpl<&Cursor> for Point {
    open spec fn obeys_from_spec() -> bool {
        true
    }

    open spec fn from_spec(value: &Cursor) -> Point {
        Point { x: value.x as u16, y: value.y as u16 }
    }
}

/// A rectangle of screen cells.
#[derive(Debug, Default, Clone, Copy, Hash, PartialEq, Eq, Structural)]
pub struct Rect {
    pub x: u16,
    pub y: u16,
    pub width: u16,
    pub height: u16,
}

impl Rect {
    /// The cell at column `x` of row `y` lies in the rectangle.
    pub open spec fn holds(self, x: int, y: int) -> bool {
        &&& self.x <= x < self.x + self.width
        &&& self.y <= y < self.y + self.height
    }

    pub fn new(x: u16, y: u16, width: u16, height: u16) -> (r: Rect)
        ensures
            r == (Rect { x, y, width, height }),
    {
        Rect { x, y, width, height }
    }

    /// The same rectangle, `height` rows high.
    pub fn with_height(self, height: u16) -> (r: Rect)
        ensures
            r == (Rect { height, ..self }),
    {
        Rect { height, ..self }
    }

    /// Takes `size` columns off the left of this rectangle and returns them
    /// as a rectangle of their own.
    pub fn split_left(&mut self, size: u16) -> (r: Rect)
        requires
            old(self).width > size,
            old(self).x + size <= u16::MAX,
        ensures
            r == (Rect { width: size, ..*old(self) }),
            *final(self) == (Rect {
                x: (old(self).x + size) as u16,
                width: (old(self).width - size) as u16,
                ..*old(self)
            }),
    {
        let rect = Rect::new(self.x, self.y, size, self.height);
        self.width -= size;
        self.x += size;
        rect
    }

    /// Takes `size` rows off the bottom of this rectangle and returns them
    /// as a rectangle of their own, within the original.
    pub fn split_bottom(&mut self, size: u16) -> (r: Rect)
        requires
            old(self).height > size,
            old(self).y + old(self).height - size <= u16::MAX,
        ensures
            r == (Rect {
                y: (old(self).y + old(self).height - size) as u16,
                height: size,
                ..*old(self)
            }),
            *final(self) == (Rect { height: (old(self).height - size) as u16, ..*old(self) }),
    {
        let rect = Rect::new(self.x, self.y + (self.height - size), self.width, size);
        self.height -= size;
        rect
    }

    /// Takes `size` rows off the top of this rectangle.
    pub fn split_top(&mut self, size: u16) -> (r: Rect)
        requires
            old(self).height > size,
            old(self).y + size <= u16::MAX,
        ensures
            r == (Rect { height: size, ..*old(self) }),
            *final(self) == (Rect {
                y: (old(self).y + size) as u16,
                height: (old(self).height - size) as u16,
                ..*old(self)
            }),
    {
        let rect = Rect::new(self.x, self.y, self.width, size);
        self.height -= size;
        self.y += size;
        rect
    }

    /// Takes `size` columns off the right of this rectangle and returns
    /// them as a rectangle of their own, within the original.
    pub fn split_right(&mut self, size: u16) -> (r: Rect)
        requires
            old(self).width > size,
            old(self).x + old(self).width - size <= u16::MAX,
        ensures
            r == (Rect {
                x: (old(self).x + old(self).width - size) as u16,
                width: size,
                ..*old(self)
            }),
            *final(self) == (Rect { width: (old(self).width - size) as u16, ..*old(self) }),
    {
        let rect = Rect::new(self.x + (self.width - size), self.y, size, self.height);
        self.width -= size;
        rect
    }
}

/// A rectangle at the origin, from its rows and columns.
impl From<(u16, u16)> for Rect {
    fn from(value: (u16, u16)) -> (r: Rect) {
        Rect { x: 0, y: 0, width: value.1, height: value.0 }
    }
}

impl vstd::std_specs::convert::FromSpecImpl<(u16, u16)> for Rect {
    open spec fn obeys_from_spec() -> bool {
        true
    }

    open spec fn from_spec(value: (u16, u16)) -> Rect {
        Rect { x: 0, y: 0, width: value.1, height: value.0 }
    }
}

/// Each cell of a rectangle lies in exactly one of the two rectangles that
/// `split` cuts it into: the one it returns and what is left of it.
pub open spec fn partitions(area: Rect, cut: Rect, rest: Rect) -> bool {
    forall|x: int, y: int|
        (#[trigger] area.holds(x, y) <==> (cut.holds(x, y) || rest.holds(x, y))) && !(cut.holds(
            x,
            y,
        ) && rest.holds(x, y))
}

/// `split_left` cuts a rectangle into two that cover it without overlap.
pub proof fn law_split_left_partitions(area: Rect, size: u16)
    requires
        area.width > size,
        area.x + size <= u16::MAX,
    ensures
        partitions(
            area,
            Rect { width: size, ..area },
            Rect { x: (area.x + size) as u16, width: (area.width - size) as u16, ..area },
        ),
{
}

/// `split_top` cuts a rectangle into two that cover it without overlap.
pub proof fn law_split_top_partitions(area: Rect, size: u16)
    requires
        area.height > size,
        area.y + size <= u16::MAX,
    ensures
        partitions(
            area,
            Rect { height: size, ..area },
            Rect { y: (area.y + size) as u16, height: (area.height - size) as u16, ..area },
        ),
{
}

/// `split_bottom` cuts a rectangle into two that cover it without overlap.
pub proof fn law_split_bottom_partitions(area: Rect, size: u16)
    requires
        area.height > size,
        area.y + area.height - size <= u16::MAX,
    ensures
        partitions(
            area,
            Rect { y: (area.y + area.height - size) as u16, height: size, ..area },
            Rect { height: (area.height - size) as u16, ..area },
        ),
{
}

/// `split_right` cuts a rectangle into two that cover it without overlap.
pub proof fn law_split_right_partitions(area: Rect, size: u16)
    requires
        area.width > size,
        area.x + area.width - size <= u16::MAX,
    ensures
        partitions(
            area,
            Rect { x: (area.x + area.width - size) as u16, width: size, ..area },
            Rect { width: (area.width - size) as u16, ..area },
        ),
{
}

} // verus!
