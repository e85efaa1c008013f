//! Renderer-independent sizes, rectangles and points.
use vstd::prelude::*;

verus! {

/// A size: columns and rows for a terminal renderer, pixels for a graphical
/// one.
#[derive(Debug, Default, PartialEq, Eq, Structural, PartialOrd, Ord, Clone, Copy)]
pub struct Size {
    pub width: u16,
    pub height: u16,
}

impl Size {
    pub fn new(width: u16, height: u16) -> (size: Self)
        ensures
            size == (Size { width, height }),
    {
        Self { width, height }
    }
}

impl From<(u16, u16)> for Size {
    fn from(value: (u16, u16)) -> (size: Size) {
        Self::new(value.0, value.1)
    }
}

impl vstd::std_specs::convert::FromSpecImpl<(u16, u16)> for Size {
    open spec fn obeys_from_spec() -> bool {
        true
    }

    open spec fn from_spec(v: (u16, u16)) -> Size {
        Size { width: v.0, height: v.1 }
    }
}

impl From<(u8, u8)> for Size {
    fn from(value: (u8, u8)) -> (size: Size) {
        Self::new(value.0 as u16, value.1 as u16)
    }
}

impl vstd::std_specs::convert::FromSpecImpl<(u8, u8)> for Size {
    open spec fn obeys_from_spec() -> bool {
        true
    }

    open spec fn from_spec(v: (u8, u8)) -> Size {
        Size { width: v.0 as u16, height: v.1 as u16 }
    }
}

/// An axis-aligned rectangle: its top-left corner and its size.
#[derive(Debug, Default, PartialEq, Eq, Structural, PartialOrd, Ord, Clone, Copy)]
pub struct Rect {
    pub x: u16,
    pub y: u16,
    pub width: u16,
    pub height: u16,
}

impl Rect {
    pub fn new(x: u16, y: u16, width: u16, height: u16) -> (rect: Self)
        ensures
            rect == (Rect { x, y, width, height }),
    {
        Self { x, y, width, height }
    }

    pub fn with_size(x: u16, y: u16, size: Size) -> (rect: Self)
        ensures
            rect == (Rect { x, y, width: size.width, height: size.height }),
    {
        Self { x, y, width: size.width, height: size.height }
    }

    /// Removes `amount` columns from the left edge.
    pub fn cut_left(&mut self, amount: u16)
        requires
            amount <= old(self).width,
            old(self).x + amount <= u16::MAX,
        ensures
            *final(self) == (Rect {
                x: (old(self).x + amount) as u16,
                width: (old(self).width - amount) as u16,
                ..*old(self)
            }),
    {
        self.x += amount;
        self.width -= amount;
    }

    /// Removes `amount` rows from the bottom edge.
    pub fn cut_bottom(&mut self, amount: u16)
        requires
            amount <= old(self).height,
        ensures
            *final(self) == (Rect { height: (old(self).height - amount) as u16, ..*old(self) }),
    {
        self.height -= amount;
    }

    /// Removes `amount` rows from the top edge.
    pub fn cut_top(&mut self, amount: u16)
        requires
            amount <= old(self).height,
            old(self).y + amount <= u16::MAX,
        ensures
            *final(self) == (Rect {
                y: (old(self).y + amount) as u16,
                height: (old(self).height - amount) as u16,
                ..*old(self)
            }),
    {
        self.y += amount;
        self.height -= amount;
    }

    /// Removes `amount` columns from the right edge.
    pub fn cut_right(&mut self, amount: u16)
        requires
            amount <= old(self).width,
        ensures
            *final(self) == (Rect { width: (old(self).width - amount) as u16, ..*old(self) }),
    {
        self.width -= amount;
    }
}

impl From<Size> for Rect {
    fn from(size: Size) -> (rect: Rect) {
        Rect { x: 0, y: 0, width: size.width, height: size.height }
    }
}

impl vstd::std_specs::convert::FromSpecImpl<Size> for Rect {
    open spec fn obeys_from_spec() -> bool {
        true
    }

    open spec fn from_spec(size: Size) -> Rect {
        Rect { x: 0, y: 0, width: size.width, height: size.height }
    }
}

/// A point with coordinates of type `T`.
#[derive(Debug, Default, PartialEq, Eq, PartialOrd, Ord, Clone, Copy)]
pub struct Point<T: Default> {
    pub x: T,
    pub y: T,
}

impl<T: Default> Point<T> {
    pub fn new(x: T, y: T) -> (point: Self)
        ensures
            point == (Point { x, y }),
    {
        Self { x, y }
    }
}

impl<T: Default> From<(T, T)> for Point<T> {
    fn from(value: (T, T)) -> (point: Point<T>) {
        Self::new(value.0, value.1)
    }
}

impl<T: Default> vstd::std_specs::convert::FromSpecImpl<(T, T)> for Point<T> {
    open spec fn obeys_from_spec() -> bool {
        true
    }

    open spec fn from_spec(v: (T, T)) -> Point<T> {
        Point { x: v.0, y: v.1 }
    }
}

} // verus!
