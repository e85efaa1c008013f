//! Screen cells, how a style is merged into one, and what is drawn where.
use vstd::prelude::*;

use crate::color::Color;
use crate::highlights::HighlightGroup;
use crate::lua_config::LuaCursorConfig;
use crate::rect::Rect;

verus! {

/// How a style is merged into a cell's.
#[derive(Debug, PartialEq, Eq, Structural, PartialOrd, Ord, Clone, Copy)]
pub enum StyleMerge {
    /// Keep the cell's colors that are not `Reset`, and its bold.
    Keep,
    /// Take the given style whole.
    Replace,
    /// Take the given colors that are not `Reset`, and its bold if set.
    Merge,
}

impl Default for StyleMerge {
    fn default() -> (r: StyleMerge)
        ensures
            r == StyleMerge::Replace,
    {
        StyleMerge::Replace
    }
}

/// The style a cell styled `old` has once `style` is merged into it.
pub open spec fn merged(old: HighlightGroup, style: HighlightGroup, behavior: StyleMerge) -> HighlightGroup {
    match behavior {
        StyleMerge::Keep => HighlightGroup {
            fg: if old.fg == Color::Reset { style.fg } else { old.fg },
            bg: if old.bg == Color::Reset { style.bg } else { old.bg },
            bold: old.bold || style.bold,
        },
        StyleMerge::Replace => style,
        StyleMerge::Merge => HighlightGroup {
            fg: if style.fg != Color::Reset { style.fg } else { old.fg },
            bg: if style.bg != Color::Reset { style.bg } else { old.bg },
            bold: style.bold || old.bold,
        },
    }
}

/// Merging the same style twice is merging it once.
pub proof fn law_merged_twice(old: HighlightGroup, style: HighlightGroup, behavior: StyleMerge)
    ensures
        merged(merged(old, style, behavior), style, behavior) == merged(old, style, behavior),
{
}

/// A cell of the screen: a char and its style.
#[derive(Debug, Clone, Copy, PartialEq, Eq, Structural)]
pub struct Cell {
    pub symbol: char,
    pub style: HighlightGroup,
}

impl Cell {
    /// The blank cell: the nul char in the plain style.
    pub open spec fn blank() -> Cell {
        Cell { symbol: '\0', style: HighlightGroup::plain() }
    }

    /// `symbol` in the plain style.
    pub fn new(symbol: char) -> (c: Cell)
        ensures
            c == (Cell { symbol, style: HighlightGroup::plain() }),
    {
        Cell { symbol, style: HighlightGroup::default() }
    }

    /// This cell's char in `style`.
    pub fn with_style(self, style: HighlightGroup) -> (c: Cell)
        ensures
            c == (Cell { symbol: self.symbol, style }),
    {
        Cell { symbol: self.symbol, style }
    }

    /// Merges `style` into the cell's as `behavior` says.
    pub fn merge_style(&mut self, style: HighlightGroup, behavior: StyleMerge)
        ensures
            final(self).symbol == old(self).symbol,
            final(self).style == merged(old(self).style, style, behavior),
    {
        match behavior {
            StyleMerge::Keep => {
                if self.style.fg == Color::Reset {
                    self.style.fg = style.fg;
                }
                if self.style.bg == Color::Reset {
                    self.style.bg = style.bg;
                }
                if !self.style.bold {
                    self.style.bold = style.bold;
                }
            },
            StyleMerge::Replace => self.style = style,
            StyleMerge::Merge => {
                if style.fg != Color::Reset {
                    self.style.fg = style.fg;
                }
                if style.bg != Color::Reset {
                    self.style.bg = style.bg;
                }
                if style.bold {
                    self.style.bold = style.bold;
                }
            },
        }
    }
}

impl Default for Cell {
    fn default() -> (c: Cell)
        ensures
            c == Cell::blank(),
    {
        Cell { symbol: '\0', style: HighlightGroup::default() }
    }
}

/// A cell to draw at a column and row.
#[derive(Debug)]
pub struct Drawable<'a> {
    pub x: u16,
    pub y: u16,
    pub cell: &'a Cell,
}

impl<'a> Drawable<'a> {
    pub fn new(x: u16, y: u16, cell: &'a Cell) -> (d: Drawable<'a>)
        ensures
            d.x == x,
            d.y == y,
            *d.cell == *cell,
    {
        Drawable { x, y, cell }
    }
}

impl<'a> From<(u16, u16, &'a Cell)> for Drawable<'a> {
    fn from(value: (u16, u16, &'a Cell)) -> (d: Drawable<'a>) {
        Drawable::new(value.0, value.1, value.2)
    }
}

impl<'a> vstd::std_specs::convert::FromSpecImpl<(u16, u16, &'a Cell)> for Drawable<'a> {
    open spec fn obeys_from_spec() -> bool {
        true
    }

    open spec fn from_spec(value: (u16, u16, &'a Cell)) -> Drawable<'a> {
        Drawable { x: value.0, y: value.1, cell: value.2 }
    }
}

/// How the terminal cursor is shown.
#[derive(Debug, Clone, Copy, PartialEq, Eq, Structural, PartialOrd, Ord)]
pub enum CursorKind {
    Block,
    Hidden,
}

/// What draws cells on a screen and places its cursor.
pub trait Backend {
    fn setup(&mut self) -> Result<(), std::io::Error>;

    fn restore(&mut self) -> Result<(), std::io::Error>;

    /// Draws each cell at its column and row, the cursor styled by
    /// `cursor`.
    fn draw(&mut self, content: Vec<Drawable<'_>>, cursor: LuaCursorConfig) -> Result<(), std::io::Error>;

    fn hide_cursor(&mut self) -> Result<(), std::io::Error>;

    fn show_cursor(&mut self) -> Result<(), std::io::Error>;

    fn set_cursor(&mut self, x: u16, y: u16, kind: CursorKind) -> Result<(), std::io::Error>;

    /// The area of the screen.
    fn area(&self) -> Result<Rect, std::io::Error>;

    fn flush(&mut self) -> Result<(), std::io::Error>;
}

} // verus!
