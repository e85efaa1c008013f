//! The configuration that the Lua runtime reads: cursor styles, the gutter,
//! keymap and command options, highlight groups and statusline styles.
use vstd::prelude::*;

use crate::color::{from_str, hex_cuts_ok, parses_to, utf8_bytes, Error};
use crate::highlights::HighlightGroup;

verus! {

/// How the cursor is drawn.
#[derive(Debug, Clone, Copy, PartialEq, Eq, Structural, PartialOrd, Ord)]
pub enum LuaCursorStyle {
    Block,
    SteadyBar,
}

impl Default for LuaCursorStyle {
    fn default() -> (r: LuaCursorStyle)
        ensures
            r == LuaCursorStyle::Block,
    {
        LuaCursorStyle::Block
    }
}

/// Whether two strings are equal.
fn str_eq(a: &str, b: &str) -> (r: bool)
    ensures
        r == (a@ == b@),
{
    a.to_owned() == b.to_owned()
}

/// The cursor style a name stands for: `steady_bar` a bar, anything else a
/// block.
pub open spec fn cursor_style_named(name: Seq<char>) -> LuaCursorStyle {
    if name == "steady_bar"@ {
        LuaCursorStyle::SteadyBar
    } else {
        LuaCursorStyle::Block
    }
}

impl LuaCursorStyle {
    /// The cursor style named `value`: `block` or `steady_bar`, a block
    /// for any other name.
    pub fn from_name(value: &str) -> (r: LuaCursorStyle)
        ensures
            r == cursor_style_named(value@),
    {
        if str_eq(value, "block") {
            proof {
                reveal_strlit("block");
                reveal_strlit("steady_bar");
                assert("block"@[0] != "steady_bar"@[0]);
            }
            LuaCursorStyle::Block
        } else if str_eq(value, "steady_bar") {
            LuaCursorStyle::SteadyBar
        } else {
            LuaCursorStyle::Block
        }
    }
}

/// The cursor style of each mode.
#[derive(Debug, Clone, Copy, PartialEq, Eq, Structural)]
pub struct LuaCursorModeStyle {
    pub normal: LuaCursorStyle,
    pub insert: LuaCursorStyle,
    pub command: LuaCursorStyle,
    pub visual: LuaCursorStyle,
}

impl LuaCursorModeStyle {
    /// One style in every mode.
    pub open spec fn all(style: LuaCursorStyle) -> LuaCursorModeStyle {
        LuaCursorModeStyle { normal: style, insert: style, command: style, visual: style }
    }

    /// A block in every mode.
    pub fn block() -> (r: LuaCursorModeStyle)
        ensures
            r == LuaCursorModeStyle::all(LuaCursorStyle::Block),
    {
        LuaCursorModeStyle {
            normal: LuaCursorStyle::Block,
            insert: LuaCursorStyle::Block,
            command: LuaCursorStyle::Block,
            visual: LuaCursorStyle::Block,
        }
    }

    /// A bar in every mode.
    pub fn bar() -> (r: LuaCursorModeStyle)
        ensures
            r == LuaCursorModeStyle::all(LuaCursorStyle::SteadyBar),
    {
        LuaCursorModeStyle {
            normal: LuaCursorStyle::SteadyBar,
            insert: LuaCursorStyle::SteadyBar,
            command: LuaCursorStyle::SteadyBar,
            visual: LuaCursorStyle::SteadyBar,
        }
    }

    /// The style named `value` in every mode: `steady_bar` a bar, anything
    /// else a block.
    pub fn from_name(value: &str) -> (r: LuaCursorModeStyle)
        ensures
            r == LuaCursorModeStyle::all(cursor_style_named(value@)),
    {
        if str_eq(value, "block") {
            proof {
                reveal_strlit("block");
                reveal_strlit("steady_bar");
                assert("block"@[0] != "steady_bar"@[0]);
            }
            LuaCursorModeStyle::block()
        } else if str_eq(value, "steady_bar") {
            LuaCursorModeStyle::bar()
        } else {
            LuaCursorModeStyle::block()
        }
    }
}

impl Default for LuaCursorModeStyle {
    fn default() -> (r: LuaCursorModeStyle)
        ensures
            r == LuaCursorModeStyle::all(LuaCursorStyle::Block),
    {
        LuaCursorModeStyle::block()
    }
}

/// The cursor configuration.
#[derive(Debug, Clone, Copy, PartialEq, Eq, Structural)]
pub struct LuaCursorConfig {
    pub style: LuaCursorModeStyle,
}

impl Default for LuaCursorConfig {
    fn default() -> (r: LuaCursorConfig)
        ensures
            r.style == LuaCursorModeStyle::all(LuaCursorStyle::Block),
    {
        LuaCursorConfig { style: LuaCursorModeStyle::default() }
    }
}

/// The side of the window the gutter is on.
#[derive(Debug, Clone, Copy, PartialEq, Eq, Structural)]
pub enum LuaGutterAnchor {
    Left,
    Right,
}

impl Default for LuaGutterAnchor {
    fn default() -> (r: LuaGutterAnchor)
        ensures
            r == LuaGutterAnchor::Left,
    {
        LuaGutterAnchor::Left
    }
}

/// How line numbers are shown.
#[derive(Debug, Clone, Copy, PartialEq, Eq, Structural)]
pub enum LuaLineNumbersConfig {
    Absolute,
    Relative,
    RelativeNumbered,
}

impl Default for LuaLineNumbersConfig {
    fn default() -> (r: LuaLineNumbersConfig)
        ensures
            r == LuaLineNumbersConfig::Absolute,
    {
        LuaLineNumbersConfig::Absolute
    }
}

/// Which signs the sign column shows: all of them, or none (no column).
#[derive(Debug, Clone, Copy, PartialEq, Eq, Structural)]
pub enum LuaSignColumnConfig {
    All,
    NoColumn,
}

impl Default for LuaSignColumnConfig {
    fn default() -> (r: LuaSignColumnConfig)
        ensures
            r == LuaSignColumnConfig::All,
    {
        LuaSignColumnConfig::All
    }
}

/// The gutter configuration.
#[derive(Debug, Clone, Copy, PartialEq, Eq, Structural)]
pub struct LuaGutterConfig {
    pub enabled: bool,
    pub anchor: LuaGutterAnchor,
    pub line_numbers: LuaLineNumbersConfig,
    pub sign_column: LuaSignColumnConfig,
}

impl Default for LuaGutterConfig {
    fn default() -> (r: LuaGutterConfig)
        ensures
            r == (LuaGutterConfig {
                enabled: false,
                anchor: LuaGutterAnchor::Left,
                line_numbers: LuaLineNumbersConfig::Absolute,
                sign_column: LuaSignColumnConfig::All,
            }),
    {
        LuaGutterConfig {
            enabled: false,
            anchor: LuaGutterAnchor::default(),
            line_numbers: LuaLineNumbersConfig::default(),
            sign_column: LuaSignColumnConfig::default(),
        }
    }
}

/// The options of a keymap.
#[derive(Debug, Clone, PartialEq, Eq)]
pub struct LuaKeymapOptions {
    pub description: String,
}

/// The options of a keymap set from Lua.
#[derive(Debug, PartialEq, Eq)]
pub struct LuaKeymapOpts {
    pub description: String,
}

/// The options of the quit command: quit even with unsaved changes, and
/// quit every window.
#[derive(Debug, Clone, Copy, PartialEq, Eq, Structural)]
pub struct QuitOptions {
    pub force: bool,
    pub all: bool,
}

/// The options of the write command: write even where it would be refused,
/// and write every document.
#[derive(Debug, Clone, Copy, PartialEq, Eq, Structural)]
pub struct WriteOptions {
    pub force: bool,
    pub all: bool,
}

/// A highlight group as Lua gives it: colors by name or `#rrggbb`.
#[derive(Debug, PartialEq, Eq)]
pub struct LuaHighlightGroup {
    pub fg: String,
    pub bg: String,
    pub bold: bool,
    pub italic: bool,
}

impl LuaHighlightGroup {
    /// The highlight group with the colors read; the first color that
    /// cannot be read is the error.
    pub fn to_highlight_group(&self) -> (r: Result<HighlightGroup, Error>)
        requires
            hex_cuts_ok(self.fg@),
            hex_cuts_ok(self.bg@),
            utf8_bytes(self.fg@).len() <= usize::MAX,
            utf8_bytes(self.bg@).len() <= usize::MAX,
        ensures
            match r {
                Ok(group) => parses_to(self.fg@, Ok(group.fg)) && parses_to(
                    self.bg@,
                    Ok(group.bg),
                ) && group.bold == self.bold,
                Err(e) => parses_to(self.fg@, Err(e)) || (exists|fg| parses_to(
                    self.fg@,
                    Ok(fg),
                )) && parses_to(self.bg@, Err(e)),
            },
    {
        let fg = match from_str(self.fg.as_str()) {
            Ok(fg) => fg,
            Err(e) => return Err(e),
        };
        let bg = match from_str(self.bg.as_str()) {
            Ok(bg) => bg,
            Err(e) => return Err(e),
        };
        Ok(HighlightGroup { fg, bg, bold: self.bold })
    }
}

/// A statusline section's style: a highlight group, or the name of one.
#[derive(Debug, PartialEq, Eq)]
pub enum LuaStatuslineStyle {
    HighlightGroup(HighlightGroup),
    Named(String),
}

/// A statusline section's style as the runtime keeps it.
#[derive(Debug, PartialEq, Eq)]
pub enum StatuslineStyle {
    HighlightGroup(HighlightGroup),
    Named(String),
}

} // verus!
