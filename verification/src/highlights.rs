//! Highlight groups: the colors and weight text is drawn with.
use vstd::prelude::*;

use crate::color::Color;

verus! {

/// A foreground and a background color, and whether the text is bold.
#[derive(Debug, Clone, Copy, PartialEq, Eq, Structural)]
pub struct HighlightGroup {
    pub fg: Color,
    pub bg: Color,
    pub bold: bool,
}

impl HighlightGroup {
    /// The default colors of the terminal, not bold.
    pub open spec fn plain() -> HighlightGroup {
        HighlightGroup { fg: Color::Reset, bg: Color::Reset, bold: false }
    }
}

impl Default for HighlightGroup {
    fn default() -> (r: HighlightGroup)
        ensures
            r == HighlightGroup::plain(),
    {
        HighlightGroup { fg: Color::Reset, bg: Color::Reset, bold: false }
    }
}

} // verus!
