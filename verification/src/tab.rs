//! A tab: the layout of its windows.
use vstd::prelude::*;

use crate::rect::Rect;
use crate::tree::Tree;

verus! {

/// A tab of the editor, with its windows laid out over its area.
#[derive(Debug)]
pub struct Tab {
    pub tree: Tree,
}

impl Tab {
    /// A tab over `area` with no window yet.
    pub fn new(area: Rect) -> (tab: Tab)
        ensures
            tab.tree.wf(),
            tab.tree.spec_area() == area,
            tab.tree.spec_windows() == Map::<usize, crate::window::Window>::empty(),
            tab.tree.spec_next_window().id() == 1,
            tab.tree.spec_focus().id() == 1,
    {
        Tab { tree: Tree::new(area) }
    }
}

} // verus!
