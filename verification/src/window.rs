//! Windows: a view of one document, with its scroll position, selection and
//! screen area.
use std::ops::Range;

use vstd::prelude::*;

use crate::document::DocumentId;
use crate::rect;
use crate::rect::Rect;

verus! {

/// The id of a window; never zero.
#[derive(Debug, Clone, Copy, PartialEq, Eq, Structural, PartialOrd, Ord, Hash)]
pub struct WindowId(usize);

impl WindowId {
    #[verifier::type_invariant]
    closed spec fn nonzero(self) -> bool {
        self.0 >= 1
    }

    /// The number of the window.
    pub closed spec fn id(self) -> usize {
        self.0
    }

    /// The window numbered `window`, unless it is zero.
    pub fn new(window: usize) -> (r: Option<WindowId>)
        ensures
            window == 0 ==> r is None,
            window != 0 ==> r is Some && r->0.id() == window,
    {
        if window == 0 {
            None
        } else {
            Some(WindowId(window))
        }
    }

    /// The next id, saturating at the largest one.
    pub fn next(&self) -> (r: WindowId)
        ensures
            r.id() == (if self.id() < usize::MAX {
                self.id() + 1
            } else {
                usize::MAX as int
            }),
    {
        proof {
            use_type_invariant(self);
        }
        WindowId(self.0.saturating_add(1))
    }

    /// The number of the window.
    pub fn get(&self) -> (r: usize)
        ensures
            r == self.id(),
            r >= 1,
    {
        proof {
            use_type_invariant(self);
        }
        self.0
    }
}

/// Two ids with the same number are the same id.
pub proof fn lemma_window_id_eq(a: WindowId, b: WindowId)
    requires
        a.id() == b.id(),
    ensures
        a == b,
{
}

impl Default for WindowId {
    fn default() -> (r: WindowId)
        ensures
            r.id() == 1,
    {
        WindowId(1)
    }
}

impl From<WindowId> for usize {
    fn from(value: WindowId) -> (r: usize) {
        value.0
    }
}

impl vstd::std_specs::convert::FromSpecImpl<WindowId> for usize {
    open spec fn obeys_from_spec() -> bool {
        true
    }

    open spec fn from_spec(value: WindowId) -> usize {
        value.id()
    }
}

/// A position in a document: a column and a line.
#[derive(Debug, Default, Clone, Copy, PartialEq, Eq, Structural, PartialOrd, Ord)]
pub struct Point {
    pub x: usize,
    pub y: usize,
}

impl Point {
    pub fn new(x: usize, y: usize) -> (p: Self)
        ensures
            p == (Point { x, y }),
    {
        Self { x, y }
    }
}

/// A span of text between two positions.
#[derive(Debug, Default, Clone, Copy, PartialEq, Eq, Structural, PartialOrd, Ord)]
pub struct Selection {
    pub start: Point,
    pub end: Point,
}

/// A document position seen through a window scrolled by `scroll` and
/// drawn in `area`: shifted by the scroll, at least the area's origin, at
/// most the area's size.
pub open spec fn screen_point(p: Point, scroll: Point, area: Rect) -> rect::Point {
    let sx = if p.x >= scroll.x { p.x - scroll.x } else { 0 };
    let sy = if p.y >= scroll.y { p.y - scroll.y } else { 0 };
    let sx = if sx >= area.x { sx } else { area.x as int };
    let sy = if sy >= area.y { sy } else { area.y as int };
    rect::Point {
        x: (if sx <= area.width { sx } else { area.width as int }) as u16,
        y: (if sy <= area.height { sy } else { area.height as int }) as u16,
    }
}

fn to_screen(p: Point, scroll: Point, area: Rect) -> (r: rect::Point)
    ensures
        r == screen_point(p, scroll, area),
{
    let sx = p.x.saturating_sub(scroll.x);
    let sy = p.y.saturating_sub(scroll.y);
    let sx = if sx >= area.x as usize { sx } else { area.x as usize };
    let sy = if sy >= area.y as usize { sy } else { area.y as usize };
    rect::Point {
        x: (if sx <= area.width as usize { sx } else { area.width as usize }) as u16,
        y: (if sy <= area.height as usize { sy } else { area.height as usize }) as u16,
    }
}

impl Selection {
    /// The selection as a range of screen cells.
    pub fn to_range(self, scroll: Point, area: Rect) -> (r: Range<rect::Point>)
        ensures
            r.start == screen_point(self.start, scroll, area),
            r.end == screen_point(self.end, scroll, area),
    {
        let start_point = to_screen(self.start, scroll, area);
        let end_point = to_screen(self.end, scroll, area);
        start_point..end_point
    }
}

/// A window onto a document.
#[derive(Debug, Clone, Copy)]
pub struct Window {
    pub id: WindowId,
    pub document: DocumentId,
    // current text selection defined as start/end points, this should be updated
    // whenever the cursor moves on the window, and cleared when any action that
    // involves the selection is performed
    selection: Selection,
    scroll: Point,
    pub area: Rect,
}

impl Window {
    pub closed spec fn spec_selection(self) -> Selection {
        self.selection
    }

    pub closed spec fn spec_scroll(self) -> Point {
        self.scroll
    }

    pub closed spec fn spec_id(self) -> WindowId {
        self.id
    }

    pub closed spec fn spec_document(self) -> DocumentId {
        self.document
    }

    pub closed spec fn spec_area(self) -> Rect {
        self.area
    }

    /// This window moved to `area`.
    pub closed spec fn with_area(self, area: Rect) -> Window {
        Window { area, ..self }
    }

    /// This window renumbered `id`.
    pub closed spec fn with_id(self, id: WindowId) -> Window {
        Window { id, ..self }
    }

    /// What `with_area` changes and keeps.
    pub broadcast proof fn lemma_with_area(self, area: Rect)
        ensures
            #[trigger] self.with_area(area).spec_area() == area,
            self.with_area(area).spec_id() == self.spec_id(),
            self.with_area(area).spec_document() == self.spec_document(),
            self.with_area(area).spec_scroll() == self.spec_scroll(),
            self.with_area(area).spec_selection() == self.spec_selection(),
    {
    }

    /// What `with_id` changes and keeps.
    pub broadcast proof fn lemma_with_id(self, id: WindowId)
        ensures
            #[trigger] self.with_id(id).spec_id() == id,
            self.with_id(id).spec_area() == self.spec_area(),
            self.with_id(id).spec_document() == self.spec_document(),
            self.with_id(id).spec_scroll() == self.spec_scroll(),
            self.with_id(id).spec_selection() == self.spec_selection(),
    {
    }

    /// Moving and renumbering a window can be done in either order.
    pub broadcast proof fn lemma_with_commute(self, area: Rect, id: WindowId)
        ensures
            #[trigger] self.with_area(area).with_id(id) == self.with_id(id).with_area(area),
    {
    }

    /// Moving a window to where it is changes nothing.
    pub broadcast proof fn lemma_with_own_area(self)
        ensures
            #[trigger] self.with_area(self.spec_area()) == self,
    {
    }

    /// Moving a window twice is moving it once, to the second area.
    pub broadcast proof fn lemma_with_area_twice(self, a: Rect, b: Rect)
        ensures
            #[trigger] self.with_area(a).with_area(b) == self.with_area(b),
    {
    }

    /// Moves the window to `area`.
    pub fn set_area(&mut self, area: Rect)
        ensures
            *final(self) == old(self).with_area(area),
    {
        self.area = area;
    }

    /// The document the window shows.
    pub fn document(&self) -> (r: DocumentId)
        ensures
            r == self.spec_document(),
    {
        self.document
    }

    /// Makes the window show `document`, keeping all else.
    pub fn set_document(&mut self, document: DocumentId)
        ensures
            final(self).spec_document() == document,
            final(self).spec_id() == old(self).spec_id(),
            final(self).spec_area() == old(self).spec_area(),
            final(self).spec_scroll() == old(self).spec_scroll(),
            final(self).spec_selection() == old(self).spec_selection(),
    {
        self.document = document;
    }

    /// Renumbers the window.
    pub fn set_id(&mut self, id: WindowId)
        ensures
            *final(self) == old(self).with_id(id),
    {
        self.id = id;
    }

    /// A window on `document` with no area, scroll or selection yet.
    pub fn new(document: DocumentId) -> (w: Window)
        ensures
            w.spec_document() == document,
            w.spec_area() == (Rect { x: 0, y: 0, width: 0, height: 0 }),
            w.spec_id().id() == 1,
            w.spec_scroll() == (Point { x: 0, y: 0 }),
            w.spec_selection() == (Selection { start: Point { x: 0, y: 0 }, end: Point { x: 0, y: 0 } }),
    {
        Window {
            document,
            area: Rect { x: 0, y: 0, width: 0, height: 0 },
            id: WindowId::default(),
            scroll: Point { x: 0, y: 0 },
            selection: Selection { start: Point { x: 0, y: 0 }, end: Point { x: 0, y: 0 } },
        }
    }

    pub fn selection(&self) -> (r: Selection)
        ensures
            r == self.spec_selection(),
    {
        self.selection
    }

    pub fn set_selection(&mut self, selection: Selection)
        ensures
            final(self).spec_selection() == selection,
            final(self).spec_scroll() == old(self).spec_scroll(),
            final(self).spec_id() == old(self).spec_id(),
            final(self).spec_document() == old(self).spec_document(),
            final(self).spec_area() == old(self).spec_area(),
    {
        self.selection = selection;
    }

    /// The region of the screen the window covers.
    pub fn area(&self) -> (r: Rect)
        ensures
            r == self.spec_area(),
    {
        self.area
    }

    pub fn scroll(&self) -> (r: Point)
        ensures
            r == self.spec_scroll(),
    {
        self.scroll
    }

    /// Scrolls one column left, stopping at the first.
    pub fn scroll_left(&mut self)
        ensures
            final(self).spec_scroll() == (Point {
                x: (if old(self).spec_scroll().x > 0 {
                    old(self).spec_scroll().x - 1
                } else {
                    0
                }) as usize,
                y: old(self).spec_scroll().y,
            }),
            final(self).spec_selection() == old(self).spec_selection(),
            final(self).spec_id() == old(self).spec_id(),
            final(self).spec_document() == old(self).spec_document(),
            final(self).spec_area() == old(self).spec_area(),
    {
        self.scroll.x = self.scroll.x.saturating_sub(1);
    }

    /// Scrolls one line down.
    pub fn scroll_down(&mut self)
        requires
            old(self).spec_scroll().y < usize::MAX,
        ensures
            final(self).spec_scroll() == (Point {
                x: old(self).spec_scroll().x,
                y: (old(self).spec_scroll().y + 1) as usize,
            }),
            final(self).spec_selection() == old(self).spec_selection(),
            final(self).spec_id() == old(self).spec_id(),
            final(self).spec_document() == old(self).spec_document(),
            final(self).spec_area() == old(self).spec_area(),
    {
        self.scroll.y += 1;
    }

    /// Scrolls one line up, stopping at the first.
    pub fn scroll_up(&mut self)
        ensures
            final(self).spec_scroll() == (Point {
                x: old(self).spec_scroll().x,
                y: (if old(self).spec_scroll().y > 0 {
                    old(self).spec_scroll().y - 1
                } else {
                    0
                }) as usize,
            }),
            final(self).spec_selection() == old(self).spec_selection(),
            final(self).spec_id() == old(self).spec_id(),
            final(self).spec_document() == old(self).spec_document(),
            final(self).spec_area() == old(self).spec_area(),
    {
        self.scroll.y = self.scroll.y.saturating_sub(1);
    }

    /// Scrolls one column right.
    pub fn scroll_right(&mut self)
        requires
            old(self).spec_scroll().x < usize::MAX,
        ensures
            final(self).spec_scroll() == (Point {
                x: (old(self).spec_scroll().x + 1) as usize,
                y: old(self).spec_scroll().y,
            }),
            final(self).spec_selection() == old(self).spec_selection(),
            final(self).spec_id() == old(self).spec_id(),
            final(self).spec_document() == old(self).spec_document(),
            final(self).spec_area() == old(self).spec_area(),
    {
        self.scroll.x += 1;
    }

    /// Scrolls so that line `to` is the first shown.
    pub fn scroll_y_to(&mut self, to: usize)
        ensures
            final(self).spec_scroll() == (Point { x: old(self).spec_scroll().x, y: to }),
            final(self).spec_selection() == old(self).spec_selection(),
            final(self).spec_id() == old(self).spec_id(),
            final(self).spec_document() == old(self).spec_document(),
            final(self).spec_area() == old(self).spec_area(),
    {
        self.scroll.y = to;
    }
}

} // verus!
