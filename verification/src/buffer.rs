//! A screen buffer: a rectangle of styled cells, written by position and
//! compared with the previous frame to find what to draw.
use std::ops::Range;

use vstd::prelude::*;

use crate::backend::{merged, Cell, Drawable, StyleMerge};
use crate::highlights::HighlightGroup;
use crate::rect::{Point, Rect};

verus! {

/// The cells a style is applied to: all of them, or those from one point
/// up to another, row by row.
#[derive(Debug)]
pub enum CellRange {
    All,
    Range(Range<Point>),
}

impl CellRange {
    /// Every cell.
    pub fn all() -> (r: CellRange)
        ensures
            r is All,
    {
        CellRange::All
    }
}

/// Where a style may be applied: anywhere, or within an area.
#[derive(Debug, PartialEq, Eq, Structural, Clone, Copy)]
pub enum BufferBounds {
    All,
    Area(Rect),
}

impl Default for BufferBounds {
    fn default() -> (r: BufferBounds)
        ensures
            r == BufferBounds::All,
    {
        BufferBounds::All
    }
}

/// A style and how it is merged into a cell's.
#[derive(Debug, Clone, Copy, PartialEq, Eq, Structural)]
pub struct StyleDef {
    pub behavior: StyleMerge,
    pub style: HighlightGroup,
}

impl StyleDef {
    /// `style`, replacing a cell's.
    pub fn replace(style: HighlightGroup) -> (r: StyleDef)
        ensures
            r == (StyleDef { style, behavior: StyleMerge::Replace }),
    {
        StyleDef { style, behavior: StyleMerge::Replace }
    }

    /// `style`, where a cell has none of its own.
    pub fn keep(style: HighlightGroup) -> (r: StyleDef)
        ensures
            r == (StyleDef { style, behavior: StyleMerge::Keep }),
    {
        StyleDef { style, behavior: StyleMerge::Keep }
    }

    /// `style`, over a cell's where it sets something.
    pub fn merge(style: HighlightGroup) -> (r: StyleDef)
        ensures
            r == (StyleDef { style, behavior: StyleMerge::Merge }),
    {
        StyleDef { style, behavior: StyleMerge::Merge }
    }
}

/// What gives a style and how to merge it.
pub trait IntoStyleDef: Sized {
    /// The style and behavior this stands for.
    spec fn style_def(self) -> StyleDef;

    fn into_style_def(self) -> (r: StyleDef)
        ensures
            r == self.style_def(),
    ;
}

impl IntoStyleDef for HighlightGroup {
    open spec fn style_def(self) -> StyleDef {
        StyleDef { behavior: StyleMerge::Replace, style: self }
    }

    fn into_style_def(self) -> (r: StyleDef) {
        StyleDef { behavior: StyleMerge::default(), style: self }
    }
}

impl IntoStyleDef for &HighlightGroup {
    open spec fn style_def(self) -> StyleDef {
        StyleDef { behavior: StyleMerge::Replace, style: *self }
    }

    fn into_style_def(self) -> (r: StyleDef) {
        StyleDef { behavior: StyleMerge::default(), style: *self }
    }
}

impl IntoStyleDef for StyleDef {
    open spec fn style_def(self) -> StyleDef {
        self
    }

    fn into_style_def(self) -> (r: StyleDef) {
        self
    }
}

/// The cell `c` with `def` merged into its style.
pub open spec fn styled(c: Cell, def: StyleDef) -> Cell {
    Cell { symbol: c.symbol, style: merged(c.style, def.style, def.behavior) }
}

/// The cells that must be drawn again: each cell of the buffer that differs
/// from the previous one, with its column and row.
#[derive(Debug)]
pub struct ChangeSet<'cs> {
    changes: Vec<Drawable<'cs>>,
}

impl<'cs> ChangeSet<'cs> {
    /// The changes, in buffer order.
    pub closed spec fn spec_changes(&self) -> Seq<Drawable<'cs>> {
        self.changes@
    }

    pub fn is_empty(&self) -> (r: bool)
        ensures
            r == (self.spec_changes().len() == 0),
    {
        self.changes.len() == 0
    }

    pub fn len(&self) -> (r: usize)
        ensures
            r == self.spec_changes().len(),
    {
        self.changes.len()
    }

    /// The changes, one by one.
    pub fn iter(&'cs self) -> (r: ChangeSetIter<'cs>)
        ensures
            r.spec_rest() == self.spec_changes(),
            r.wf(),
    {
        ChangeSetIter { changes: &self.changes, pos: 0 }
    }

    /// The changes, in buffer order.
    pub fn into_changes(self) -> (r: Vec<Drawable<'cs>>)
        ensures
            r@ == self.spec_changes(),
    {
        self.changes
    }
}

/// Walks the changes of a change set.
pub struct ChangeSetIter<'cs> {
    changes: &'cs Vec<Drawable<'cs>>,
    pos: usize,
}

impl<'cs> ChangeSetIter<'cs> {
    /// The position is within the changes.
    pub closed spec fn wf(&self) -> bool {
        self.pos <= self.changes@.len()
    }

    /// The changes not handed out yet.
    pub closed spec fn spec_rest(&self) -> Seq<Drawable<'cs>> {
        self.changes@.subrange(self.pos as int, self.changes@.len() as int)
    }

    /// The next change, if any is left.
    pub fn next(&mut self) -> (r: Option<&'cs Drawable<'cs>>)
        requires
            old(self).wf(),
        ensures
            old(self).spec_rest().len() == 0 ==> r is None && final(self).spec_rest() == old(
                self,
            ).spec_rest(),
            old(self).spec_rest().len() > 0 ==> r is Some && *r->0 == old(self).spec_rest()[0]
                && final(self).spec_rest() == old(self).spec_rest().drop_first(),
            final(self).wf(),
    {
        if self.pos < self.changes.len() {
            let d = &self.changes[self.pos];
            self.pos = self.pos + 1;
            assert(self.changes@.subrange(self.pos as int, self.changes@.len() as int)
                =~= old(self).spec_rest().drop_first());
            Some(d)
        } else {
            None
        }
    }
}

/// The positions where two rows of cells differ, among the first `n`.
pub open spec fn diff_positions(a: Seq<Cell>, b: Seq<Cell>, n: int) -> Seq<int>
    decreases n,
{
    if n <= 0 {
        Seq::empty()
    } else if a[n - 1] != b[n - 1] {
        diff_positions(a, b, n - 1).push(n - 1)
    } else {
        diff_positions(a, b, n - 1)
    }
}

/// The positions that `diff` reports are exactly those, below `n`, at
/// which the two frames differ, each once and in increasing order.
pub proof fn law_diff_reports_changed_cells(a: Seq<Cell>, b: Seq<Cell>, n: int)
    requires
        0 <= n,
    ensures
        forall|k: int| 0 <= k < n ==> (a[k] != b[k] <==> diff_positions(a, b, n).contains(k)),
        forall|i: int, j: int|
            0 <= i < j < diff_positions(a, b, n).len() ==> diff_positions(a, b, n)[i]
                < diff_positions(a, b, n)[j],
        forall|j: int|
            0 <= j < diff_positions(a, b, n).len() ==> 0 <= #[trigger] diff_positions(a, b, n)[j]
                < n,
    decreases n,
{
    if n > 0 {
        law_diff_reports_changed_cells(a, b, n - 1);
        let prev = diff_positions(a, b, n - 1);
        if a[n - 1] != b[n - 1] {
            assert(diff_positions(a, b, n) == prev.push(n - 1));
            assert forall|k: int| 0 <= k < n implies (a[k] != b[k] <==> diff_positions(
                a,
                b,
                n,
            ).contains(k)) by {
                if k < n - 1 {
                    if prev.contains(k) {
                        let j = choose|j: int| 0 <= j < prev.len() && prev[j] == k;
                        assert(diff_positions(a, b, n)[j] == k);
                    }
                    if diff_positions(a, b, n).contains(k) {
                        let j = choose|j: int|
                            0 <= j < diff_positions(a, b, n).len() && diff_positions(a, b, n)[j] == k;
                        assert(j < prev.len());
                        assert(prev[j] == k);
                    }
                } else {
                    assert(diff_positions(a, b, n)[prev.len() as int] == k);
                }
            }
        } else {
            assert forall|k: int| 0 <= k < n implies (a[k] != b[k] <==> diff_positions(
                a,
                b,
                n,
            ).contains(k)) by {
                if k == n - 1 {
                    assert(!prev.contains(k));
                }
            }
        }
    }
}

/// A frame compared with itself has no cell to draw.
pub proof fn law_diff_of_same_frame_is_empty(a: Seq<Cell>, n: int)
    ensures
        diff_positions(a, a, n).len() == 0,
    decreases n,
{
    if n > 0 {
        law_diff_of_same_frame_is_empty(a, n - 1);
    }
}

/// The cell at column `x` of row `y` of a buffer `width` wide.
pub open spec fn cell_index(width: int, x: int, y: int) -> int {
    y * width + x
}

/// Whether `k` is the index of a cell of `area`, columns past the buffer's
/// width running on into the next row.
pub open spec fn area_hits(k: int, width: int, area: Rect) -> bool {
    exists|x: int, y: int|
        area.x <= x < area.x + area.width && area.y <= y < area.y + area.height
            && #[trigger] cell_index(width, x, y) == k
}

/// Whether `k` is the index of a cell of `area` in its rows before `yy`,
/// or in row `yy` before column `xx`.
pub open spec fn area_hits_upto(k: int, width: int, area: Rect, yy: int, xx: int) -> bool {
    exists|x: int, y: int|
        area.x <= x < area.x + area.width && ((area.y <= y < yy) || (y == yy && x < xx))
            && #[trigger] cell_index(width, x, y) == k
}

/// Whether the cell at index `k` of a buffer `width` wide gets a style
/// applied to `range` within `bounds`. Within an area, a range skips the
/// cells left of or above the area, and those whose column or row is past
/// the area's width or height.
pub open spec fn range_selects(range: CellRange, bounds: BufferBounds, width: int, k: int) -> bool {
    match range {
        CellRange::All => match bounds {
            BufferBounds::All => true,
            BufferBounds::Area(area) => area_hits(k, width, area),
        },
        CellRange::Range(r) => {
            let start = cell_index(width, r.start.x as int, r.start.y as int);
            let end = cell_index(width, r.end.x as int, r.end.y as int);
            &&& start <= k < end
            &&& match bounds {
                BufferBounds::All => true,
                BufferBounds::Area(area) => {
                    &&& !(k % width < area.x || k / width < area.y)
                    &&& !(k % width > area.width || k / width > area.height)
                },
            }
        },
    }
}

/// Whether a style can be applied to `range` within `bounds` on a buffer
/// `width` wide with `len` cells: the indices it computes fit a `u16`, and
/// the cells it styles without checking exist.
pub open spec fn range_fits(range: CellRange, bounds: BufferBounds, width: int, len: int) -> bool {
    match range {
        CellRange::All => match bounds {
            BufferBounds::All => true,
            BufferBounds::Area(area) => {
                &&& area.x + area.width <= u16::MAX
                &&& area.y + area.height <= u16::MAX
                &&& area.width > 0 && area.height > 0 ==> cell_index(
                    width,
                    area.x + area.width - 1,
                    area.y + area.height - 1,
                ) <= u16::MAX
            },
        },
        CellRange::Range(r) => {
            let start = cell_index(width, r.start.x as int, r.start.y as int);
            let end = cell_index(width, r.end.x as int, r.end.y as int);
            &&& start <= u16::MAX
            &&& end <= u16::MAX
            &&& match bounds {
                BufferBounds::All => start < end ==> end <= len,
                BufferBounds::Area(_) => {
                    &&& start < end ==> width > 0
                    &&& forall|k: int|
                        start <= k < end && #[trigger] range_selects(range, bounds, width, k)
                            ==> k < len
                },
            }
        },
    }
}

/// A rectangle of styled cells, row by row.
#[derive(Debug)]
pub struct Buffer {
    area: Rect,
    cells: Vec<Cell>,
}

/// `n` blank cells.
fn blank_cells(n: usize) -> (cells: Vec<Cell>)
    ensures
        cells@.len() == n,
        forall|i: int| 0 <= i < n ==> cells@[i] == Cell::blank(),
{
    let mut cells: Vec<Cell> = Vec::new();
    let mut i: usize = 0;
    while i < n
        invariant
            i <= n,
            cells@.len() == i,
            forall|k: int| 0 <= k < i ==> cells@[k] == Cell::blank(),
        decreases n - i,
    {
        cells.push(Cell::default());
        i += 1;
    }
    cells
}

/// The blank cells of `area`.
fn make_cells(area: Rect) -> (cells: Vec<Cell>)
    requires
        area.width * area.height <= u16::MAX,
    ensures
        cells@.len() == area.width * area.height,
        forall|i: int| 0 <= i < cells@.len() ==> cells@[i] == Cell::blank(),
{
    blank_cells((area.width * area.height) as usize)
}

impl Buffer {
    /// The area the buffer covers.
    pub closed spec fn spec_area(&self) -> Rect {
        self.area
    }

    /// The cells, row by row.
    pub closed spec fn spec_cells(&self) -> Seq<Cell> {
        self.cells@
    }

    /// There is a cell for each column of each row, and their number is a
    /// `u16`.
    pub open spec fn wf(&self) -> bool {
        &&& self.spec_cells().len() == self.spec_area().width * self.spec_area().height
        &&& self.spec_area().width * self.spec_area().height <= u16::MAX
    }

    /// A buffer of blank cells over `area`.
    pub fn new(area: Rect) -> (b: Buffer)
        requires
            area.width * area.height <= u16::MAX,
        ensures
            b.wf(),
            b.spec_area() == area,
            forall|i: int| 0 <= i < b.spec_cells().len() ==> b.spec_cells()[i] == Cell::blank(),
    {
        Buffer { cells: make_cells(area), area }
    }

    /// The index of the cell at column `x` of row `y`.
    fn idx(&self, x: u16, y: u16) -> (r: u16)
        requires
            cell_index(self.spec_area().width as int, x as int, y as int) <= u16::MAX,
        ensures
            r == cell_index(self.spec_area().width as int, x as int, y as int),
    {
        y * self.area.width + x
    }

    /// Writes `ch` at column `x` of row `y`, merging `style` into the
    /// cell's.
    pub fn set_cell<S: IntoStyleDef>(&mut self, x: u16, y: u16, ch: char, style: S)
        requires
            old(self).wf(),
            cell_index(old(self).spec_area().width as int, x as int, y as int) < old(
                self,
            ).spec_cells().len(),
        ensures
            final(self).wf(),
            final(self).spec_area() == old(self).spec_area(),
            ({
                let k = cell_index(old(self).spec_area().width as int, x as int, y as int);
                final(self).spec_cells() == old(self).spec_cells().update(
                    k,
                    Cell { symbol: ch, ..styled(old(self).spec_cells()[k], style.style_def()) },
                )
            }),
    {
        let idx = self.idx(x, y);
        let style_def = style.into_style_def();
        let cell = &mut self.cells[idx as usize];
        cell.merge_style(style_def.style, style_def.behavior);
        cell.symbol = ch;
    }

    /// Writes the chars of `string` from column `x` of row `y` on, merging
    /// `style` into each cell's.
    pub fn set_string<S: IntoStyleDef>(&mut self, x: u16, y: u16, string: &str, style: S)
        requires
            old(self).wf(),
            cell_index(old(self).spec_area().width as int, x as int, y as int) <= u16::MAX,
            cell_index(old(self).spec_area().width as int, x as int, y as int) + string@.len()
                <= old(self).spec_cells().len(),
        ensures
            final(self).wf(),
            final(self).spec_area() == old(self).spec_area(),
            final(self).spec_cells().len() == old(self).spec_cells().len(),
            ({
                let start = cell_index(old(self).spec_area().width as int, x as int, y as int);
                forall|k: int|
                    0 <= k < old(self).spec_cells().len() ==> #[trigger] final(self).spec_cells()[k]
                        == if start <= k < start + string@.len() {
                        Cell {
                            symbol: string@[k - start],
                            ..styled(old(self).spec_cells()[k], style.style_def())
                        }
                    } else {
                        old(self).spec_cells()[k]
                    }
            }),
    {
        let idx = self.idx(x, y);
        let style_def = style.into_style_def();
        let n = string.unicode_len();
        let ghost start = idx as int;
        let len = self.cells.len();
        let mut i: usize = 0;
        while i < n
            invariant
                len == self.cells@.len(),
                n == string@.len(),
                i <= n,
                start == idx,
                start + n <= old(self).spec_cells().len(),
                style_def == style.style_def(),
                self.area == old(self).spec_area(),
                self.cells@.len() == old(self).spec_cells().len(),
                forall|k: int|
                    0 <= k < old(self).spec_cells().len() ==> #[trigger] self.cells@[k] == if start
                        <= k < start + i {
                        Cell {
                            symbol: string@[k - start],
                            ..styled(old(self).spec_cells()[k], style_def)
                        }
                    } else {
                        old(self).spec_cells()[k]
                    },
            decreases n - i,
        {
            let ch = string.get_char(i);
            let cell = &mut self.cells[idx as usize + i];
            cell.merge_style(style_def.style, style_def.behavior);
            cell.symbol = ch;
            i += 1;
        }
    }

    /// Merges `style_def` into the style of the cells of `range` within
    /// `bounds`.
    pub fn set_range_style<S: IntoStyleDef>(
        &mut self,
        range: CellRange,
        style_def: S,
        bounds: BufferBounds,
    )
        requires
            old(self).wf(),
            range_fits(
                range,
                bounds,
                old(self).spec_area().width as int,
                old(self).spec_cells().len() as int,
            ),
        ensures
            final(self).wf(),
            final(self).spec_area() == old(self).spec_area(),
            final(self).spec_cells().len() == old(self).spec_cells().len(),
            forall|k: int|
                0 <= k < old(self).spec_cells().len() ==> #[trigger] final(self).spec_cells()[k]
                    == if range_selects(range, bounds, old(self).spec_area().width as int, k) {
                    styled(old(self).spec_cells()[k], style_def.style_def())
                } else {
                    old(self).spec_cells()[k]
                },
    {
        let def = style_def.into_style_def();
        let ghost width = self.area.width as int;
        let ghost orig = self.cells@;
        let len = self.cells.len();
        match range {
            CellRange::All => match bounds {
                BufferBounds::All => {
                    let mut i: usize = 0;
                    while i < len
                        invariant
                            len == orig.len(),
                            self.cells@.len() == len,
                            self.area == old(self).spec_area(),
                            i <= len,
                            forall|k: int|
                                0 <= k < len ==> #[trigger] self.cells@[k] == if k < i {
                                    styled(orig[k], def)
                                } else {
                                    orig[k]
                                },
                        decreases len - i,
                    {
                        let cell = &mut self.cells[i];
                        cell.merge_style(def.style, def.behavior);
                        i += 1;
                    }
                },
                BufferBounds::Area(area) => {
                    self.style_area(area, def);
                },
            },
            CellRange::Range(r) => {
                let start = self.idx(r.start.x, r.start.y) as usize;
                let end = self.idx(r.end.x, r.end.y) as usize;
                let mut i: usize = start;
                let ghost rr = CellRange::Range(r);
                while i < end
                    invariant
                        len == orig.len(),
                        self.cells@.len() == len,
                        self.area == old(self).spec_area(),
                        width == self.area.width,
                        start <= i,
                        start <= end ==> i <= end,
                        start == cell_index(width, r.start.x as int, r.start.y as int),
                        end == cell_index(width, r.end.x as int, r.end.y as int),
                        range_fits(rr, bounds, width, len as int),
                        rr == CellRange::Range(r),
                        forall|k: int|
                            0 <= k < len ==> #[trigger] self.cells@[k] == if k < i
                                && range_selects(rr, bounds, width, k) {
                                styled(orig[k], def)
                            } else {
                                orig[k]
                            },
                    decreases end - i,
                {
                    assert(start <= i < end);
                    let selected = match bounds {
                        BufferBounds::All => true,
                        BufferBounds::Area(area) => {
                            assert(width > 0);
                            let w = self.area.width as usize;
                            let x = i % w;
                            let y = i / w;
                            !(x < area.x as usize || y < area.y as usize) && !(x > area.width as usize
                                || y > area.height as usize)
                        },
                    };
                    assert(selected == range_selects(rr, bounds, width, i as int));
                    if selected {
                        let cell = &mut self.cells[i];
                        cell.merge_style(def.style, def.behavior);
                    }
                    i += 1;
                }
            },
        }
    }

    /// Merges `def` into the style of the cells of `area`, row by row,
    /// skipping indices past the last cell.
    fn style_area(&mut self, area: Rect, def: StyleDef)
        requires
            old(self).wf(),
            range_fits(
                CellRange::All,
                BufferBounds::Area(area),
                old(self).spec_area().width as int,
                old(self).spec_cells().len() as int,
            ),
        ensures
            final(self).wf(),
            final(self).spec_area() == old(self).spec_area(),
            final(self).spec_cells().len() == old(self).spec_cells().len(),
            forall|k: int|
                0 <= k < old(self).spec_cells().len() ==> #[trigger] final(self).spec_cells()[k]
                    == if area_hits(k, old(self).spec_area().width as int, area) {
                    styled(old(self).spec_cells()[k], def)
                } else {
                    old(self).spec_cells()[k]
                },
    {
        let ghost width = self.area.width as int;
        let ghost orig = self.cells@;
        let len = self.cells.len();
        let y_end = area.y + area.height;
        let x_end = area.x + area.width;
        let mut y = area.y;
        while y < y_end
            invariant
                len == orig.len(),
                self.cells@.len() == len,
                self.area == old(self).spec_area(),
                width == self.area.width,
                y_end == area.y + area.height,
                x_end == area.x + area.width,
                area.y <= y <= y_end,
                range_fits(CellRange::All, BufferBounds::Area(area), width, len as int),
                forall|k: int|
                    0 <= k < len ==> #[trigger] self.cells@[k] == if area_hits_upto(
                        k,
                        width,
                        area,
                        y as int,
                        area.x as int,
                    ) {
                        styled(orig[k], def)
                    } else {
                        orig[k]
                    },
            decreases y_end - y,
        {
            let mut x = area.x;
            while x < x_end
                invariant
                    len == orig.len(),
                    self.cells@.len() == len,
                    self.area == old(self).spec_area(),
                    width == self.area.width,
                    y_end == area.y + area.height,
                    x_end == area.x + area.width,
                    area.y <= y < y_end,
                    area.x <= x <= x_end,
                    range_fits(CellRange::All, BufferBounds::Area(area), width, len as int),
                    forall|k: int|
                        0 <= k < len ==> #[trigger] self.cells@[k] == if area_hits_upto(
                            k,
                            width,
                            area,
                            y as int,
                            x as int,
                        ) {
                            styled(orig[k], def)
                        } else {
                            orig[k]
                        },
                decreases x_end - x,
            {
                proof {
                    let ymax = area.y + area.height - 1;
                    let xmax = area.x + area.width - 1;
                    assert(y * width <= ymax * width) by (nonlinear_arith)
                        requires
                            y <= ymax,
                            width >= 0,
                    ;
                }
                let idx = self.idx(x, y);
                let ghost before = self.cells@;
                if (idx as usize) < len {
                    let cell = &mut self.cells[idx as usize];
                    cell.merge_style(def.style, def.behavior);
                }
                proof {
                    let k0 = idx as int;
                    assert forall|k: int| 0 <= k < len implies #[trigger] self.cells@[k] == if area_hits_upto(
                        k,
                        width,
                        area,
                        y as int,
                        x + 1,
                    ) {
                        styled(orig[k], def)
                    } else {
                        orig[k]
                    } by {
                        if k == k0 {
                            assert(cell_index(width, x as int, y as int) == k0);
                            assert(area_hits_upto(k, width, area, y as int, x + 1));
                            crate::backend::law_merged_twice(orig[k].style, def.style, def.behavior);
                        } else {
                            if area_hits_upto(k, width, area, y as int, x + 1) {
                                let (wx, wy) = choose|wx: int, wy: int|
                                    area.x <= wx < area.x + area.width && ((area.y <= wy < y) || (
                                    wy == y && wx < x + 1)) && #[trigger] cell_index(width, wx, wy)
                                        == k;
                                assert(cell_index(width, wx, wy) == k);
                                assert(area_hits_upto(k, width, area, y as int, x as int));
                            }
                            if area_hits_upto(k, width, area, y as int, x as int) {
                                let (wx, wy) = choose|wx: int, wy: int|
                                    area.x <= wx < area.x + area.width && ((area.y <= wy < y) || (
                                    wy == y && wx < x)) && #[trigger] cell_index(width, wx, wy)
                                        == k;
                                assert(area_hits_upto(k, width, area, y as int, x + 1));
                            }
                        }
                    }
                }
                x += 1;
            }
            proof {
                assert forall|k: int| #[trigger] area_hits_upto(k, width, area, y as int, x_end as int)
                    == area_hits_upto(k, width, area, y + 1, area.x as int) by {
                    if area_hits_upto(k, width, area, y as int, x_end as int) {
                        let (wx, wy) = choose|wx: int, wy: int|
                            area.x <= wx < area.x + area.width && ((area.y <= wy < y) || (wy == y
                                && wx < x_end)) && #[trigger] cell_index(width, wx, wy) == k;
                        assert(cell_index(width, wx, wy) == k);
                    }
                    if area_hits_upto(k, width, area, y + 1, area.x as int) {
                        let (wx, wy) = choose|wx: int, wy: int|
                            area.x <= wx < area.x + area.width && ((area.y <= wy < y + 1) || (wy
                                == y + 1 && wx < area.x)) && #[trigger] cell_index(width, wx, wy)
                                == k;
                        assert(cell_index(width, wx, wy) == k);
                    }
                }
            }
            y += 1;
        }
        proof {
            assert forall|k: int| #[trigger] area_hits_upto(k, width, area, y_end as int, area.x as int)
                == area_hits(k, width, area) by {
                if area_hits(k, width, area) {
                    let (wx, wy) = choose|wx: int, wy: int|
                        area.x <= wx < area.x + area.width && area.y <= wy < area.y + area.height
                            && #[trigger] cell_index(width, wx, wy) == k;
                    assert(cell_index(width, wx, wy) == k);
                }
                if area_hits_upto(k, width, area, y_end as int, area.x as int) {
                    let (wx, wy) = choose|wx: int, wy: int|
                        area.x <= wx < area.x + area.width && ((area.y <= wy < y_end) || (wy
                            == y_end && wx < area.x)) && #[trigger] cell_index(width, wx, wy) == k;
                    assert(cell_index(width, wx, wy) == k);
                }
            }
        }
    }

    /// Moves the buffer to `new_area`, with blank cells.
    pub fn resize(&mut self, new_area: Rect)
        requires
            new_area.width * new_area.height <= u16::MAX,
        ensures
            final(self).wf(),
            final(self).spec_area() == new_area,
            forall|i: int|
                0 <= i < final(self).spec_cells().len() ==> final(self).spec_cells()[i]
                    == Cell::blank(),
    {
        self.area = new_area;
        self.cells = make_cells(new_area);
    }

    /// The cells of this buffer that differ from those of `other`, the
    /// previous frame, each with its column and row.
    pub fn diff(&self, other: &Buffer) -> (r: ChangeSet<'_>)
        requires
            self.wf(),
            other.spec_cells().len() >= self.spec_cells().len(),
        ensures
            ({
                let cells = self.spec_cells();
                let width = self.spec_area().width as int;
                let positions = diff_positions(cells, other.spec_cells(), cells.len() as int);
                &&& r.spec_changes().len() == positions.len()
                &&& forall|j: int|
                    0 <= j < positions.len() ==> {
                        let k = #[trigger] positions[j];
                        &&& r.spec_changes()[j].x == k % width
                        &&& r.spec_changes()[j].y == k / width
                        &&& *r.spec_changes()[j].cell == cells[k]
                    }
            }),
    {
        let ghost width = self.area.width as int;
        let ghost height = self.area.height as int;
        let n = self.cells.len();
        let mut changes: Vec<Drawable> = Vec::new();
        let mut idx: usize = 0;
        while idx < n
            invariant
                n == self.spec_cells().len(),
                self.wf(),
                width == self.spec_area().width,
                height == self.spec_area().height,
                other.spec_cells().len() >= n,
                idx <= n,
                ({
                    let positions = diff_positions(self.spec_cells(), other.spec_cells(), idx as int);
                    &&& changes@.len() == positions.len()
                    &&& forall|j: int|
                        0 <= j < positions.len() ==> {
                            let k = #[trigger] positions[j];
                            &&& changes@[j].x == k % width
                            &&& changes@[j].y == k / width
                            &&& *changes@[j].cell == self.spec_cells()[k]
                        }
                }),
            decreases n - idx,
        {
            let cell = &self.cells[idx];
            if *cell != other.cells[idx] {
                let w = self.area.width as usize;
                proof {
                    assert(w > 0) by (nonlinear_arith)
                        requires
                            idx < n,
                            n == width * height,
                            w == width,
                            width >= 0,
                            height >= 0,
                    ;
                    assert(idx / w < height) by (nonlinear_arith)
                        requires
                            idx < width * height,
                            w == width,
                            w > 0,
                    ;
                }
                let x = idx % w;
                let y = idx / w;
                changes.push(Drawable { cell, x: x as u16, y: y as u16 });
            }
            idx += 1;
        }
        ChangeSet { changes }
    }
}

} // verus!
