//! The editor layer of the screen: the statusline, its sections laid out
//! from the left and from the right edge.
use vstd::prelude::*;

use crate::backend::Cell;
use crate::buffer::{cell_index, Buffer, IntoStyleDef, StyleDef};
use crate::highlights::HighlightGroup;
use crate::rect::Rect;
use crate::document::Document;
use crate::text::{line_chars, line_start, num_lines, rope_chars, rope_char, rope_len_lines, rope_line_to_char, string_push};
use crate::window::Window;
use crate::trie::TrieQuery;
use crate::line_number::{get_line_drawer, line_number_width, numbers_fit, numbers_written, shown_lines, LineNumberDrawer};
use crate::lua_config::{LuaGutterAnchor, LuaGutterConfig, LuaLineNumbersConfig};
use std::collections::BTreeMap;

verus! {

/// What a typed key sequence does: starts over, waits for more keys, or
/// runs its keymap.
#[derive(Debug, Default, Clone, Copy, PartialEq, Eq, Structural)]
pub enum KeymapAction {
    #[default]
    Clear,
    Continue,
    Execute,
}

/// The keymap a key sequence found, if any, and what to do with it.
#[derive(Debug)]
pub struct KeymapResult<'result, T> {
    pub keymap: Option<&'result T>,
    pub action: KeymapAction,
}

impl<'result, T> KeymapResult<'result, T> {
    /// Waits for more keys while longer keymaps start with the sequence;
    /// otherwise runs the sequence's own keymap, or starts over when it has
    /// none.
    pub fn from_query_result(keymap: TrieQuery<'result, T>) -> (r: KeymapResult<'result, T>)
        ensures
            keymap.continues ==> r.keymap == keymap.value && r.action == KeymapAction::Continue,
            !keymap.continues && keymap.value is None ==> r.keymap is None && r.action
                == KeymapAction::Clear,
            !keymap.continues && keymap.value is Some ==> r.keymap == keymap.value && r.action
                == KeymapAction::Execute,
    {
        match (keymap.continues, keymap.value) {
            (true, _) => KeymapResult { keymap: keymap.value, action: KeymapAction::Continue },
            (false, None) => KeymapResult { keymap: None, action: KeymapAction::Clear },
            (false, Some(found)) => KeymapResult { keymap: Some(found), action: KeymapAction::Execute },
        }
    }
}

/// A section of the statusline: its text, drawn in a style.
#[derive(Debug)]
pub struct StatusSection {
    content: String,
    width: usize,
    style: HighlightGroup,
}

impl StatusSection {
    #[verifier::type_invariant]
    closed spec fn inv(&self) -> bool {
        self.width == self.content@.len()
    }

    /// The text of the section.
    pub closed spec fn spec_content(&self) -> Seq<char> {
        self.content@
    }

    /// The columns the section takes: one per char.
    pub closed spec fn spec_width(&self) -> usize {
        self.width
    }

    /// The style of the section.
    pub closed spec fn spec_style(&self) -> HighlightGroup {
        self.style
    }

    /// A section of `content` in `style`.
    pub fn new(content: String, style: HighlightGroup) -> (s: Self)
        ensures
            s.spec_content() == content@,
            s.spec_width() == content@.len(),
            s.spec_style() == style,
    {
        Self { width: content.unicode_len(), content, style }
    }
}

/// The cell at `k` of a row once `chars` is written in `group` from cell
/// `from` on.
pub open spec fn written_at(row: Seq<Cell>, from: int, chars: Seq<char>, group: HighlightGroup, k: int) -> Cell {
    if from <= k < from + chars.len() {
        Cell { symbol: chars[k - from], style: group }
    } else {
        row[k]
    }
}

/// The cells of a row once `chars` is written in `group` from cell `from`
/// on.
pub open spec fn written(row: Seq<Cell>, from: int, chars: Seq<char>, group: HighlightGroup) -> Seq<Cell> {
    Seq::new(row.len(), |k: int| written_at(row, from, chars, group, k))
}

/// The columns the first `n` sections take.
pub open spec fn widths(sections: Seq<StatusSection>, n: int) -> int
    decreases n,
{
    if n <= 0 {
        0
    } else {
        widths(sections, n - 1) + sections[n - 1].spec_width()
    }
}

/// The cells once the first `n` of the left sections are written on row
/// `y`, side by side from column `x`.
pub open spec fn write_left(
    cells: Seq<Cell>,
    width: int,
    x: int,
    y: int,
    sections: Seq<StatusSection>,
    n: int,
) -> Seq<Cell>
    decreases n,
{
    if n <= 0 {
        cells
    } else {
        let s = sections[n - 1];
        written(
            write_left(cells, width, x, y, sections, n - 1),
            cell_index(width, x + widths(sections, n - 1), y),
            s.spec_content(),
            s.spec_style(),
        )
    }
}

/// The cells once the last `n` of the right sections are written on row
/// `y`, the last ending at column `end`, each before the next.
pub open spec fn write_right(
    cells: Seq<Cell>,
    width: int,
    end: int,
    y: int,
    sections: Seq<StatusSection>,
    n: int,
) -> Seq<Cell>
    decreases n,
{
    if n <= 0 {
        cells
    } else {
        let i = sections.len() - n;
        let s = sections[i];
        written(
            write_right(cells, width, end, y, sections, n - 1),
            cell_index(width, end - (widths(sections, sections.len() as int) - widths(sections, i)), y),
            s.spec_content(),
            s.spec_style(),
        )
    }
}

/// The row `y` of a buffer `width` wide with `len` cells can take the
/// writes: `cols` columns from column `x` fit the row's index range and the
/// buffer.
pub open spec fn fits(width: int, len: int, x: int, y: int, cols: int) -> bool {
    &&& 0 <= x
    &&& cell_index(width, x, y) <= u16::MAX
    &&& cell_index(width, x, y) + cols <= len
}

/// What the statusline needs to be drawn: the row's cells exist, the left
/// sections fit from the area's left edge on and the right ones before its
/// right edge, and the columns that are counted fit a `u16`.
pub open spec fn statusline_fits(
    width: int,
    len: int,
    area: Rect,
    left: Seq<StatusSection>,
    right: Seq<StatusSection>,
) -> bool {
    &&& fits(width, len, area.x as int, area.y as int, area.width as int)
    &&& forall|i: int|
        0 <= i < left.len() ==> fits(
            width,
            len,
            area.x + widths(left, i),
            area.y as int,
            #[trigger] left[i].spec_width() as int,
        )
    &&& area.x + widths(left, left.len() as int) <= u16::MAX
    &&& area.x + area.width <= u16::MAX
    &&& widths(right, right.len() as int) <= area.x + area.width
    &&& forall|i: int|
        0 <= i < right.len() ==> fits(
            width,
            len,
            area.x + area.width - (widths(right, right.len() as int) - widths(right, i)),
            area.y as int,
            #[trigger] right[i].spec_width() as int,
        )
}

/// Writing keeps the number of cells.
proof fn lemma_written_len(row: Seq<Cell>, from: int, chars: Seq<char>, group: HighlightGroup)
    ensures
        written(row, from, chars, group).len() == row.len(),
{
}

/// Writing the left sections keeps the number of cells.
#[verifier::spinoff_prover]
proof fn lemma_write_left_len(cells: Seq<Cell>, width: int, x: int, y: int, left: Seq<StatusSection>, n: int)
    ensures
        write_left(cells, width, x, y, left, n).len() == cells.len(),
    decreases n,
{
    if n > 0 {
        lemma_write_left_len(cells, width, x, y, left, n - 1);
        let prev = write_left(cells, width, x, y, left, n - 1);
        lemma_written_len(
            prev,
            cell_index(width, x + widths(left, n - 1), y),
            left[n - 1].spec_content(),
            left[n - 1].spec_style(),
        );
    }
}

/// Writing the right sections keeps the number of cells.
#[verifier::spinoff_prover]
proof fn lemma_write_right_len(cells: Seq<Cell>, width: int, end: int, y: int, right: Seq<StatusSection>, n: int)
    ensures
        write_right(cells, width, end, y, right, n).len() == cells.len(),
    decreases n,
{
    if n > 0 {
        lemma_write_right_len(cells, width, end, y, right, n - 1);
        let prev = write_right(cells, width, end, y, right, n - 1);
        let i = right.len() - n;
        lemma_written_len(
            prev,
            cell_index(width, end - (widths(right, right.len() as int) - widths(right, i)), y),
            right[i].spec_content(),
            right[i].spec_style(),
        );
    }
}

/// The widths of the sections only grow.
proof fn lemma_widths_mono(sections: Seq<StatusSection>, a: int, b: int)
    requires
        0 <= a <= b <= sections.len(),
    ensures
        widths(sections, a) <= widths(sections, b),
    decreases b - a,
{
    if a < b {
        lemma_widths_mono(sections, a, b - 1);
    }
}

/// `n` spaces.
fn spaces(n: usize) -> (s: String)
    ensures
        s@ == Seq::new(n as nat, |i: int| ' '),
{
    let mut s = String::new();
    let mut i: usize = 0;
    while i < n
        invariant
            i <= n,
            s@ == Seq::new(i as nat, |k: int| ' '),
        decreases n - i,
    {
        string_push(&mut s, ' ');
        i += 1;
        assert(s@ =~= Seq::new(i as nat, |k: int| ' '));
    }
    s
}

/// The columns `start..end` of a line that a highlight capture covers, and
/// the style configured for the capture's name, if any.
#[derive(Debug, Clone, Copy, PartialEq, Eq, Structural)]
pub struct StyledSpan {
    pub start: usize,
    pub end: usize,
    pub style: Option<HighlightGroup>,
}

/// The first of `spans` that covers column `x`.
pub open spec fn first_span(spans: Seq<StyledSpan>, x: int) -> Option<StyledSpan>
    decreases spans.len(),
{
    if spans.len() == 0 {
        None
    } else if spans[0].start <= x < spans[0].end {
        Some(spans[0])
    } else {
        first_span(spans.drop_first(), x)
    }
}

/// The spans of line `line`: none where there are no captures or none for
/// the line.
pub open spec fn line_spans(captures: Option<Map<usize, Vec<StyledSpan>>>, line: int) -> Seq<
    StyledSpan,
> {
    match captures {
        Some(m) => if 0 <= line <= usize::MAX && m.contains_key(line as usize) {
            m[line as usize]@
        } else {
            Seq::empty()
        },
        None => Seq::empty(),
    }
}

/// The style at column `x`: that of the first span covering it when its
/// capture has a style, else `prev`.
pub open spec fn span_style(spans: Seq<StyledSpan>, x: int, prev: HighlightGroup) -> HighlightGroup {
    match first_span(spans, x) {
        Some(sp) => match sp.style {
            Some(g) => g,
            None => prev,
        },
        None => prev,
    }
}

/// The style in force at column `x` of a line: each column keeps the style
/// of the one before unless a span gives it one.
pub open spec fn style_upto(spans: Seq<StyledSpan>, x: int) -> HighlightGroup
    decreases x + 1,
{
    if x < 0 {
        HighlightGroup::plain()
    } else {
        span_style(spans, x, style_upto(spans, x - 1))
    }
}

/// How a char shows: line breaks as spaces.
pub open spec fn shown_char(c: char) -> char {
    if c == '\n' || c == '\r' {
        ' '
    } else {
        c
    }
}

/// The cell drawn at column `x` of a line: its char in the style in force,
/// and past its end spaces in the style of its last char.
pub open spec fn drawn_cell(line: Seq<char>, spans: Seq<StyledSpan>, x: int) -> Cell {
    if line.len() == 0 {
        Cell { symbol: ' ', style: HighlightGroup::plain() }
    } else if x < line.len() {
        Cell { symbol: shown_char(line[x]), style: style_upto(spans, x) }
    } else {
        Cell { symbol: ' ', style: style_upto(spans, line.len() - 1) }
    }
}

/// The cells of a row `width` columns wide that shows `line`.
pub open spec fn row_cells(line: Seq<char>, spans: Seq<StyledSpan>, width: int) -> Seq<Cell> {
    Seq::new(width as nat, |x: int| drawn_cell(line, spans, x))
}

/// The cell at `k` once `cells` is written over `row` from `from` on.
pub open spec fn overwritten_at(row: Seq<Cell>, from: int, cells: Seq<Cell>, k: int) -> Cell {
    if from <= k < from + cells.len() {
        cells[k - from]
    } else {
        row[k]
    }
}

/// `row` with `cells` written over it from `from` on.
pub open spec fn overwritten(row: Seq<Cell>, from: int, cells: Seq<Cell>) -> Seq<Cell> {
    Seq::new(row.len(), |k: int| overwritten_at(row, from, cells, k))
}

/// The number of lines of a text with `total` lines shown from line
/// `start` in `height` rows.
pub open spec fn visible_lines(total: int, start: int, height: int) -> int {
    if start + height < total {
        height
    } else {
        total - start
    }
}

/// The cells once the first `rows` shown lines of `text`, from line `start`
/// on, are drawn in the rows of a buffer `width` wide from column `x` on,
/// `cols` columns of each.
pub open spec fn document_drawn(
    cells: Seq<Cell>,
    width: int,
    x: int,
    cols: int,
    text: Seq<char>,
    captures: Option<Map<usize, Vec<StyledSpan>>>,
    start: int,
    rows: int,
) -> Seq<Cell>
    decreases rows,
{
    if rows <= 0 {
        cells
    } else {
        let y = rows - 1;
        overwritten(
            document_drawn(cells, width, x, cols, text, captures, start, y),
            cell_index(width, x, y),
            row_cells(line_chars(text, start + y), line_spans(captures, start + y), cols),
        )
    }
}

/// The view of the captures of a document.
pub open spec fn captures_view(captures: Option<&BTreeMap<usize, Vec<StyledSpan>>>) -> Option<
    Map<usize, Vec<StyledSpan>>,
> {
    match captures {
        Some(m) => Some(m@),
        None => None,
    }
}

/// Writing one more cell after `cells` is writing `cells` and then the
/// cell.
proof fn lemma_overwritten_push(row: Seq<Cell>, from: int, cells: Seq<Cell>, c: Cell)
    requires
        0 <= from,
        from + cells.len() < row.len(),
    ensures
        overwritten(row, from, cells.push(c)) == overwritten(row, from, cells).update(
            from + cells.len(),
            c,
        ),
{
    assert(overwritten(row, from, cells.push(c)) =~= overwritten(row, from, cells).update(
        from + cells.len(),
        c,
    ));
}

/// The spans, as a sequence: none where there are none.
pub open spec fn spans_view(spans: Option<&Vec<StyledSpan>>) -> Seq<StyledSpan> {
    match spans {
        Some(v) => v@,
        None => Seq::empty(),
    }
}

/// The style at column `x` given the style before it.
fn span_style_at(spans: Option<&Vec<StyledSpan>>, x: usize, prev: HighlightGroup) -> (r: HighlightGroup)
    ensures
        r == span_style(spans_view(spans), x as int, prev),
{
    let v = match spans {
        Some(v) => v,
        None => return prev,
    };
    let ghost all = v@;
    assert(all == spans_view(spans));
    let mut i: usize = 0;
    assert(all.subrange(0, all.len() as int) =~= all);
    while i < v.len()
        invariant
            i <= all.len(),
            all == v@,
            all == spans_view(spans),
            first_span(all, x as int) == first_span(all.subrange(i as int, all.len() as int), x as int),
        decreases all.len() - i,
    {
        let sp = v[i];
        let ghost rest = all.subrange(i as int, all.len() as int);
        assert(rest.drop_first() =~= all.subrange(i + 1, all.len() as int));
        assert(rest[0] == sp);
        if sp.start <= x && x < sp.end {
            assert(first_span(all, x as int) == Some(sp));
            return match sp.style {
                Some(g) => g,
                None => prev,
            };
        }
        i += 1;
    }
    prev
}

/// The spans of line `line`.
fn spans_of(captures: Option<&BTreeMap<usize, Vec<StyledSpan>>>, line: usize) -> (r: Option<&Vec<StyledSpan>>)
    ensures
        spans_view(r) == line_spans(captures_view(captures), line as int),
{
    match captures {
        Some(m) => m.get(&line),
        None => None,
    }
}

/// Draws line `line_idx` of `text` into row `y`, `cols` columns from column
/// `x0` on.
fn draw_row(
    buffer: &mut Buffer,
    x0: u16,
    y: u16,
    cols: u16,
    text: &ropey::Rope,
    line_idx: usize,
    spans: Option<&Vec<StyledSpan>>,
)
    requires
        old(buffer).wf(),
        line_idx < num_lines(rope_chars(*text)),
        x0 + cols <= u16::MAX,
        cols > 0 ==> cell_index(old(buffer).spec_area().width as int, x0 + cols, y as int) <= old(
            buffer,
        ).spec_cells().len(),
    ensures
        final(buffer).wf(),
        final(buffer).spec_area() == old(buffer).spec_area(),
        final(buffer).spec_cells() == overwritten(
            old(buffer).spec_cells(),
            cell_index(old(buffer).spec_area().width as int, x0 as int, y as int),
            row_cells(line_chars(rope_chars(*text), line_idx as int), spans_view(spans), cols as int),
        ),
{
    let ghost s = rope_chars(*text);
    let ghost width = buffer.spec_area().width as int;
    let _ = rope_len_lines(text);
    let ls = rope_line_to_char(text, line_idx);
    let le = rope_line_to_char(text, line_idx + 1);
    proof {
        crate::text::lemma_line_start(s, line_idx as int);
    }
    let n = le - ls;
    let ghost line = line_chars(s, line_idx as int);
    let ghost row = row_cells(line, spans_view(spans), cols as int);
    let ghost base = cell_index(width, x0 as int, y as int);
    let ghost before = buffer.spec_cells();
    let ghost len = before.len() as int;
    assert(row.subrange(0, 0) =~= Seq::<Cell>::empty());
    assert(overwritten(before, base, Seq::<Cell>::empty()) =~= before);
    if n == 0 {
        let mut x: u16 = 0;
        while x < cols
            invariant
                x <= cols,
                n == 0,
                line.len() == 0,
                buffer.wf(),
                buffer.spec_area() == old(buffer).spec_area(),
                width == buffer.spec_area().width,
                len == buffer.spec_cells().len(),
                cols > 0 ==> cell_index(width, x0 + cols, y as int) <= len,
                x0 + cols <= u16::MAX,
                base == cell_index(width, x0 as int, y as int),
                row == row_cells(line, spans_view(spans), cols as int),
                buffer.spec_cells() == overwritten(before, base, row.subrange(0, x as int)),
            decreases cols - x,
        {
            buffer.set_cell(x0 + x, y, ' ', HighlightGroup::default());
            proof {
                lemma_overwritten_push(before, base, row.subrange(0, x as int), row[x as int]);
                assert(row.subrange(0, x + 1) =~= row.subrange(0, x as int).push(row[x as int]));
            }
            x += 1;
        }
    } else {
        let mut style = HighlightGroup::default();
        let mut x: usize = 0;
        while x < n && x < cols as usize
            invariant
                x <= n,
                x <= cols,
                n == line.len(),
                n > 0,
                le <= s.len(),
                ls + n == le,
                line == s.subrange(ls as int, le as int),
                s == rope_chars(*text),
                style == style_upto(spans_view(spans), x - 1),
                buffer.wf(),
                buffer.spec_area() == old(buffer).spec_area(),
                width == buffer.spec_area().width,
                len == buffer.spec_cells().len(),
                cols > 0 ==> cell_index(width, x0 + cols, y as int) <= len,
                x0 + cols <= u16::MAX,
                base == cell_index(width, x0 as int, y as int),
                row == row_cells(line, spans_view(spans), cols as int),
                buffer.spec_cells() == overwritten(before, base, row.subrange(0, x as int)),
            decreases n - x,
        {
            let ch = rope_char(text, ls + x);
            style = span_style_at(spans, x, style);
            let shown = if ch == '\n' || ch == '\r' {
                ' '
            } else {
                ch
            };
            buffer.set_cell(x0 + x as u16, y, shown, style);
            proof {
                assert(row[x as int] == Cell { symbol: shown, style });
                lemma_overwritten_push(before, base, row.subrange(0, x as int), row[x as int]);
                assert(row.subrange(0, x + 1) =~= row.subrange(0, x as int).push(row[x as int]));
            }
            x += 1;
        }
        let mut x2 = x;
        while x2 < cols as usize
            invariant
                x <= x2 <= cols,
                x == n || x == cols,
                x2 > x ==> x == n,
                n == line.len(),
                n > 0,
                style == style_upto(spans_view(spans), x - 1),
                buffer.wf(),
                buffer.spec_area() == old(buffer).spec_area(),
                width == buffer.spec_area().width,
                len == buffer.spec_cells().len(),
                cols > 0 ==> cell_index(width, x0 + cols, y as int) <= len,
                x0 + cols <= u16::MAX,
                base == cell_index(width, x0 as int, y as int),
                row == row_cells(line, spans_view(spans), cols as int),
                buffer.spec_cells() == overwritten(before, base, row.subrange(0, x2 as int)),
            decreases cols - x2,
        {
            buffer.set_cell(x0 + x2 as u16, y, ' ', style);
            proof {
                assert(x == n);
                assert(row[x2 as int] == Cell { symbol: ' ', style });
                lemma_overwritten_push(before, base, row.subrange(0, x2 as int), row[x2 as int]);
                assert(row.subrange(0, x2 + 1) =~= row.subrange(0, x2 as int).push(row[x2 as int]));
            }
            x2 += 1;
        }
    }
    assert(row.subrange(0, cols as int) =~= row);
}

/// The columns of the gutter: the line numbers (one more than `digits`, at
/// least three), the sign column, and one column of padding.
pub open spec fn gutter_size(digits: int, sign_column: int) -> int {
    (if digits + 1 >= 3 {
        digits + 1
    } else {
        3
    }) + sign_column + 1
}

/// The gutter's area and the document's, once `size` columns are taken for
/// the gutter at the configured side of `area`.
pub open spec fn gutter_split(area: Rect, anchor: LuaGutterAnchor, size: u16) -> (Rect, Rect) {
    match anchor {
        LuaGutterAnchor::Left => (
            Rect { width: size, ..area },
            Rect { x: (area.x + size) as u16, width: (area.width - size) as u16, ..area },
        ),
        LuaGutterAnchor::Right => (
            Rect { x: (area.x + area.width - size) as u16, width: size, ..area },
            Rect { width: (area.width - size) as u16, ..area },
        ),
    }
}

/// What `draw_document` needs of a buffer `width` wide with `len` cells.
pub open spec fn document_fits(width: int, len: int, area: Rect, text: Seq<char>, start: int) -> bool {
    let rows = visible_lines(num_lines(text) as int, start, area.height as int);
    &&& start <= num_lines(text)
    &&& start + area.height <= usize::MAX
    &&& rows > 0 && area.width > 0 ==> {
        &&& area.x + area.width <= u16::MAX
        &&& cell_index(width, area.x + area.width, rows - 1) <= len
    }
}

/// What the line numbers need: a drawer that draws, and room in the
/// buffer for each number.
pub open spec fn gutter_fits(
    width: int,
    len: int,
    area: Rect,
    text: Seq<char>,
    first: int,
    sign_column: u16,
    digits: usize,
) -> bool {
    &&& first + area.height <= usize::MAX
    &&& digits < usize::MAX
    &&& area.x + sign_column <= u16::MAX
    &&& numbers_fit(
        width,
        len,
        area.x + sign_column,
        area.y as int,
        first as nat,
        line_number_width(digits as nat),
        shown_lines(num_lines(text), first as nat, area.height as nat),
    )
}

/// The columns of a window's gutter for a document whose number of lines
/// has `digits` digits.
pub fn calculate_gutter_size(digits: usize, sign_column: u16) -> (r: u16)
    requires
        digits < u16::MAX,
        gutter_size(digits as int, sign_column as int) <= u16::MAX,
    ensures
        r == gutter_size(digits as int, sign_column as int),
{
    let lines_length = digits as u16 + 1;
    let lines_length = if lines_length > 3 {
        lines_length
    } else {
        3
    } + sign_column;
    lines_length + 1
}

/// The layer that draws the windows, the statusline and the command line.
#[derive(Debug)]
pub struct EditorLayer;

impl EditorLayer {
    pub fn new() -> (r: EditorLayer) {
        EditorLayer {}
    }

    /// Draws the lines of `document` that the window's scroll shows, one per
    /// row from the buffer's first row on, `area.width` columns of each from
    /// `area.x`: each char in the style of the capture over it, kept until
    /// another capture gives one, line breaks as spaces, and the rest of the
    /// row in spaces.
    pub fn draw_document(
        &self,
        area: Rect,
        document: &Document,
        window: &Window,
        buffer: &mut Buffer,
        captures: Option<&BTreeMap<usize, Vec<StyledSpan>>>,
    )
        requires
            old(buffer).wf(),
            window.spec_scroll().y <= num_lines(document.view()),
            window.spec_scroll().y + area.height <= usize::MAX,
            ({
                let rows = visible_lines(
                    num_lines(document.view()) as int,
                    window.spec_scroll().y as int,
                    area.height as int,
                );
                rows > 0 && area.width > 0 ==> {
                    &&& area.x + area.width <= u16::MAX
                    &&& cell_index(
                        old(buffer).spec_area().width as int,
                        area.x + area.width,
                        rows - 1,
                    ) <= old(buffer).spec_cells().len()
                }
            }),
        ensures
            final(buffer).wf(),
            final(buffer).spec_area() == old(buffer).spec_area(),
            final(buffer).spec_cells() == document_drawn(
                old(buffer).spec_cells(),
                old(buffer).spec_area().width as int,
                area.x as int,
                area.width as int,
                document.view(),
                captures_view(captures),
                window.spec_scroll().y as int,
                visible_lines(
                    num_lines(document.view()) as int,
                    window.spec_scroll().y as int,
                    area.height as int,
                ),
            ),
    {
        let text = document.text();
        let ghost s = document.view();
        let ghost width = buffer.spec_area().width as int;
        let ghost len = buffer.spec_cells().len() as int;
        let ghost before = buffer.spec_cells();
        let start_line = window.scroll().y;
        let visible = area.height as usize;
        let document_lines = rope_len_lines(text);
        let end_line = if start_line + visible < document_lines {
            start_line + visible
        } else {
            document_lines
        };
        let total_lines = end_line - start_line;
        let mut y: usize = 0;
        while y < total_lines
            invariant
                y <= total_lines,
                total_lines == visible_lines(document_lines as int, start_line as int, area.height as int),
                total_lines <= area.height,
                start_line + total_lines <= document_lines,
                document_lines == num_lines(s),
                s == rope_chars(*text),
                total_lines > 0 && area.width > 0 ==> {
                    &&& area.x + area.width <= u16::MAX
                    &&& cell_index(width, area.x + area.width, total_lines - 1) <= len
                },
                buffer.wf(),
                buffer.spec_area() == old(buffer).spec_area(),
                width == buffer.spec_area().width,
                len == buffer.spec_cells().len(),
                buffer.spec_cells() == document_drawn(
                    before,
                    width,
                    area.x as int,
                    area.width as int,
                    s,
                    captures_view(captures),
                    start_line as int,
                    y as int,
                ),
            decreases total_lines - y,
        {
            let line_idx = start_line + y;
            let spans = spans_of(captures, line_idx);
            if area.width > 0 {
                assert(cell_index(width, area.x + area.width, y as int) <= cell_index(
                    width,
                    area.x + area.width,
                    total_lines - 1,
                )) by (nonlinear_arith)
                    requires
                        y <= total_lines - 1,
                        width >= 0,
                ;
            }
            draw_row(buffer, area.x, y as u16, area.width, text, line_idx, spans);
            y += 1;
        }
    }

    /// Draws the window's line numbers in `area` with the configured
    /// drawer.
    pub fn draw_gutter(
        &self,
        area: Rect,
        document: &Document,
        window: &Window,
        buffer: &mut Buffer,
        line_numbers: LuaLineNumbersConfig,
        sign_column: u16,
        digits: usize,
        style: HighlightGroup,
    )
        requires
            line_numbers == LuaLineNumbersConfig::Absolute,
            old(buffer).wf(),
            gutter_fits(
                old(buffer).spec_area().width as int,
                old(buffer).spec_cells().len() as int,
                area,
                document.view(),
                window.spec_scroll().x as int,
                sign_column,
                digits,
            ),
        ensures
            final(buffer).wf(),
            final(buffer).spec_area() == old(buffer).spec_area(),
            final(buffer).spec_cells() == numbers_written(
                old(buffer).spec_cells(),
                old(buffer).spec_area().width as int,
                area.x + sign_column,
                area.y as int,
                window.spec_scroll().x as nat,
                line_number_width(digits as nat),
                style,
                shown_lines(
                    num_lines(document.view()),
                    window.spec_scroll().x as nat,
                    area.height as nat,
                ) as int,
            ),
    {
        let line_drawer = get_line_drawer(line_numbers);
        line_drawer.draw_line_numbers(area, document, window, buffer, sign_column, digits, style);
    }

    /// Draws a window: its gutter, when enabled, at the configured side of
    /// `area`, and the document in the rest.
    pub fn draw_window(
        &self,
        area: Rect,
        document: &Document,
        window: &Window,
        buffer: &mut Buffer,
        captures: Option<&BTreeMap<usize, Vec<StyledSpan>>>,
        gutter: LuaGutterConfig,
        sign_column: u16,
        digits: usize,
        line_number_style: HighlightGroup,
    )
        requires
            old(buffer).wf(),
            gutter.enabled ==> {
                let size = gutter_size(digits as int, sign_column as int);
                let (gutter_area, rest) = gutter_split(area, gutter.anchor, size as u16);
                &&& gutter.line_numbers == LuaLineNumbersConfig::Absolute
                &&& digits < u16::MAX
                &&& size <= u16::MAX
                &&& area.width > size
                &&& gutter.anchor == LuaGutterAnchor::Left ==> area.x + size <= u16::MAX
                &&& gutter.anchor == LuaGutterAnchor::Right ==> area.x + area.width - size <= u16::MAX
                &&& gutter_fits(
                    old(buffer).spec_area().width as int,
                    old(buffer).spec_cells().len() as int,
                    gutter_area,
                    document.view(),
                    window.spec_scroll().x as int,
                    sign_column,
                    digits,
                )
                &&& document_fits(
                    old(buffer).spec_area().width as int,
                    old(buffer).spec_cells().len() as int,
                    rest,
                    document.view(),
                    window.spec_scroll().y as int,
                )
            },
            !gutter.enabled ==> document_fits(
                old(buffer).spec_area().width as int,
                old(buffer).spec_cells().len() as int,
                area,
                document.view(),
                window.spec_scroll().y as int,
            ),
        ensures
            final(buffer).wf(),
            final(buffer).spec_area() == old(buffer).spec_area(),
            ({
                let width = old(buffer).spec_area().width as int;
                let size = gutter_size(digits as int, sign_column as int);
                let (gutter_area, rest) = gutter_split(area, gutter.anchor, size as u16);
                let numbered = numbers_written(
                    old(buffer).spec_cells(),
                    width,
                    gutter_area.x + sign_column,
                    gutter_area.y as int,
                    window.spec_scroll().x as nat,
                    line_number_width(digits as nat),
                    line_number_style,
                    shown_lines(
                        num_lines(document.view()),
                        window.spec_scroll().x as nat,
                        gutter_area.height as nat,
                    ) as int,
                );
                let doc_area = if gutter.enabled {
                    rest
                } else {
                    area
                };
                final(buffer).spec_cells() == document_drawn(
                    if gutter.enabled {
                        numbered
                    } else {
                        old(buffer).spec_cells()
                    },
                    width,
                    doc_area.x as int,
                    doc_area.width as int,
                    document.view(),
                    captures_view(captures),
                    window.spec_scroll().y as int,
                    visible_lines(
                        num_lines(document.view()) as int,
                        window.spec_scroll().y as int,
                        doc_area.height as int,
                    ),
                )
            }),
    {
        let mut area = area;
        if gutter.enabled {
            let gutter_size = calculate_gutter_size(digits, sign_column);
            let gutter_area = match gutter.anchor {
                LuaGutterAnchor::Left => area.split_left(gutter_size),
                LuaGutterAnchor::Right => area.split_right(gutter_size),
            };
            self.draw_gutter(
                gutter_area,
                document,
                window,
                buffer,
                gutter.line_numbers,
                sign_column,
                digits,
                line_number_style,
            );
        }
        self.draw_document(area, document, window, buffer, captures);
    }

    /// Clears the statusline's row of `area`, then writes the left sections
    /// side by side from its left edge and the right ones so that the last
    /// ends at its right edge.
    #[verifier::spinoff_prover]
    #[verifier::rlimit(50)]
    pub fn draw_statusline(
        &self,
        buffer: &mut Buffer,
        area: Rect,
        left: &Vec<StatusSection>,
        right: &Vec<StatusSection>,
    )
        requires
            old(buffer).wf(),
            statusline_fits(
                old(buffer).spec_area().width as int,
                old(buffer).spec_cells().len() as int,
                area,
                left@,
                right@,
            ),
        ensures
            final(buffer).wf(),
            final(buffer).spec_area() == old(buffer).spec_area(),
            ({
                let width = old(buffer).spec_area().width as int;
                let cleared = written(
                    old(buffer).spec_cells(),
                    cell_index(width, area.x as int, area.y as int),
                    Seq::new(area.width as nat, |i: int| ' '),
                    HighlightGroup::plain(),
                );
                let lefts = write_left(
                    cleared,
                    width,
                    area.x as int,
                    area.y as int,
                    left@,
                    left@.len() as int,
                );
                final(buffer).spec_cells() == write_right(
                    lefts,
                    width,
                    area.x + area.width,
                    area.y as int,
                    right@,
                    right@.len() as int,
                )
            }),
    {
        let ghost width = buffer.spec_area().width as int;
        let ghost len = buffer.spec_cells().len() as int;
        let clear = spaces(area.width as usize);
        buffer.set_string(area.x, area.y, clear.as_str(), HighlightGroup::default());
        proof {
            assert(buffer.spec_cells() =~= written(
                old(buffer).spec_cells(),
                cell_index(width, area.x as int, area.y as int),
                Seq::new(area.width as nat, |i: int| ' '),
                HighlightGroup::plain(),
            ));
        }
        let ghost cleared = buffer.spec_cells();
        let mut current_x = area.x;
        let mut i: usize = 0;
        while i < left.len()
            invariant
                buffer.wf(),
                buffer.spec_area() == old(buffer).spec_area(),
                width == buffer.spec_area().width,
                len == buffer.spec_cells().len(),
                statusline_fits(width, len, area, left@, right@),
                i <= left@.len(),
                current_x == area.x + widths(left@, i as int),
                buffer.spec_cells() == write_left(
                    cleared,
                    width,
                    area.x as int,
                    area.y as int,
                    left@,
                    i as int,
                ),
            decreases left@.len() - i,
        {
            let section = &left[i];
            proof {
                use_type_invariant(section);
            }
            assert(fits(width, len, current_x as int, area.y as int, left@[i as int].spec_width() as int));
            buffer.set_string(current_x, area.y, section.content.as_str(), section.style);
            proof {
                let next = write_left(cleared, width, area.x as int, area.y as int, left@, i + 1);
                assert(next == written(
                    write_left(cleared, width, area.x as int, area.y as int, left@, i as int),
                    cell_index(width, area.x + widths(left@, i as int), area.y as int),
                    left@[i as int].spec_content(),
                    left@[i as int].spec_style(),
                ));
                let start = cell_index(width, current_x as int, area.y as int);
                lemma_write_left_len(cleared, width, area.x as int, area.y as int, left@, i as int);
                assert forall|k: int| 0 <= k < len implies buffer.spec_cells()[k] == next[k] by {
                    assert(section.style.style_def() == StyleDef { behavior: crate::backend::StyleMerge::Replace, style: section.style });
                    let before = write_left(cleared, width, area.x as int, area.y as int, left@, i as int);
                    if start <= k < start + section.content@.len() {
                        assert(buffer.spec_cells()[k].symbol == section.content@[k - start]);
                        assert(buffer.spec_cells()[k].style == section.style);
                        assert(next[k] == Cell { symbol: section.content@[k - start], style: section.style });
                    } else {
                        assert(buffer.spec_cells()[k] == before[k]);
                    }
                }
                assert(buffer.spec_cells() =~= next);
                lemma_widths_mono(left@, i + 1, left@.len() as int);
            }
            current_x = current_x + section.width as u16;
            i += 1;
        }
        let ghost lefts = buffer.spec_cells();
        let total = area.x + area.width;
        let mut current_x = total;
        let n = right.len();
        let mut k: usize = 0;
        proof {
            lemma_widths_mono(right@, 0, n as int);
        }
        while k < n
            invariant
                buffer.wf(),
                buffer.spec_area() == old(buffer).spec_area(),
                width == buffer.spec_area().width,
                len == buffer.spec_cells().len(),
                statusline_fits(width, len, area, left@, right@),
                n == right@.len(),
                k <= n,
                total == area.x + area.width,
                current_x == total - (widths(right@, n as int) - widths(right@, n - k)),
                buffer.spec_cells() == write_right(lefts, width, total as int, area.y as int, right@, k as int),
            decreases n - k,
        {
            let idx = n - 1 - k;
            let section = &right[idx];
            proof {
                use_type_invariant(section);
            }
            proof {
                lemma_widths_mono(right@, idx as int, n as int);
                lemma_widths_mono(right@, 0, idx as int);
                assert(n - (k + 1) == idx);
            }
            current_x = current_x - section.width as u16;
            assert(fits(width, len, current_x as int, area.y as int, right@[idx as int].spec_width() as int));
            buffer.set_string(current_x, area.y, section.content.as_str(), section.style);
            proof {
                let next = write_right(lefts, width, total as int, area.y as int, right@, k + 1);
                assert(next == written(
                    write_right(lefts, width, total as int, area.y as int, right@, k as int),
                    cell_index(width, total - (widths(right@, n as int) - widths(right@, idx as int)), area.y as int),
                    right@[idx as int].spec_content(),
                    right@[idx as int].spec_style(),
                ));
                lemma_write_right_len(lefts, width, total as int, area.y as int, right@, k as int);
                assert forall|j: int| 0 <= j < len implies buffer.spec_cells()[j] == next[j] by {
                    assert(section.style.style_def() == StyleDef { behavior: crate::backend::StyleMerge::Replace, style: section.style });
                }
                assert(buffer.spec_cells() =~= next);
            }
            k += 1;
        }
    }
}

} // verus!
