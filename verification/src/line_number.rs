//! The line numbers of the gutter.
use vstd::prelude::*;

use crate::backend::Cell;
use crate::buffer::{cell_index, Buffer};
use crate::document::Document;
use crate::editor_layer::{fits, written};
use crate::event::{digit, digit_char};
use crate::highlights::HighlightGroup;
use crate::lua_config::LuaLineNumbersConfig;
use crate::rect::Rect;
use crate::text::{num_lines, rope_len_lines, string_push};
use crate::window::Window;

verus! {

/// `n` in decimal.
pub open spec fn decimal_digits(n: nat) -> Seq<char>
    decreases n,
{
    if n < 10 {
        seq![digit_char(n as int)]
    } else {
        decimal_digits(n / 10).push(digit_char((n % 10) as int))
    }
}

/// The number that the decimal numeral `ds` writes, most significant
/// digit first, each char taken as its distance from `'0'`.
pub open spec fn numeral_value(ds: Seq<char>) -> int
    decreases ds.len(),
{
    if ds.len() == 0 {
        0
    } else {
        numeral_value(ds.drop_last()) * 10 + (ds.last() as int - '0' as int)
    }
}

/// The chars of `ds` are all decimal digits.
pub open spec fn all_digits(ds: Seq<char>) -> bool {
    forall|i: int| 0 <= i < ds.len() ==> '0' <= #[trigger] ds[i] <= '9'
}

/// The decimal digits of a number are digits, have no leading zero (but
/// for zero itself), and read back, most significant first, as the number.
pub proof fn law_decimal_digits_read_back(n: nat)
    ensures
        decimal_digits(n).len() >= 1,
        all_digits(decimal_digits(n)),
        decimal_digits(n)[0] != '0' || n == 0,
        numeral_value(decimal_digits(n)) == n,
    decreases n,
{
    let ds = decimal_digits(n);
    if n < 10 {
        assert(ds =~= seq![digit_char(n as int)]);
        assert(ds.drop_last() =~= Seq::<char>::empty());
        assert(digit_char(n as int) as int - '0' as int == n);
        assert(numeral_value(ds.drop_last()) == 0);
        assert(numeral_value(ds) == n);
    } else {
        law_decimal_digits_read_back(n / 10);
        let d = (n % 10) as int;
        let prev = decimal_digits(n / 10);
        assert(ds == prev.push(digit_char(d)));
        assert(ds.drop_last() =~= prev);
        assert(digit_char(d) as int - '0' as int == d);
        assert forall|i: int| 0 <= i < ds.len() implies '0' <= #[trigger] ds[i] <= '9' by {
            if i < prev.len() {
                assert(ds[i] == prev[i]);
            }
        }
        assert(ds[0] == prev[0]);
        assert((n / 10) * 10 + n % 10 == n) by (nonlinear_arith);
        assert(numeral_value(ds) == numeral_value(prev) * 10 + d);
        assert(numeral_value(prev) == n / 10);
        assert(numeral_value(ds) == n);
    }
}

/// A padded number ends with the number's decimal digits and is spaces
/// before them.
pub proof fn law_padded_number_shows_number(n: nat, width: nat)
    ensures
        ({
            let p = padded_number(n, width);
            let ds = decimal_digits(n);
            &&& p.len() >= ds.len()
            &&& p.len() >= width
            &&& p.subrange(p.len() - ds.len(), p.len() as int) == ds
            &&& forall|i: int| 0 <= i < p.len() - ds.len() ==> p[i] == ' '
            &&& numeral_value(p.subrange(p.len() - ds.len(), p.len() as int)) == n
        }),
{
    law_decimal_digits_read_back(n);
    let p = padded_number(n, width);
    let ds = decimal_digits(n);
    if ds.len() < width {
        assert(p.subrange(p.len() - ds.len(), p.len() as int) =~= ds);
    } else {
        assert(p.subrange(0, p.len() as int) =~= ds);
    }
}

/// `n` in decimal, right-aligned with spaces in `width` columns (wider when
/// it has more digits).
pub open spec fn padded_number(n: nat, width: nat) -> Seq<char> {
    let digits = decimal_digits(n);
    if digits.len() < width {
        Seq::new((width - digits.len()) as nat, |i: int| ' ') + digits
    } else {
        digits
    }
}

/// The columns a line number takes: one more than the digits of the
/// number of lines, and at least three.
pub open spec fn line_number_width(digits: nat) -> nat {
    if digits + 1 >= 3 {
        digits + 1
    } else {
        3
    }
}

/// The cells once the numbers of the first `rows` shown lines, from line
/// `start` on, are written from column `x` down from row `y`.
pub open spec fn numbers_written(
    cells: Seq<Cell>,
    width: int,
    x: int,
    y: int,
    start: nat,
    size: nat,
    style: HighlightGroup,
    rows: int,
) -> Seq<Cell>
    decreases rows,
{
    if rows <= 0 {
        cells
    } else {
        written(
            numbers_written(cells, width, x, y, start, size, style, rows - 1),
            cell_index(width, x, y + rows - 1),
            padded_number(start + rows as nat, size),
            style,
        )
    }
}

/// Drawing line numbers puts, on the `i`-th row from `y`, the number
/// `start + i + 1` (the line's index counted from one) right-aligned in
/// `size` columns from column `x`, in `style`: each row keeps its own
/// number when the numbers are no wider than a row.
pub proof fn law_numbers_written_rows(
    cells: Seq<Cell>,
    width: int,
    x: int,
    y: int,
    start: nat,
    size: nat,
    style: HighlightGroup,
    rows: int,
)
    requires
        0 <= x,
        0 <= y,
        forall|i: int|
            0 <= i < rows ==> #[trigger] padded_number((start + i + 1) as nat, size).len() <= width
                && cell_index(width, x, y + i) + padded_number((start + i + 1) as nat, size).len()
                <= cells.len(),
    ensures
        numbers_written(cells, width, x, y, start, size, style, rows).len() == cells.len(),
        forall|i: int, k: int|
            0 <= i < rows && 0 <= k < padded_number((start + i + 1) as nat, size).len() ==> #[trigger] numbers_written(
                cells,
                width,
                x,
                y,
                start,
                size,
                style,
                rows,
            )[cell_index(width, x, y + i) + k] == (Cell {
                symbol: padded_number((start + i + 1) as nat, size)[k],
                style,
            }),
    decreases rows,
{
    if rows > 0 {
        law_numbers_written_rows(cells, width, x, y, start, size, style, rows - 1);
        let prev = numbers_written(cells, width, x, y, start, size, style, rows - 1);
        let from = cell_index(width, x, y + rows - 1);
        let digits = padded_number(start + rows as nat, size);
        assert(start + (rows - 1) + 1 == start + rows as nat);
        let cur = numbers_written(cells, width, x, y, start, size, style, rows);
        assert(cur == written(prev, from, digits, style));
        assert forall|i: int, k: int|
            0 <= i < rows && 0 <= k < padded_number((start + i + 1) as nat, size).len() implies #[trigger] cur[cell_index(width, x, y + i) + k] == (Cell {
                symbol: padded_number((start + i + 1) as nat, size)[k],
                style,
            }) by {
            let at = cell_index(width, x, y + i) + k;
            assert(padded_number((start + i + 1) as nat, size).len() <= width);
            if i < rows - 1 {
                assert((y + i) * width + width <= (y + rows - 1) * width) by (nonlinear_arith)
                    requires
                        i < rows - 1,
                        width >= 0,
                ;
                assert(at < from);
                assert(prev[at] == (Cell { symbol: padded_number((start + i + 1) as nat, size)[k], style }));
            } else {
                assert(i == rows - 1);
            }
        }
    }
}

/// The number of lines that are shown: those from `start` on that the text
/// has, at most `height` of them.
pub open spec fn shown_lines(total: nat, start: nat, height: nat) -> nat {
    if start >= total {
        0
    } else if total - start < height {
        (total - start) as nat
    } else {
        height
    }
}

/// Each shown line's number fits its row of the buffer.
pub open spec fn numbers_fit(
    width: int,
    len: int,
    x: int,
    y: int,
    start: nat,
    size: nat,
    rows: nat,
) -> bool {
    &&& y + rows <= u16::MAX + 1
    &&& forall|r: int|
        0 <= r < rows ==> fits(
            width,
            len,
            x,
            y + r,
            #[trigger] padded_number((start + r + 1) as nat, size).len() as int,
        )
}

/// What draws the line numbers of a window into the gutter.
pub trait LineNumberDrawer {
    /// Whether the drawer can draw.
    spec fn draws(&self) -> bool;

    /// Draws the numbers of the shown lines of `document`, right-aligned,
    /// from column `area.x + sign_column` down from the area's first row.
    /// `digits` is the number of digits of the document's number of lines.
    fn draw_line_numbers(
        &self,
        area: Rect,
        document: &Document,
        window: &Window,
        buffer: &mut Buffer,
        sign_column: u16,
        digits: usize,
        style: HighlightGroup,
    )
        requires
            self.draws(),
            old(buffer).wf(),
            window.spec_scroll().x + area.height <= usize::MAX,
            digits < usize::MAX,
            area.x + sign_column <= u16::MAX,
            numbers_fit(
                old(buffer).spec_area().width as int,
                old(buffer).spec_cells().len() as int,
                area.x + sign_column,
                area.y as int,
                window.spec_scroll().x as nat,
                line_number_width(digits as nat),
                shown_lines(
                    num_lines(document.view()),
                    window.spec_scroll().x as nat,
                    area.height as nat,
                ),
            ),
        ensures
            final(buffer).wf(),
            final(buffer).spec_area() == old(buffer).spec_area(),
            final(buffer).spec_cells() == numbers_written(
                old(buffer).spec_cells(),
                old(buffer).spec_area().width as int,
                area.x + sign_column,
                area.y as int,
                window.spec_scroll().x as nat,
                line_number_width(digits as nat),
                style,
                shown_lines(
                    num_lines(document.view()),
                    window.spec_scroll().x as nat,
                    area.height as nat,
                ) as int,
            ),
    ;
}

/// Appends `n` in decimal to `s`.
fn push_decimal(s: &mut String, n: usize)
    ensures
        final(s)@ == old(s)@ + decimal_digits(n as nat),
    decreases n,
{
    if n >= 10 {
        push_decimal(s, n / 10);
    }
    string_push(s, digit((n % 10) as u8));
    proof {
        assert(final(s)@ =~= old(s)@ + decimal_digits(n as nat));
    }
}

/// `n` in decimal, right-aligned with spaces in `width` columns.
fn padded_string(n: usize, width: usize) -> (s: String)
    ensures
        s@ == padded_number(n as nat, width as nat),
{
    let mut digits = String::new();
    push_decimal(&mut digits, n);
    assert(digits@ =~= decimal_digits(n as nat));
    let len = digits.unicode_len();
    let mut s = String::new();
    if len < width {
        let mut i: usize = 0;
        while i < width - len
            invariant
                i <= width - len,
                s@ == Seq::new(i as nat, |k: int| ' '),
            decreases width - len - i,
        {
            string_push(&mut s, ' ');
            i += 1;
            assert(s@ =~= Seq::new(i as nat, |k: int| ' '));
        }
    }
    crate::text::string_push_str(&mut s, digits.as_str());
    assert(s@ =~= padded_number(n as nat, width as nat));
    s
}

/// Line numbers counted from the first line.
#[derive(Debug, Default, Clone, Copy, PartialEq, Eq, Structural)]
pub struct AbsoluteLineDrawer;

/// Line numbers counted from the cursor's line; not drawn yet.
#[derive(Debug, Default, Clone, Copy, PartialEq, Eq, Structural)]
pub struct RelativeLineDrawer;

/// Line numbers counted from the cursor's line, the cursor's own line
/// showing its number; not drawn yet.
#[derive(Debug, Default, Clone, Copy, PartialEq, Eq, Structural)]
pub struct RelativeNumberedLineDrawer;

/// The drawer of one of the kinds of line numbers.
#[derive(Debug, Clone, Copy, PartialEq, Eq, Structural)]
pub enum LineDrawer {
    Absolute(AbsoluteLineDrawer),
    Relative(RelativeLineDrawer),
    RelativeNumbered(RelativeNumberedLineDrawer),
}

impl LineNumberDrawer for AbsoluteLineDrawer {
    open spec fn draws(&self) -> bool {
        true
    }

    fn draw_line_numbers(
        &self,
        area: Rect,
        document: &Document,
        window: &Window,
        buffer: &mut Buffer,
        sign_column: u16,
        digits: usize,
        style: HighlightGroup,
    ) {
        let ghost width = buffer.spec_area().width as int;
        let height = area.height as usize;
        let total_lines = rope_len_lines(document.text());
        let start = window.scroll().x;
        let end = if total_lines < start + height {
            total_lines
        } else {
            start + height
        };
        let line_size = if digits + 1 >= 3 {
            digits + 1
        } else {
            3
        };
        let x = area.x + sign_column;
        let ghost rows = shown_lines(total_lines as nat, start as nat, area.height as nat);
        let ghost len = buffer.spec_cells().len() as int;
        let ghost before = buffer.spec_cells();
        let mut line = start;
        while line < end
            invariant
                start <= line,
                end <= total_lines,
                start <= end ==> line <= end,
                start > end ==> line == start,
                rows == (if start <= end { end - start } else { 0 }),
                buffer.wf(),
                buffer.spec_area() == old(buffer).spec_area(),
                width == buffer.spec_area().width,
                len == buffer.spec_cells().len(),
                numbers_fit(width, len, x as int, area.y as int, start as nat, line_size as nat, rows),
                buffer.spec_cells() == numbers_written(
                    before,
                    width,
                    x as int,
                    area.y as int,
                    start as nat,
                    line_size as nat,
                    style,
                    (line - start) as int,
                ),
            decreases end - line,
        {
            let row = line - start;
            let line_str = padded_string(line + 1, line_size);
            assert(fits(
                width,
                len,
                x as int,
                area.y + row,
                padded_number((start + row + 1) as nat, line_size as nat).len() as int,
            ));
            let ghost prev = buffer.spec_cells();
            buffer.set_string(x, area.y + row as u16, line_str.as_str(), style);
            proof {
                let next = numbers_written(
                    before,
                    width,
                    x as int,
                    area.y as int,
                    start as nat,
                    line_size as nat,
                    style,
                    row + 1,
                );
                let start_k = cell_index(width, x as int, area.y + row);
                assert forall|k: int| 0 <= k < len implies buffer.spec_cells()[k] == next[k] by {
                    if start_k <= k < start_k + line_str@.len() {
                        assert(buffer.spec_cells()[k].symbol == line_str@[k - start_k]);
                    }
                }
                assert(buffer.spec_cells() =~= next);
            }
            line += 1;
        }
    }
}

impl LineNumberDrawer for RelativeLineDrawer {
    open spec fn draws(&self) -> bool {
        false
    }

    fn draw_line_numbers(
        &self,
        area: Rect,
        document: &Document,
        window: &Window,
        buffer: &mut Buffer,
        sign_column: u16,
        digits: usize,
        style: HighlightGroup,
    ) {
    }
}

impl LineNumberDrawer for RelativeNumberedLineDrawer {
    open spec fn draws(&self) -> bool {
        false
    }

    fn draw_line_numbers(
        &self,
        area: Rect,
        document: &Document,
        window: &Window,
        buffer: &mut Buffer,
        sign_column: u16,
        digits: usize,
        style: HighlightGroup,
    ) {
    }
}

impl LineNumberDrawer for LineDrawer {
    open spec fn draws(&self) -> bool {
        self is Absolute
    }

    fn draw_line_numbers(
        &self,
        area: Rect,
        document: &Document,
        window: &Window,
        buffer: &mut Buffer,
        sign_column: u16,
        digits: usize,
        style: HighlightGroup,
    ) {
        match self {
            LineDrawer::Absolute(inner) => inner.draw_line_numbers(
                area,
                document,
                window,
                buffer,
                sign_column,
                digits,
                style,
            ),
            LineDrawer::Relative(inner) => inner.draw_line_numbers(
                area,
                document,
                window,
                buffer,
                sign_column,
                digits,
                style,
            ),
            LineDrawer::RelativeNumbered(inner) => inner.draw_line_numbers(
                area,
                document,
                window,
                buffer,
                sign_column,
                digits,
                style,
            ),
        }
    }
}

/// The drawer of the configured kind of line numbers.
pub fn get_line_drawer(line_numbers: LuaLineNumbersConfig) -> (r: LineDrawer)
    ensures
        r == match line_numbers {
            LuaLineNumbersConfig::Absolute => LineDrawer::Absolute(AbsoluteLineDrawer),
            LuaLineNumbersConfig::Relative => LineDrawer::Relative(RelativeLineDrawer),
            LuaLineNumbersConfig::RelativeNumbered => LineDrawer::RelativeNumbered(
                RelativeNumberedLineDrawer,
            ),
        },
{
    match line_numbers {
        LuaLineNumbersConfig::Absolute => LineDrawer::Absolute(AbsoluteLineDrawer),
        LuaLineNumbersConfig::Relative => LineDrawer::Relative(RelativeLineDrawer),
        LuaLineNumbersConfig::RelativeNumbered => LineDrawer::RelativeNumbered(
            RelativeNumberedLineDrawer,
        ),
    }
}

} // verus!
