use glyph::backend::{Backend, CursorKind, Drawable};
use glyph::lua_config::LuaCursorConfig;
use glyph::terminal::Terminal;
use glyph::document::Document;
use glyph::line_number::{get_line_drawer, LineDrawer, LineNumberDrawer};
use glyph::lua_config::LuaLineNumbersConfig;
use glyph::window::Window;
use glyph::editor_layer::StyledSpan;
use std::collections::BTreeMap;
use glyph::backend::{Cell, StyleMerge};
use glyph::buffer::{Buffer, BufferBounds, CellRange, StyleDef};
use glyph::color::Color;
use glyph::editor_layer::{calculate_gutter_size, EditorLayer, StatusSection};
use glyph::lua_config::{LuaGutterAnchor, LuaGutterConfig, LuaSignColumnConfig};
use glyph::highlights::HighlightGroup;
use glyph::rect::{Point, Rect};

fn group(fg: Color) -> HighlightGroup {
    HighlightGroup { fg, bg: Color::Reset, bold: false }
}

/// The cells of `buffer` that differ from a blank buffer, as (x, y, char).
fn drawn(buffer: &Buffer, area: Rect) -> Vec<(u16, u16, char)> {
    let blank = Buffer::new(area);
    buffer.diff(&blank).into_changes().iter().map(|d| (d.x, d.y, d.cell.symbol)).collect()
}

#[test]
fn set_string_writes_row_by_row() {
    let area = Rect::new(0, 0, 4, 2);
    let mut buffer = Buffer::new(area);
    buffer.set_string(1, 0, "ab", group(Color::Red));
    buffer.set_string(0, 1, "c", group(Color::Red));
    assert_eq!(drawn(&buffer, area), vec![(1, 0, 'a'), (2, 0, 'b'), (0, 1, 'c')]);
}

#[test]
fn set_string_past_width_runs_into_next_row() {
    let area = Rect::new(0, 0, 2, 2);
    let mut buffer = Buffer::new(area);
    buffer.set_string(1, 0, "xyz", group(Color::Blue));
    assert_eq!(drawn(&buffer, area), vec![(1, 0, 'x'), (0, 1, 'y'), (1, 1, 'z')]);
}

#[test]
fn diff_of_same_frame_is_empty() {
    let area = Rect::new(0, 0, 3, 3);
    let mut a = Buffer::new(area);
    a.set_cell(2, 2, 'q', group(Color::Green));
    let mut b = Buffer::new(area);
    b.set_cell(2, 2, 'q', group(Color::Green));
    assert!(a.diff(&b).is_empty());
    assert_eq!(a.diff(&b).len(), 0);
}

#[test]
fn diff_reports_style_change_alone() {
    let area = Rect::new(0, 0, 2, 1);
    let mut a = Buffer::new(area);
    let b = Buffer::new(area);
    a.set_range_style(CellRange::all(), StyleDef::replace(group(Color::Red)), BufferBounds::All);
    let changes = a.diff(&b);
    assert_eq!(changes.len(), 2);
    let mut iter = changes.iter();
    let first = iter.next().unwrap();
    assert_eq!((first.x, first.y), (0, 0));
    assert_eq!(first.cell.style.fg, Color::Red);
    assert!(iter.next().is_some());
    assert!(iter.next().is_none());
}

#[test]
fn set_range_style_within_area() {
    let area = Rect::new(0, 0, 3, 3);
    let mut a = Buffer::new(area);
    let b = Buffer::new(area);
    a.set_range_style(
        CellRange::all(),
        StyleDef::replace(group(Color::Red)),
        BufferBounds::Area(Rect::new(1, 1, 2, 1)),
    );
    let cells: Vec<(u16, u16)> = a.diff(&b).into_changes().iter().map(|d| (d.x, d.y)).collect();
    assert_eq!(cells, vec![(1, 1), (2, 1)]);
}

#[test]
fn set_range_style_over_a_range() {
    let area = Rect::new(0, 0, 3, 2);
    let mut a = Buffer::new(area);
    let b = Buffer::new(area);
    let range = CellRange::Range(Point { x: 2, y: 0 }..Point { x: 1, y: 1 });
    a.set_range_style(range, StyleDef::replace(group(Color::Cyan)), BufferBounds::All);
    let cells: Vec<(u16, u16)> = a.diff(&b).into_changes().iter().map(|d| (d.x, d.y)).collect();
    assert_eq!(cells, vec![(2, 0), (0, 1)]);
}

#[test]
fn merge_styles() {
    let base = HighlightGroup { fg: Color::Red, bg: Color::Blue, bold: false };
    let mut keep = Cell::new('a').with_style(base);
    keep.merge_style(HighlightGroup { fg: Color::Green, bg: Color::Reset, bold: true }, StyleMerge::Keep);
    assert_eq!(keep.style, HighlightGroup { fg: Color::Red, bg: Color::Blue, bold: true });
    let mut merge = Cell::new('a').with_style(base);
    merge.merge_style(HighlightGroup { fg: Color::Green, bg: Color::Reset, bold: false }, StyleMerge::Merge);
    assert_eq!(merge.style, HighlightGroup { fg: Color::Green, bg: Color::Blue, bold: false });
    let mut replace = Cell::new('a').with_style(base);
    replace.merge_style(HighlightGroup::default(), StyleMerge::Replace);
    assert_eq!(replace.style, HighlightGroup::default());
    let mut twice = Cell::new('a').with_style(base);
    twice.merge_style(group(Color::Yellow), StyleMerge::Merge);
    let once = twice;
    twice.merge_style(group(Color::Yellow), StyleMerge::Merge);
    assert_eq!(twice, once);
}

#[test]
fn statusline_sections_left_and_right() {
    let area = Rect::new(0, 0, 10, 1);
    let mut buffer = Buffer::new(area);
    let left = vec![
        StatusSection::new("ab".to_string(), group(Color::Red)),
        StatusSection::new("c".to_string(), group(Color::Green)),
    ];
    let right = vec![
        StatusSection::new("xy".to_string(), group(Color::Blue)),
        StatusSection::new("z".to_string(), group(Color::Cyan)),
    ];
    EditorLayer::new().draw_statusline(&mut buffer, area, &left, &right);
    let row: String = drawn_row(&buffer, area);
    assert_eq!(row, "abc    xyz");
}

fn drawn_row(buffer: &Buffer, area: Rect) -> String {
    let blank = Buffer::new(area);
    let mut row: Vec<char> = vec!['\0'; area.width as usize];
    for d in buffer.diff(&blank).into_changes() {
        row[d.x as usize] = d.cell.symbol;
    }
    row.into_iter().collect()
}

#[test]
fn absolute_line_numbers_right_aligned() {

    let document = Document::new(None, Some("a\nb\nc"));
    let window = Window::new(document.id);
    let area = Rect::new(0, 0, 5, 4);
    let mut buffer = Buffer::new(area);
    let drawer = get_line_drawer(LuaLineNumbersConfig::Absolute);
    assert!(matches!(drawer, LineDrawer::Absolute(_)));
    drawer.draw_line_numbers(Rect::new(0, 0, 5, 4), &document, &window, &mut buffer, 1, 1, group(Color::Gray));
    let cells = drawn(&buffer, area);
    assert_eq!(
        cells,
        vec![(1, 0, ' '), (2, 0, ' '), (3, 0, '1'), (1, 1, ' '), (2, 1, ' '), (3, 1, '2'), (1, 2, ' '), (2, 2, ' '), (3, 2, '3')]
    );
}

#[test]
fn draw_document_keeps_capture_style_until_changed() {

    let document = Document::new(None, Some("ab\ncd"));
    let window = Window::new(document.id);
    let area = Rect::new(0, 0, 4, 3);
    let mut buffer = Buffer::new(area);
    let mut captures = BTreeMap::new();
    captures.insert(0usize, vec![StyledSpan { start: 0, end: 1, style: Some(group(Color::Red)) }]);
    EditorLayer::new().draw_document(area, &document, &window, &mut buffer, Some(&captures));
    let blank = Buffer::new(area);
    let changes = buffer.diff(&blank).into_changes();
    let cells: Vec<(u16, u16, char, Color)> =
        changes.iter().map(|d| (d.x, d.y, d.cell.symbol, d.cell.style.fg)).collect();
    assert_eq!(
        cells,
        vec![
            (0, 0, 'a', Color::Red),
            (1, 0, 'b', Color::Red),
            (2, 0, ' ', Color::Red),
            (3, 0, ' ', Color::Red),
            (0, 1, 'c', Color::Reset),
            (1, 1, 'd', Color::Reset),
            (2, 1, ' ', Color::Reset),
            (3, 1, ' ', Color::Reset),
        ]
    );
}

#[test]
fn draw_document_cuts_long_lines() {

    let document = Document::new(None, Some("abcdef"));
    let window = Window::new(document.id);
    let area = Rect::new(0, 0, 3, 1);
    let mut buffer = Buffer::new(area);
    EditorLayer::new().draw_document(area, &document, &window, &mut buffer, None);
    assert_eq!(drawn_row(&buffer, area), "abc");
}

#[test]
fn gutter_size_counts_numbers_signs_and_padding() {
    assert_eq!(calculate_gutter_size(1, 2), 6);
    assert_eq!(calculate_gutter_size(4, 0), 6);
    assert_eq!(calculate_gutter_size(0, 0), 4);
}

#[test]
fn draw_window_with_gutter_on_the_left() {
    let document = Document::new(None, Some("ab"));
    let window = Window::new(document.id);
    let area = Rect::new(0, 0, 8, 1);
    let mut buffer = Buffer::new(area);
    let gutter = LuaGutterConfig {
        enabled: true,
        anchor: LuaGutterAnchor::Left,
        line_numbers: LuaLineNumbersConfig::Absolute,
        sign_column: LuaSignColumnConfig::All,
    };
    EditorLayer::new().draw_window(area, &document, &window, &mut buffer, None, gutter, 0, 1, group(Color::Gray));
    assert_eq!(drawn_row(&buffer, area), "  1\0ab  ");
}

#[derive(Default)]
struct RecordingBackend {
    drawn: Vec<(u16, u16, char)>,
    flushes: usize,
}

impl Backend for RecordingBackend {
    fn setup(&mut self) -> Result<(), std::io::Error> {
        Ok(())
    }
    fn restore(&mut self) -> Result<(), std::io::Error> {
        Ok(())
    }
    fn draw(&mut self, content: Vec<Drawable<'_>>, _cursor: LuaCursorConfig) -> Result<(), std::io::Error> {
        self.drawn.extend(content.iter().map(|d| (d.x, d.y, d.cell.symbol)));
        Ok(())
    }
    fn hide_cursor(&mut self) -> Result<(), std::io::Error> {
        Ok(())
    }
    fn show_cursor(&mut self) -> Result<(), std::io::Error> {
        Ok(())
    }
    fn set_cursor(&mut self, _x: u16, _y: u16, _kind: CursorKind) -> Result<(), std::io::Error> {
        Ok(())
    }
    fn area(&self) -> Result<Rect, std::io::Error> {
        Ok(Rect::new(0, 0, 3, 2))
    }
    fn flush(&mut self) -> Result<(), std::io::Error> {
        self.flushes += 1;
        Ok(())
    }
}

#[test]
fn terminal_draws_only_changed_cells() {
    let mut terminal = Terminal::new(RecordingBackend::default(), Rect::new(0, 0, 3, 2));
    terminal.current_buffer().set_cell(1, 1, 'k', group(Color::Red));
    terminal.flush(LuaCursorConfig::default()).unwrap();
    assert_eq!(terminal.backend.drawn, vec![(1, 1, 'k')]);
    assert_eq!(terminal.backend.flushes, 1);
    terminal.swap_buffers();
    terminal.current_buffer().set_cell(1, 1, 'k', group(Color::Red));
    terminal.flush(LuaCursorConfig::default()).unwrap();
    assert_eq!(terminal.backend.drawn, vec![(1, 1, 'k')]);
}
