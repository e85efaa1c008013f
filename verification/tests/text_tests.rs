use glyph::command::{insert_char, insert_line_below, join_line_below, remove_curr_char, EditPoint};
use glyph::document::LineEnding;
use glyph::syntax::{group_captures, CapturePoint, SyntaxCapture};
use glyph::cursor::Cursor;
use glyph::geometry::Point;
use glyph::text_object::TextObject;
use ropey::Rope;

fn joined(text: &str, y: usize) -> (String, bool) {
    let mut rope = Rope::from_str(text);
    let edit = join_line_below(&mut rope, &Cursor::new(0, y));
    (rope.to_string(), edit.is_some())
}

#[test]
fn join_line_below_drops_leading_space() {
    assert_eq!(joined("ab\n  cd\nef", 0), ("ab cd\nef".to_string(), true));
}

#[test]
fn join_line_below_on_last_line_does_nothing() {
    assert_eq!(joined("ab\ncd", 1), ("ab\ncd".to_string(), false));
}

#[test]
fn join_line_below_onto_a_line_without_break_after() {
    assert_eq!(joined("ab\n\tcd\n", 0), ("ab cd\n".to_string(), true));
}

#[test]
fn remove_curr_char_removes_under_cursor() {
    let mut rope = Rope::from_str("abc\ndef");
    let _ = remove_curr_char(&mut rope, &Cursor::new(1, 1));
    assert_eq!(rope.to_string(), "abc\ndf");
}

#[test]
fn text_object_delete_undoes_insert() {
    let mut text = TextObject::new("hello\nworld".to_string());
    text.insert_char_at(Point::new(2, 1), 'X');
    assert_eq!(text.to_string(), "hello\nwoXrld");
    text.delete_curr_char(Point::new(2, 1));
    assert_eq!(text.to_string(), "hello\nworld");
}

#[test]
fn text_object_delete_prev_char() {
    let mut text = TextObject::new("hello\nworld".to_string());
    text.delete_prev_char(Point::new(0, 1));
    assert_eq!(text.to_string(), "helloworld");
}

#[test]
fn text_object_lines() {
    let text = TextObject::new("one\ntwo\n".to_string());
    assert_eq!(text.len_lines(), 3);
    assert_eq!(text.line(1), "two\n");
    assert_eq!(text.line_len(0), 4);
    assert_eq!(text.get_line(5), None);
}

#[test]
fn insert_char_types_at_cursor() {
    let mut rope = Rope::from_str("abc\ndé");
    let edit = insert_char(&mut rope, &Cursor::new(1, 1), 'é');
    assert_eq!(rope.to_string(), "abc\ndéé");
    assert_eq!((edit.start_byte, edit.old_end_byte, edit.new_end_byte), (5, 5, 7));
    assert_eq!(edit.start_position, EditPoint { row: 1, column: 1 });
    assert_eq!(edit.new_end_position, EditPoint { row: 1, column: 2 });
}

#[test]
fn insert_line_below_opens_empty_line() {
    let mut rope = Rope::from_str("ab\ncd");
    let edit = insert_line_below(&mut rope, &Cursor::new(0, 0), LineEnding::Lf);
    assert_eq!(rope.to_string(), "ab\n\ncd");
    assert_eq!((edit.start_byte, edit.new_end_byte), (3, 4));
    assert_eq!(edit.start_position, EditPoint { row: 2, column: 0 });
    assert_eq!(edit.new_end_position, EditPoint { row: 3, column: 0 });
}

fn capture(row: usize, column: usize, name: &str) -> SyntaxCapture {
    SyntaxCapture {
        start: CapturePoint { row, column },
        end: CapturePoint { row, column: column + 1 },
        name: name.to_string(),
    }
}

#[test]
fn captures_grouped_by_start_row_in_order() {
    let grouped = group_captures(vec![capture(2, 0, "a"), capture(0, 1, "b"), capture(2, 4, "c")]);
    assert_eq!(grouped.len(), 2);
    let names: Vec<&str> = grouped[&2].iter().map(|c| c.name.as_str()).collect();
    assert_eq!(names, vec!["a", "c"]);
    assert_eq!(grouped[&0][0].name, "b");
    assert!(!grouped.contains_key(&1));
}

#[test]
fn text_object_line_feed_after_carriage_return_joins_the_break() {
    let mut text = TextObject::new("a\rb".to_string());
    text.insert_char_at(Point::new(0, 1), '\n');
    assert_eq!(text.to_string(), "a\r\nb");
    text.delete_curr_char(Point::new(0, 1));
    assert_eq!(text.to_string(), "a\r\n");
}
