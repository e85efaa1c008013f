use glyph::command::{delete_word, delete_word_prev, find_next_word, prev_word, prev_word_big, TextQuery, WordSkip};
use glyph::cursor::Cursor;
use glyph::geometry::Point;
use glyph::text_object::TextObject;
use ropey::Rope;

fn deleted(text: &str, cursor: Cursor) -> String {
    let mut rope = Rope::from_str(text);
    delete_word(&mut rope, &cursor);
    rope.to_string()
}

fn deleted_prev(text: &str, cursor: Cursor) -> String {
    let mut rope = Rope::from_str(text);
    let mut cursor = cursor;
    delete_word_prev(&mut rope, &mut cursor);
    rope.to_string()
}

fn after_prev_word(text: &str, cursor: Cursor) -> Cursor {
    let rope = Rope::from_str(text);
    let mut cursor = cursor;
    prev_word(&rope, &mut cursor);
    cursor
}

fn after_prev_word_big(text: &str, cursor: Cursor) -> Cursor {
    let rope = Rope::from_str(text);
    let mut cursor = cursor;
    prev_word_big(&rope, &mut cursor);
    cursor
}

#[test]
fn test_delete_word_start() {
    assert_eq!(
        deleted("local function create_inspector(opts)\n", Cursor::new(0, 0)),
        "function create_inspector(opts)\n"
    );
}

#[test]
fn test_delete_word_until_underscore() {
    assert_eq!(
        deleted("local function create_inspector(opts)\n", Cursor::new(15, 0)),
        "local function _inspector(opts)\n"
    );
}

#[test]
fn test_delete_word_separator() {
    assert_eq!(
        deleted("local function create_inspector(opts)\n", Cursor::new(21, 0)),
        "local function createinspector(opts)\n"
    );
}

#[test]
fn test_delete_word() {
    assert_eq!(
        deleted("local function create_inspector(opts)\n", Cursor::new(0, 0)),
        "function create_inspector(opts)\n"
    );
    assert_eq!(
        deleted("local function create_inspector(opts)\n", Cursor::new(15, 0)),
        "local function _inspector(opts)\n"
    );
    assert_eq!(
        deleted("local function create_inspector(opts)\n", Cursor::new(21, 0)),
        "local function createinspector(opts)\n"
    );
}

#[test]
fn test_prev_word_spaces() {
    let cursor = after_prev_word("local          function create_inspector(opts)\n", Cursor::new(14, 0));
    assert_eq!(cursor, Cursor::new(0, 0));
}

#[test]
fn test_prev_word_empty_lines() {
    let cursor = after_prev_word(
        "\n\n            local function create_inspector(opts)\n",
        Cursor::new(11, 2),
    );
    assert_eq!(cursor, Cursor::new(0, 1));
}

#[test]
fn test_prev_word_partial() {
    let cursor = after_prev_word("local function create_inspector(opts)\n", Cursor::new(5, 0));
    assert_eq!(cursor, Cursor::new(0, 0));
}

#[test]
fn test_prev_word_big_identifier() {
    let cursor = after_prev_word_big("local function create_inspector(opts)\n", Cursor::new(29, 0));
    assert_eq!(cursor, Cursor::new(15, 0));
}

#[test]
fn test_prev_word_big_function() {
    let cursor = after_prev_word_big("local function create_inspector(opts)\n", Cursor::new(15, 0));
    assert_eq!(cursor, Cursor::new(6, 0));
}

#[test]
fn test_prev_word_big_across_lines() {
    let cursor = after_prev_word_big(
        "\nfn is_linebreak(&self) -> bool {\n    matches!(self, '\\n' | '\\r')\n}",
        Cursor::new(4, 2),
    );
    assert_eq!(cursor, Cursor::new(31, 1));
}

#[test]
fn test_prev_word_big_empty_lines() {
    let cursor = after_prev_word_big(
        "\n\nfn is_linebreak(&self) -> bool {\n    matches!(self, '\\n' | '\\r')\n}",
        Cursor::new(0, 2),
    );
    assert_eq!(cursor, Cursor::new(0, 1));
}

#[test]
fn test_prev_word_with_ampersand() {
    let cursor = after_prev_word("fn is_linebreak(&self) -> bool { }", Cursor::new(14, 0));
    assert_eq!(cursor, Cursor::new(6, 0));
}

#[test]
fn test_prev_word_short_word() {
    let cursor = after_prev_word("fn is_linebreak(&self) -> bool { }", Cursor::new(6, 0));
    assert_eq!(cursor, Cursor::new(5, 0));
}

#[test]
fn test_prev_word_with_pub() {
    let cursor = after_prev_word("pub fn is_linebreak(&self) -> bool { }", Cursor::new(7, 0));
    assert_eq!(cursor, Cursor::new(4, 0));
}

#[test]
fn test_prev_word_with_colons() {
    let cursor = after_prev_word("use crate::config::Config;", Cursor::new(10, 0));
    assert_eq!(cursor, Cursor::new(9, 0));
}

#[test]
fn test_prev_word_after_keyword() {
    let cursor = after_prev_word("pub fn is_linebreak(&self) -> bool { }", Cursor::new(9, 0));
    assert_eq!(cursor, Cursor::new(7, 0));
}

#[test]
fn test_delete_word_prev() {
    assert_eq!(
        deleted_prev("pub fn is_linebreak(&self) -> bool { }", Cursor::new(7, 0)),
        "pub is_linebreak(&self) -> bool { }"
    );
}

#[test]
fn test_delete_word_prev_line() {
    assert_eq!(
        deleted_prev(
            "with_content(&ctx, |document, _| {\n    let text = document.text();\n});",
            Cursor::new(4, 1)
        ),
        "with_content(&ctx, |document, _| let text = document.text();\n});"
    );
}

#[test]
fn test_find_pair() {
    let code_sample = [
        "let (a, (b, c, d)) = match foo {",
        "    Ok(result) => result",
        "    Err(e) => unreachable!()",
        "}",
    ]
    .join("\n");

    let text_object = TextObject::new(code_sample);

    // matching on forward pair
    let pair_position = text_object.find_matching_pair(Point::new(0, 0));
    assert_eq!(pair_position, Point::new(17, 0));

    // matching on forward pair multiline
    let pair_position = text_object.find_matching_pair(Point::new(23, 0));
    assert_eq!(pair_position, Point::new(0, 3));

    // matching on backward pair
    let pair_position = text_object.find_matching_pair(Point::new(12, 0));
    assert_eq!(pair_position, Point::new(8, 0));

    // matching on backward pair multiline
    let pair_position = text_object.find_matching_pair(Point::new(0, 3));
    assert_eq!(pair_position, Point::new(31, 0));
}

fn next_word_end(text: &str, cursor: Cursor, skip: WordSkip) -> (usize, usize) {
    let rope = Rope::from_str(text);
    let query = find_next_word(&rope, &cursor, skip);
    let end = (query.end_line(), query.end_col());
    assert_eq!(query, TextQuery::new(cursor.y, cursor.x, end.0, end.1));
    end
}

#[test]
fn next_word_crosses_line_breaks_as_whitespace() {
    assert_eq!(next_word_end("ab\ncd", Cursor::new(0, 0), WordSkip::Small), (1, 0));
    assert_eq!(next_word_end("ab(cd", Cursor::new(0, 0), WordSkip::Small), (0, 2));
    assert_eq!(next_word_end("(( cd", Cursor::new(0, 0), WordSkip::Small), (0, 3));
    assert_eq!(next_word_end("(( ((", Cursor::new(0, 0), WordSkip::Small), (0, 3));
    assert_eq!(next_word_end("ab(cd ef", Cursor::new(0, 0), WordSkip::Big), (0, 6));
}

#[test]
fn next_word_from_whitespace_stops_at_blank_line() {
    assert_eq!(next_word_end("  x", Cursor::new(0, 0), WordSkip::Small), (0, 2));
    assert_eq!(next_word_end("a \n\nb", Cursor::new(1, 0), WordSkip::Small), (1, 0));
}

#[test]
fn next_word_without_a_stop_lands_at_end_of_text() {
    assert_eq!(next_word_end("abc", Cursor::new(0, 0), WordSkip::Small), (0, 3));
    assert_eq!(next_word_end("ab  ", Cursor::new(2, 0), WordSkip::Big), (0, 4));
    assert_eq!(next_word_end("ab\n", Cursor::new(0, 0), WordSkip::Small), (1, 0));
}

#[test]
fn next_word_counts_crlf_as_one_line_break() {
    assert_eq!(next_word_end("  \r\nfoo", Cursor::new(0, 0), WordSkip::Small), (1, 0));
    assert_eq!(next_word_end("  \r\n\r\nfoo", Cursor::new(0, 0), WordSkip::Small), (1, 0));
    assert_eq!(next_word_end("  \n\nfoo", Cursor::new(0, 0), WordSkip::Big), (1, 0));
}

#[test]
fn next_word_treats_unicode_spaces_as_whitespace() {
    assert_eq!(next_word_end("a\u{3000}b", Cursor::new(0, 0), WordSkip::Small), (0, 2));
    assert_eq!(next_word_end("\u{A0}\u{2009}b", Cursor::new(0, 0), WordSkip::Small), (0, 2));
}
