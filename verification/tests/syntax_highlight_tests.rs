use glyph::document::{Document, LanguageId};
use glyph::syntax::{CapturePoint, Highlighter};

fn has_capture(h: &Highlighter, doc: &Document, name: &str, start: (usize, usize), end: (usize, usize)) -> bool {
    let syntax = h.document_syntax(doc.id()).unwrap();
    match syntax.captures.get(&start.0) {
        Some(row) => row.iter().any(|c| {
            c.name == name
                && c.start == CapturePoint { row: start.0, column: start.1 }
                && c.end == CapturePoint { row: end.0, column: end.1 }
        }),
        None => false,
    }
}

#[test]
fn add_document_highlights_rust_by_row() {
    let doc = Document::new(Some("main.rs".to_string()), Some("fn main() {}\n\nfn other() {}\n"));
    assert_eq!(doc.language(), LanguageId::Rust);
    let mut h = Highlighter::new();
    assert!(h.document_syntax(doc.id()).is_none());
    h.add_document(&doc);
    let syntax = h.document_syntax(doc.id()).unwrap();
    assert!(syntax.parsed);
    assert_eq!(syntax.language, LanguageId::Rust);
    assert!(has_capture(&h, &doc, "keyword", (0, 0), (0, 2)));
    assert!(has_capture(&h, &doc, "function", (0, 3), (0, 7)));
    assert!(has_capture(&h, &doc, "function", (2, 3), (2, 8)));
    // no capture starts on the empty line
    assert!(syntax.captures.get(&1).is_none());
    for (row, captures) in syntax.captures.iter() {
        assert!(!captures.is_empty());
        assert!(captures.iter().all(|c| c.start.row == *row));
    }
}

#[test]
fn add_document_leaves_plain_text_unparsed() {
    let doc = Document::new(Some("notes.txt".to_string()), Some("fn main() {}\n"));
    assert_eq!(doc.language(), LanguageId::Plain);
    let mut h = Highlighter::new();
    h.add_document(&doc);
    let syntax = h.document_syntax(doc.id()).unwrap();
    assert!(!syntax.parsed);
    assert!(syntax.captures.is_empty());
    h.update_document(&doc);
    assert!(h.document_syntax(doc.id()).unwrap().captures.is_empty());
}

#[test]
fn update_document_highlights_the_new_text() {
    let mut doc = Document::new(Some("main.rs".to_string()), Some("fn main() {}\n"));
    let mut h = Highlighter::new();
    h.add_document(&doc);
    assert!(has_capture(&h, &doc, "keyword", (0, 0), (0, 2)));
    doc.text_mut().insert(0, "\n");
    h.update_document(&doc);
    assert!(has_capture(&h, &doc, "keyword", (1, 0), (1, 2)));
    assert!(h.document_syntax(doc.id()).unwrap().captures.get(&0).is_none());
}
