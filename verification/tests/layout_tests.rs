use glyph::document::{Document, DocumentId};
use glyph::editor::{Editor, OpenAction};
use glyph::runtime_api::{document_get_active, document_get_line_count, document_is_valid, window_get_active, DocumentError};
use glyph::rect::Rect;
use glyph::tree::{CloseAction, Layout, NodeValue, Tree};
use glyph::window::Window;

#[test]
fn test_initialize_tree() {
    let mut tree = Tree::new((10, 10).into());
    let document = Document::new(None, None);
    let window = Window::new(document.id);
    tree.split(window, Layout::Vertical);

    assert_eq!(tree.window(tree.focus()).area, (8, 10).into());
}

#[test]
fn test_split_vertically() {
    let mut tree = Tree::new((10, 10).into());
    let document = Document::new(None, None);

    let window = Window::new(document.id);
    tree.split(window, Layout::Vertical);

    let window = Window::new(document.id);
    tree.split(window, Layout::Vertical);

    assert_eq!(tree.window(tree.focus()).area, (8, 5).into());
}

#[test]
fn test_multi_split_vertically() {
    let mut tree = Tree::new((10, 15).into());
    let document = Document::new(None, None);

    let window = Window::new(document.id);
    tree.split(window, Layout::Vertical);

    let window = Window::new(document.id);
    tree.split(window, Layout::Vertical);

    let window = Window::new(document.id);
    tree.split(window, Layout::Vertical);

    assert!(matches!(tree.root(), NodeValue::Split(_)));
    if let NodeValue::Split(split) = tree.root() {
        assert_eq!(split.area, Rect::new(0, 0, 15, 8));
    }
    tree.windows()
        .values()
        .enumerate()
        .for_each(|(i, w)| assert_eq!(w.area, Rect::new(5 * i as u16, 0, 5, 8)));
}

#[test]
fn split_numbers_windows_in_order() {
    let mut tree = Tree::new((10, 20).into());
    let document = Document::new(None, None);
    let first = tree.split(Window::new(document.id), Layout::Vertical);
    let second = tree.split(Window::new(document.id), Layout::Vertical);
    assert_eq!(first.get(), 1);
    assert_eq!(second.get(), 2);
    assert_eq!(tree.focus(), first);
    assert_eq!(tree.window(second).id, second);
    assert_eq!(tree.windows().len(), 2);
}

#[test]
fn horizontal_split_stacks_windows() {
    let mut tree = Tree::new((12, 20).into());
    let document = Document::new(None, None);
    tree.split(Window::new(document.id), Layout::Vertical);
    let second = tree.split(Window::new(document.id), Layout::Horizontal);
    // the usable area is 20 columns by 10 rows, halved into rows of 5
    assert_eq!(tree.window(tree.focus()).area, Rect::new(0, 0, 20, 5));
    assert_eq!(tree.window(second).area, Rect::new(0, 5, 20, 5));
}

#[test]
fn split_in_other_layout_nests_a_pair() {
    let mut tree = Tree::new((12, 20).into());
    let document = Document::new(None, None);
    let first = tree.split(Window::new(document.id), Layout::Vertical);
    let second = tree.split(Window::new(document.id), Layout::Vertical);
    let third = tree.split(Window::new(document.id), Layout::Horizontal);
    match tree.root() {
        NodeValue::Split(split) => {
            assert_eq!(split.layout, Layout::Vertical);
            assert_eq!(split.nodes.len(), 2);
            assert_eq!(split.nodes[1], NodeValue::Window(second));
            match &split.nodes[0] {
                NodeValue::Split(inner) => {
                    assert_eq!(inner.layout, Layout::Horizontal);
                    assert_eq!(inner.nodes[0], NodeValue::Window(first));
                    assert_eq!(inner.nodes[1], NodeValue::Window(third));
                }
                NodeValue::Window(_) => panic!("expected a nested split"),
            }
        }
        NodeValue::Window(_) => panic!("expected a split"),
    }
}

#[test]
fn resize_lays_windows_out_again() {
    let mut tree = Tree::new((10, 10).into());
    let document = Document::new(None, None);
    let first = tree.split(Window::new(document.id), Layout::Vertical);
    let second = tree.split(Window::new(document.id), Layout::Vertical);
    tree.resize(Rect::new(0, 0, 30, 20));
    assert_eq!(tree.window(first).area, Rect::new(0, 0, 15, 18));
    assert_eq!(tree.window(second).area, Rect::new(15, 0, 15, 18));
}

#[test]
fn close_only_window_closes_tab() {
    let mut tree = Tree::new((10, 10).into());
    let document = Document::new(None, None);
    let first = tree.split(Window::new(document.id), Layout::Vertical);
    assert_eq!(tree.close_window(first), CloseAction::CloseTab);
    assert!(tree.get_window(first).is_none());
    assert!(!tree.is_empty());
}

#[test]
fn close_window_with_several_keeps_them() {
    let mut tree = Tree::new((10, 10).into());
    let document = Document::new(None, None);
    let first = tree.split(Window::new(document.id), Layout::Vertical);
    tree.split(Window::new(document.id), Layout::Vertical);
    assert_eq!(tree.close_window(first), CloseAction::NoAction);
    assert_eq!(tree.windows().len(), 2);
}

#[test]
fn window_mut_changes_the_window() {
    let mut tree = Tree::new((10, 10).into());
    let document = Document::new(None, None);
    let first = tree.split(Window::new(document.id), Layout::Vertical);
    tree.window_mut(first).scroll_down();
    assert_eq!(tree.window(first).scroll().y, 1);
    assert!(tree.get_window_mut(first).is_some());
}

#[test]
fn resize_twice_is_resize_once() {
    let document = Document::new(None, None);
    let mut twice = Tree::new((10, 10).into());
    let mut once = Tree::new((10, 10).into());
    for tree in [&mut twice, &mut once] {
        tree.split(Window::new(document.id), Layout::Vertical);
        tree.split(Window::new(document.id), Layout::Horizontal);
    }
    twice.resize(Rect::new(0, 0, 40, 12));
    twice.resize(Rect::new(0, 0, 20, 30));
    once.resize(Rect::new(0, 0, 20, 30));
    let a: Vec<Rect> = twice.windows().values().map(|w| w.area).collect();
    let b: Vec<Rect> = once.windows().values().map(|w| w.area).collect();
    assert_eq!(a, b);
}

#[test]
fn split_adds_exactly_one_window() {
    let mut tree = Tree::new((10, 10).into());
    let document = Document::new(None, None);
    for n in 1..4 {
        let id = tree.split(Window::new(document.id), Layout::Vertical);
        assert_eq!(tree.windows().len(), n);
        assert!(tree.windows().contains_key(&id.get()));
    }
}

#[test]
fn rect_split_left_and_top_partition() {
    let mut area = Rect::new(2, 3, 10, 6);
    let left = area.split_left(4);
    assert_eq!(left, Rect::new(2, 3, 4, 6));
    assert_eq!(area, Rect::new(6, 3, 6, 6));
    let mut area = Rect::new(2, 3, 10, 6);
    let top = area.split_top(2);
    assert_eq!(top, Rect::new(2, 3, 10, 2));
    assert_eq!(area, Rect::new(2, 5, 10, 4));
}

#[test]
fn rect_split_bottom_and_right_stay_within_the_rect() {
    let mut area = Rect::new(0, 0, 10, 6);
    let bottom = area.split_bottom(1);
    assert_eq!(bottom, Rect::new(0, 5, 10, 1));
    assert_eq!(area, Rect::new(0, 0, 10, 5));
    let mut area = Rect::new(3, 4, 10, 6);
    let bottom = area.split_bottom(2);
    assert_eq!(bottom, Rect::new(3, 8, 10, 2));
    assert_eq!(area, Rect::new(3, 4, 10, 4));
    let mut area = Rect::new(0, 0, 10, 6);
    let right = area.split_right(3);
    assert_eq!(right, Rect::new(7, 0, 3, 6));
    assert_eq!(area, Rect::new(0, 0, 7, 6));
    let mut area = Rect::new(5, 2, 10, 6);
    let right = area.split_right(3);
    assert_eq!(right, Rect::new(12, 2, 3, 6));
    assert_eq!(area, Rect::new(5, 2, 7, 6));
}

#[test]
fn editor_new_file_opens_window_on_it() {
    let mut editor = Editor::new(Rect::new(0, 0, 20, 10));
    assert!(!editor.should_close());
    let (window, document) = editor.new_file(OpenAction::SplitVertical);
    assert_eq!(usize::from(document), 1);
    assert_eq!(window.get(), 1);
    assert_eq!(editor.get_document(&document).unwrap().text().to_string(), "\n");
    assert_eq!(editor.focused_tab().tree.window(window).document, document);
    let (second, other) = editor.new_file_with_document("notes.md".to_string(), "# hi".to_string(), OpenAction::SplitVertical);
    assert_eq!(usize::from(other), 2);
    assert_eq!(second.get(), 2);
    assert_eq!(editor.document(&other).text().to_string(), "# hi");
    assert_eq!(editor.focused_tab().tree.windows().len(), 2);
    assert!(editor.get_document(&DocumentId::new(3).unwrap()).is_none());
}

#[test]
fn editor_switch_document_splits_focused_window() {
    let mut editor = Editor::new(Rect::new(0, 0, 20, 10));
    let (_, first) = editor.new_file(OpenAction::SplitVertical);
    let second = editor.switch_document(first, OpenAction::SplitVertical);
    assert_eq!(second.get(), 2);
    let tree = &editor.focused_tab().tree;
    assert_eq!(tree.window(second).document, first);
    assert_eq!(tree.window(second).area, Rect::new(10, 0, 10, 8));
}

#[test]
fn runtime_document_queries() {
    let mut editor = Editor::new(Rect::new(0, 0, 20, 10));
    let (window, document) = editor.new_file(OpenAction::SplitVertical);
    assert_eq!(window_get_active(&editor), window.get());
    assert_eq!(document_get_active(&editor), usize::from(document));
    assert!(document_is_valid(0, &editor));
    assert!(document_is_valid(1, &editor));
    assert!(!document_is_valid(5, &editor));
    assert!(!document_is_valid(-1, &editor));
    assert_eq!(document_get_line_count(0, &editor), Ok(2));
    assert_eq!(document_get_line_count(1, &editor), Ok(2));
    assert_eq!(document_get_line_count(7, &editor), Err(DocumentError::InvalidDocument(7)));
    assert_eq!(document_get_line_count(-3, &editor), Err(DocumentError::NegativeDocument));
}
