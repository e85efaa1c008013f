//! What the configuration scripts can ask of the editor: the active window
//! and document, whether a document exists, and its number of lines.
use vstd::prelude::*;

use crate::document::DocumentId;
use crate::editor::Editor;
use crate::text::{num_lines, rope_len_lines};

verus! {

/// Why a document number was refused.
#[derive(Debug, PartialEq, Eq, Structural, Clone, Copy)]
pub enum DocumentError {
    /// Document numbers are never negative.
    NegativeDocument,
    /// No document has the number.
    InvalidDocument(usize),
}

/// The focused tab has a focused window, and the document it shows is
/// open.
pub open spec fn has_active_document(editor: &Editor) -> bool {
    let ft = editor.spec_focused_tab() as int;
    &&& editor.spec_focused_tab() < editor.spec_tabs().len()
    &&& editor.spec_tabs()[ft].tree.spec_windows().contains_key(
        editor.spec_tabs()[ft].tree.spec_focus().id(),
    )
    &&& editor.spec_documents().contains_key(active_document(editor).id())
}

/// The document that the focused window shows.
pub open spec fn active_document(editor: &Editor) -> DocumentId {
    let tree = editor.spec_tabs()[editor.spec_focused_tab() as int].tree;
    tree.spec_windows()[tree.spec_focus().id()].spec_document()
}

/// The number of the focused window.
pub fn window_get_active(editor: &Editor) -> (r: usize)
    requires
        editor.spec_focused_tab() < editor.spec_tabs().len(),
    ensures
        r == editor.spec_tabs()[editor.spec_focused_tab() as int].tree.spec_focus().id(),
{
    usize::from(editor.focused_tab().tree.focus())
}

/// The number of the document that the focused window shows.
pub fn document_get_active(editor: &Editor) -> (r: usize)
    requires
        editor.spec_focused_tab() < editor.spec_tabs().len(),
        editor.spec_tabs()[editor.spec_focused_tab() as int].tree.spec_windows().contains_key(
            editor.spec_tabs()[editor.spec_focused_tab() as int].tree.spec_focus().id(),
        ),
    ensures
        r == active_document(editor).id(),
{
    let tab = editor.focused_tab();
    let window = tab.tree.focus();
    let window = tab.tree.window(window);
    usize::from(window.document())
}

/// Whether `document` names a document: zero names the active one, and a
/// negative number none. The number is taken as a `usize`, cut to its
/// width.
pub fn document_is_valid(document: i64, editor: &Editor) -> (r: bool)
    ensures
        r == (document >= 0 && (document as usize == 0 || editor.spec_documents().contains_key(
            document as usize,
        ))),
{
    if document < 0 {
        return false;
    }
    let document = document as usize;
    if document == 0 {
        return true;
    }
    match DocumentId::new(document) {
        Some(id) => editor.get_document(&id).is_some(),
        None => false,
    }
}

/// The number of lines of `document`, zero naming the active document. The
/// number is taken as a `usize`, cut to its width.
pub fn document_get_line_count(document: i64, editor: &Editor) -> (r: Result<i64, DocumentError>)
    requires
        document >= 0 && document as usize == 0 ==> has_active_document(editor),
    ensures
        document < 0 ==> r == Err::<i64, DocumentError>(DocumentError::NegativeDocument),
        document >= 0 && document as usize == 0 ==> r == Ok::<i64, DocumentError>(
            num_lines(editor.spec_documents()[active_document(editor).id()].view()) as i64,
        ),
        document >= 0 && document as usize != 0 && editor.spec_documents().contains_key(
            document as usize,
        ) ==> r == Ok::<i64, DocumentError>(
            num_lines(editor.spec_documents()[document as usize].view()) as i64,
        ),
        document >= 0 && document as usize != 0 && !editor.spec_documents().contains_key(
            document as usize,
        ) ==> r == Err::<i64, DocumentError>(DocumentError::InvalidDocument(document as usize)),
{
    if document < 0 {
        return Err(DocumentError::NegativeDocument);
    }
    let document = document as usize;
    let lines = if document == 0 {
        let tab = editor.focused_tab();
        let window = tab.tree.focus();
        let window = tab.tree.window(window);
        let id = window.document();
        let document = editor.document(&id);
        rope_len_lines(document.text())
    } else {
        let found = match DocumentId::new(document) {
            Some(id) => editor.get_document(&id),
            None => None,
        };
        match found {
            Some(d) => rope_len_lines(d.text()),
            None => return Err(DocumentError::InvalidDocument(document)),
        }
    };
    Ok(lines as i64)
}

} // verus!
