//! The editor's modes, what handling an event did, and how a file opens.
use std::collections::BTreeMap;

use vstd::prelude::*;

use crate::document::{Document, DocumentId};
use crate::rect::Rect;
use crate::tab::Tab;
use crate::tree::Layout;
use crate::window::{Window, WindowId};

verus! {

/// Whether an event was used, with the number of the layer that used or
/// passed it, if any.
#[derive(Debug, PartialEq, Eq, Structural, Clone, Copy)]
pub enum EventResult {
    Consumed(Option<usize>),
    Ignored(Option<usize>),
}

/// The mode of the editor.
#[derive(Debug, PartialEq, Eq, Structural, PartialOrd, Ord, Hash, Clone, Copy)]
pub enum Mode {
    Normal,
    Insert,
}

impl Default for Mode {
    fn default() -> (r: Mode)
        ensures
            r == Mode::Normal,
    {
        Mode::Normal
    }
}

/// The name of a mode.
pub open spec fn mode_name(mode: Mode) -> Seq<char> {
    match mode {
        Mode::Normal => "normal"@,
        Mode::Insert => "insert"@,
    }
}

impl Mode {
    /// The name of the mode, such as `normal`.
    pub fn to_string(&self) -> (r: String)
        ensures
            r@ == mode_name(*self),
    {
        match self {
            Mode::Normal => "normal".to_owned(),
            Mode::Insert => "insert".to_owned(),
        }
    }
}

/// Where a file opens: in place of the focused window's document, or in a
/// new window beside or below it.
#[derive(Debug, PartialEq, Eq, Structural, Clone, Copy)]
pub enum OpenAction {
    Replace,
    SplitVertical,
    SplitHorizontal,
}

/// The editor: its mode, its documents by number, and its tabs, one of them
/// focused.
#[derive(Debug)]
pub struct Editor {
    mode: Mode,
    next_document_id: DocumentId,
    documents: BTreeMap<usize, Document>,
    pub focused_tab: usize,
    pub tabs: Vec<Tab>,
    area: Rect,
}

impl Editor {
    pub closed spec fn spec_mode(&self) -> Mode {
        self.mode
    }

    /// The id the next new document gets.
    pub closed spec fn spec_next_document_id(&self) -> DocumentId {
        self.next_document_id
    }

    /// The documents, by number.
    pub closed spec fn spec_documents(&self) -> Map<usize, Document> {
        self.documents@
    }

    pub closed spec fn spec_area(&self) -> Rect {
        self.area
    }

    /// The index of the focused tab.
    pub closed spec fn spec_focused_tab(&self) -> usize {
        self.focused_tab
    }

    /// The tabs.
    pub closed spec fn spec_tabs(&self) -> Seq<Tab> {
        self.tabs@
    }

    /// The focused tab is one of the tabs, every tab's layout is well
    /// formed, and each document is filed under its own number.
    pub open spec fn wf(&self) -> bool {
        &&& self.spec_focused_tab() < self.spec_tabs().len()
        &&& forall|i: int| 0 <= i < self.spec_tabs().len() ==> (#[trigger] self.spec_tabs()[i]).tree.wf()
        &&& forall|k: usize| #[trigger]
            self.spec_documents().contains_key(k) ==> self.spec_documents()[k].spec_id().id() == k
    }

    /// An editor over `area` in normal mode, with no document and one tab.
    pub fn new(area: Rect) -> (e: Editor)
        ensures
            e.wf(),
            e.spec_area() == area,
            e.spec_mode() == Mode::Normal,
            e.spec_next_document_id().id() == 1,
            e.spec_documents() == Map::<usize, Document>::empty(),
            e.spec_focused_tab() == 0,
            e.spec_tabs().len() == 1,
            e.spec_tabs()[0].tree.spec_area() == area,
            e.spec_tabs()[0].tree.spec_windows() == Map::<usize, Window>::empty(),
    {
        Editor {
            next_document_id: DocumentId::default(),
            mode: Mode::Normal,
            documents: BTreeMap::new(),
            tabs: vec![Tab::new(area)],
            focused_tab: 0,
            area,
        }
    }

    pub fn area(&self) -> (r: Rect)
        ensures
            r == self.spec_area(),
    {
        self.area
    }

    /// The document numbered `id`, if there is one.
    pub fn get_document(&self, id: &DocumentId) -> (r: Option<&Document>)
        ensures
            r == (if self.spec_documents().contains_key(id.id()) {
                Some(&self.spec_documents()[id.id()])
            } else {
                None::<&Document>
            }),
    {
        self.documents.get(&usize::from(*id))
    }

    /// The document numbered `id`.
    pub fn document(&self, id: &DocumentId) -> (r: &Document)
        requires
            self.spec_documents().contains_key(id.id()),
        ensures
            *r == self.spec_documents()[id.id()],
    {
        self.get_document(id).unwrap()
    }

    pub fn mode(&self) -> (r: Mode)
        ensures
            r == self.spec_mode(),
    {
        self.mode
    }

    /// The focused tab.
    pub fn focused_tab(&self) -> (r: &Tab)
        requires
            self.spec_focused_tab() < self.spec_tabs().len(),
        ensures
            *r == self.spec_tabs()[self.spec_focused_tab() as int],
    {
        &self.tabs[self.focused_tab]
    }

    /// The focused tab, for changing it.
    pub fn focused_tab_mut(&mut self) -> (r: &mut Tab)
        requires
            old(self).spec_focused_tab() < old(self).spec_tabs().len(),
        ensures
            *r == old(self).spec_tabs()[old(self).spec_focused_tab() as int],
            final(self).spec_tabs() == old(self).spec_tabs().update(
                old(self).spec_focused_tab() as int,
                *final(r),
            ),
            final(self).spec_focused_tab() == old(self).spec_focused_tab(),
            final(self).spec_documents() == old(self).spec_documents(),
            final(self).spec_next_document_id() == old(self).spec_next_document_id(),
            final(self).spec_mode() == old(self).spec_mode(),
            final(self).spec_area() == old(self).spec_area(),
    {
        let ft = self.focused_tab;
        &mut self.tabs[ft]
    }

    /// Whether the editor has no window left to show.
    pub fn should_close(&self) -> (r: bool)
        requires
            self.spec_focused_tab() < self.spec_tabs().len(),
        ensures
            !r,
    {
        self.focused_tab().tree.is_empty()
    }

    /// Opens document `id` in a new window beside the focused one: a copy
    /// of the focused window when it shows the document, else a fresh
    /// window on it. Returns the new window's number.
    pub fn switch_document(&mut self, id: DocumentId, action: OpenAction) -> (w: WindowId)
        requires
            old(self).wf(),
            old(self).spec_documents().contains_key(id.id()),
            action == OpenAction::SplitVertical,
            old(self).spec_tabs()[old(self).spec_focused_tab() as int].tree.can_split(Layout::Vertical),
        ensures
            final(self).wf(),
            ({
                let ft = old(self).spec_focused_tab() as int;
                let before = old(self).spec_tabs()[ft].tree;
                let after = final(self).spec_tabs()[ft].tree;
                &&& w == before.spec_next_window()
                &&& after.spec_windows().dom() == before.spec_windows().dom().insert(w.id())
                &&& after.spec_windows()[w.id()].spec_document() == id
                &&& after.spec_area() == before.spec_area()
                &&& final(self).spec_tabs().len() == old(self).spec_tabs().len()
                &&& forall|i: int|
                    0 <= i < old(self).spec_tabs().len() && i != ft ==> final(self).spec_tabs()[i] == old(self).spec_tabs()[i]
            }),
            final(self).spec_focused_tab() == old(self).spec_focused_tab(),
            final(self).spec_documents() == old(self).spec_documents(),
            final(self).spec_next_document_id() == old(self).spec_next_document_id(),
            final(self).spec_mode() == old(self).spec_mode(),
            final(self).spec_area() == old(self).spec_area(),
    {
        let ft = self.focused_tab;
        let ghost tabs0 = self.spec_tabs();
        let mut tabs = Vec::new();
        std::mem::swap(&mut tabs, &mut self.tabs);
        let mut tab = tabs.remove(ft);
        let focus = tab.tree.focus();
        let mut window = match tab.tree.get_window(focus) {
            Some(w) => if w.document() == id {
                *w
            } else {
                Window::new(id)
            },
            None => Window::new(id),
        };
        window.set_document(id);
        let ghost before = tab.tree;
        let window_id = tab.tree.split(window, Layout::Vertical);
        proof {
            let k = window_id.id();
            let nw = window.with_id(window_id);
            Window::lemma_with_id(window, window_id);
            let after = tab.tree.spec_windows();
            let area = before.spec_area();
            let inner = Rect { height: (area.height - 2) as u16, ..area };
            Window::lemma_with_area(nw, inner);
            if before.spec_windows().len() > 0 {
                let areas = crate::tree::node_areas(tab.tree.spec_root(), inner);
                let grown = before.spec_windows().insert(k, nw);
                assert(grown[k] == nw);
                if areas.contains_key(k) {
                    Window::lemma_with_area(nw, areas[k]);
                }
                assert(after[k].spec_document() == id);
            }
        }
        tabs.insert(ft, tab);
        std::mem::swap(&mut tabs, &mut self.tabs);
        proof {
            assert forall|i: int| 0 <= i < tabs0.len() && i != ft implies self.spec_tabs()[i] == tabs0[i] by {
                if i < ft {
                } else {
                }
            }
        }
        window_id
    }

    /// Files `document` under the next id, which it takes.
    fn insert_document(&mut self, document: Document) -> (id: DocumentId)
        requires
            old(self).wf(),
        ensures
            final(self).wf(),
            id == old(self).spec_next_document_id(),
            final(self).spec_next_document_id().id() == (if id.id() < usize::MAX {
                id.id() + 1
            } else {
                usize::MAX as int
            }),
            final(self).spec_documents().dom() == old(self).spec_documents().dom().insert(id.id()),
            final(self).spec_documents()[id.id()].spec_id() == id,
            final(self).spec_documents()[id.id()].view() == document.view(),
            final(self).spec_documents()[id.id()].spec_language() == document.spec_language(),
            final(self).spec_documents()[id.id()].spec_metadata() == document.spec_metadata(),
            forall|k: usize|
                k != id.id() && #[trigger] old(self).spec_documents().contains_key(k) ==> final(self).spec_documents()[k] == old(self).spec_documents()[k],
            final(self).spec_tabs() == old(self).spec_tabs(),
            final(self).spec_focused_tab() == old(self).spec_focused_tab(),
            final(self).spec_mode() == old(self).spec_mode(),
            final(self).spec_area() == old(self).spec_area(),
    {
        let mut document = document;
        let id = self.next_document_id;
        document.set_id(id);
        self.next_document_id = self.next_document_id.next();
        let key = usize::from(id);
        let _ = self.documents.insert(key, document);
        assert forall|k: usize| #[trigger] self.spec_documents().contains_key(k) implies self.spec_documents()[k].spec_id().id() == k by {
            if k != key {
                assert(old(self).spec_documents().contains_key(k));
            }
        }
        id
    }

    /// Opens a new document holding one line break, in a new window beside
    /// the focused one.
    pub fn new_file(&mut self, action: OpenAction) -> (r: (WindowId, DocumentId))
        requires
            old(self).wf(),
            action == OpenAction::SplitVertical,
            old(self).spec_tabs()[old(self).spec_focused_tab() as int].tree.can_split(Layout::Vertical),
        ensures
            final(self).wf(),
            r.1 == old(self).spec_next_document_id(),
            final(self).spec_next_document_id().id() == (if r.1.id() < usize::MAX {
                r.1.id() + 1
            } else {
                usize::MAX as int
            }),
            final(self).spec_documents().dom() == old(self).spec_documents().dom().insert(r.1.id()),
            final(self).spec_documents()[r.1.id()].view() == seq!['\n'],
            final(self).spec_documents()[r.1.id()].spec_metadata().spec_path() is None,
            forall|k: usize|
                k != r.1.id() && #[trigger] old(self).spec_documents().contains_key(k) ==> final(self).spec_documents()[k] == old(self).spec_documents()[k],
            ({
                let ft = old(self).spec_focused_tab() as int;
                let before = old(self).spec_tabs()[ft].tree;
                let after = final(self).spec_tabs()[ft].tree;
                &&& r.0 == before.spec_next_window()
                &&& after.spec_windows().dom() == before.spec_windows().dom().insert(r.0.id())
                &&& after.spec_windows()[r.0.id()].spec_document() == r.1
            }),
            final(self).spec_focused_tab() == old(self).spec_focused_tab(),
    {
        let mut document = Document::default();
        let id = self.insert_document(document);
        let window_id = self.switch_document(id, action);
        (window_id, id)
    }

    /// Opens a new document with the text of the file at `path`, in a new
    /// window beside the focused one.
    pub fn new_file_with_document(&mut self, path: String, text: String, action: OpenAction) -> (r: (
        WindowId,
        DocumentId,
    ))
        requires
            old(self).wf(),
            action == OpenAction::SplitVertical,
            old(self).spec_tabs()[old(self).spec_focused_tab() as int].tree.can_split(Layout::Vertical),
        ensures
            final(self).wf(),
            r.1 == old(self).spec_next_document_id(),
            final(self).spec_next_document_id().id() == (if r.1.id() < usize::MAX {
                r.1.id() + 1
            } else {
                usize::MAX as int
            }),
            final(self).spec_documents().dom() == old(self).spec_documents().dom().insert(r.1.id()),
            final(self).spec_documents()[r.1.id()].view() == text@,
            final(self).spec_documents()[r.1.id()].spec_metadata().spec_path() == Some(path),
            forall|k: usize|
                k != r.1.id() && #[trigger] old(self).spec_documents().contains_key(k) ==> final(self).spec_documents()[k] == old(self).spec_documents()[k],
            ({
                let ft = old(self).spec_focused_tab() as int;
                let before = old(self).spec_tabs()[ft].tree;
                let after = final(self).spec_tabs()[ft].tree;
                &&& r.0 == before.spec_next_window()
                &&& after.spec_windows().dom() == before.spec_windows().dom().insert(r.0.id())
                &&& after.spec_windows()[r.0.id()].spec_document() == r.1
            }),
            final(self).spec_focused_tab() == old(self).spec_focused_tab(),
    {
        let document = Document::new(Some(path), Some(text.as_str()));
        let id = self.insert_document(document);
        let window_id = self.switch_document(id, action);
        (window_id, id)
    }
}

} // verus!
