//! Documents: a text, the language it is written in, and where it lives.
use vstd::prelude::*;
use vstd::string::{StrSliceExecFns, StringSliceAdditionalSpecFns};

use crate::text::{rope_chars, rope_from_str, rope_new};

verus! {

/// The id of a document; never zero.
#[derive(Debug, PartialEq, Eq, Structural, PartialOrd, Ord, Clone, Copy)]
pub struct DocumentId(usize);

impl DocumentId {
    #[verifier::type_invariant]
    closed spec fn nonzero(self) -> bool {
        self.0 >= 1
    }

    /// The number of the document.
    pub closed spec fn id(self) -> usize {
        self.0
    }

    /// The document numbered `document`, unless it is zero.
    pub fn new(document: usize) -> (r: Option<DocumentId>)
        ensures
            document == 0 ==> r is None,
            document != 0 ==> r is Some && r->0.id() == document,
    {
        if document == 0 {
            None
        } else {
            Some(DocumentId(document))
        }
    }

    /// The next id, saturating at the largest one.
    pub fn next(&self) -> (r: DocumentId)
        ensures
            r.id() == (if self.id() < usize::MAX {
                self.id() + 1
            } else {
                usize::MAX as int
            }),
    {
        proof {
            use_type_invariant(self);
        }
        DocumentId(self.0.saturating_add(1))
    }
}

impl Default for DocumentId {
    fn default() -> (r: DocumentId)
        ensures
            r.id() == 1,
    {
        DocumentId(1)
    }
}

impl From<DocumentId> for usize {
    fn from(value: DocumentId) -> (r: usize) {
        value.0
    }
}

impl vstd::std_specs::convert::FromSpecImpl<DocumentId> for usize {
    open spec fn obeys_from_spec() -> bool {
        true
    }

    open spec fn from_spec(value: DocumentId) -> usize {
        value.id()
    }
}

/// How lines end.
#[derive(Debug, Clone, Copy, PartialEq, Eq, Structural)]
pub enum LineEnding {
    Lf,
}

impl LineEnding {
    /// The chars of the line ending.
    pub open spec fn spec_str(self) -> Seq<char> {
        match self {
            LineEnding::Lf => seq!['\n'],
        }
    }

    /// The number of bytes of the line ending.
    pub open spec fn spec_len_bytes(self) -> nat {
        match self {
            LineEnding::Lf => 1,
        }
    }

    pub fn len_bytes(&self) -> (r: usize)
        ensures
            r == self.spec_len_bytes(),
    {
        let s = self.as_str();
        proof {
            reveal_strlit("\n");
            vstd::string::is_ascii_spec_bytes(s);
        }
        s.len()
    }

    pub fn as_str(&self) -> (r: &'static str)
        ensures
            r@ == self.spec_str(),
    {
        match self {
            LineEnding::Lf => {
                proof {
                    reveal_strlit("\n");
                }
                "\n"
            },
        }
    }
}

/// Where a document lives.
#[derive(Debug)]
pub struct DocumentMeta {
    path: Option<String>,
}

impl DocumentMeta {
    pub closed spec fn spec_path(self) -> Option<String> {
        self.path
    }

    pub fn new(path: Option<String>) -> (m: DocumentMeta)
        ensures
            m.spec_path() == path,
    {
        DocumentMeta { path }
    }

    /// The path, or the empty string.
    pub fn path(&self) -> (r: String)
        ensures
            self.spec_path() matches Some(p) ==> r@ == p@,
            self.spec_path() is None ==> r@ == Seq::<char>::empty(),
    {
        match &self.path {
            Some(path) => path.clone(),
            None => String::new(),
        }
    }
}

/// The languages the editor knows.
#[derive(Debug, Clone, Copy, PartialEq, Eq, Structural, PartialOrd, Ord, Hash)]
pub enum LanguageId {
    Rust,
    Markdown,
    Plain,
    Lua,
}

/// The extension that `std::path::Path::extension` finds in a path.
pub uninterp spec fn path_extension(path: Seq<char>) -> Option<Seq<char>>;

/// Calls `Path::extension` on `path` and keeps the extension when it is
/// valid UTF-8 (a `String`'s always is); the path grammar behind it is
/// left unstated and named `path_extension`.
#[verifier::external_body]
fn extension_of(path: &String) -> (r: Option<String>)
    ensures
        match r {
            Some(e) => path_extension(path@) == Some(e@),
            None => path_extension(path@) is None,
        },
{
    std::path::Path::new(path.as_str()).extension().and_then(|e| e.to_str()).map(
        |e| e.to_string(),
    )
}

/// The language of a file with extension `ext`.
pub open spec fn language_of_extension(ext: Option<Seq<char>>) -> LanguageId {
    match ext {
        Some(e) => if e == "rs"@ {
            LanguageId::Rust
        } else if e == "md"@ {
            LanguageId::Markdown
        } else if e == "lua"@ {
            LanguageId::Lua
        } else {
            LanguageId::Plain
        },
        None => LanguageId::Plain,
    }
}

fn str_eq(a: &str, b: &str) -> (r: bool)
    ensures
        r == (a@ == b@),
{
    let n = a.unicode_len();
    if n != b.unicode_len() {
        return false;
    }
    let mut i: usize = 0;
    while i < n
        invariant
            n == a@.len() == b@.len(),
            i <= n,
            forall|j: int| 0 <= j < i ==> a@[j] == b@[j],
        decreases n - i,
    {
        if a.get_char(i) != b.get_char(i) {
            return false;
        }
        i = i + 1;
    }
    assert(a@ =~= b@);
    true
}

impl LanguageId {
    /// The language named by the extension of `path`.
    pub fn from_path(path: Option<&String>) -> (r: LanguageId)
        ensures
            r == (match path {
                Some(p) => language_of_extension(path_extension(p@)),
                None => LanguageId::Plain,
            }),
    {
        match path {
            None => LanguageId::Plain,
            Some(p) => match extension_of(p) {
                None => LanguageId::Plain,
                Some(e) => {
                    proof {
                        reveal_strlit("rs");
                        reveal_strlit("md");
                        reveal_strlit("lua");
                    }
                    if str_eq(e.as_str(), "rs") {
                        LanguageId::Rust
                    } else if str_eq(e.as_str(), "md") {
                        LanguageId::Markdown
                    } else if str_eq(e.as_str(), "lua") {
                        LanguageId::Lua
                    } else {
                        LanguageId::Plain
                    }
                },
            },
        }
    }
}

/// A document: its text, language and metadata.
#[derive(Debug)]
pub struct Document {
    pub id: DocumentId,
    text: ropey::Rope,
    language: LanguageId,
    metadata: DocumentMeta,
}

impl Document {
    /// The chars of the text.
    pub closed spec fn view(self) -> Seq<char> {
        rope_chars(self.text)
    }

    pub closed spec fn spec_id(self) -> DocumentId {
        self.id
    }

    pub closed spec fn spec_language(self) -> LanguageId {
        self.language
    }

    pub closed spec fn spec_metadata(self) -> DocumentMeta {
        self.metadata
    }

    /// A document with id 1, the given text (empty when there is none) and
    /// the language of the path's extension.
    pub fn new(path: Option<String>, text: Option<&str>) -> (d: Document)
        ensures
            d.spec_id().id() == 1,
            d.view() == (match text {
                Some(t) => t@,
                None => Seq::<char>::empty(),
            }),
            d.spec_language() == (match path {
                Some(p) => language_of_extension(path_extension(p@)),
                None => LanguageId::Plain,
            }),
            d.spec_metadata().spec_path() == path,
    {
        let language = LanguageId::from_path(path.as_ref());
        let text = match text {
            Some(t) => rope_from_str(t),
            None => rope_new(),
        };
        Document {
            id: DocumentId::default(),
            language,
            text,
            metadata: DocumentMeta::new(path),
        }
    }

    /// Renumbers the document, keeping all else.
    pub fn set_id(&mut self, id: DocumentId)
        ensures
            final(self).spec_id() == id,
            final(self).view() == old(self).view(),
            final(self).spec_language() == old(self).spec_language(),
            final(self).spec_metadata() == old(self).spec_metadata(),
    {
        self.id = id;
    }

    pub fn text(&self) -> (r: &ropey::Rope)
        ensures
            rope_chars(*r) == self.view(),
    {
        &self.text
    }

    pub fn text_mut(&mut self) -> (r: &mut ropey::Rope)
        ensures
            rope_chars(*r) == old(self).view(),
            final(self).view() == rope_chars(*final(r)),
            final(self).spec_id() == old(self).spec_id(),
            final(self).spec_language() == old(self).spec_language(),
    {
        &mut self.text
    }

    pub fn language(&self) -> (r: LanguageId)
        ensures
            r == self.spec_language(),
    {
        self.language
    }

    /// The document's id.
    pub fn id(&self) -> (r: DocumentId)
        ensures
            r == self.spec_id(),
    {
        self.id
    }

    pub fn metadata(&self) -> (r: &DocumentMeta)
        ensures
            *r == self.spec_metadata(),
    {
        &self.metadata
    }
}

impl Default for Document {
    /// A document holding one line break.
    fn default() -> (d: Document)
        ensures
            d.spec_id().id() == 1,
            d.view() == seq!['\n'],
            d.spec_language() == LanguageId::Plain,
            d.spec_metadata().spec_path() is None,
    {
        let ending = LineEnding::Lf;
        Document::new(None, Some(ending.as_str()))
    }
}

} // verus!
