//! Syntax highlighting: tree-sitter parses a document and runs the highlight
//! query of its language over the tree; the captures are kept by the line
//! they start on.
use std::collections::BTreeMap;

use tree_sitter::StreamingIterator;
use vstd::prelude::*;

use crate::document::{Document, DocumentId, LanguageId};
use crate::text::{rope_chars, rope_to_string};

verus! {

/// A position in a document: its row and column.
#[derive(Debug, Clone, Copy, PartialEq, Eq, Structural)]
pub struct CapturePoint {
    pub row: usize,
    pub column: usize,
}

/// A piece of a document that a highlight query captured, and the name of
/// the capture.
#[derive(Debug, Clone, PartialEq, Eq)]
pub struct SyntaxCapture {
    pub start: CapturePoint,
    pub end: CapturePoint,
    pub name: String,
}

/// The captures among `captures` that start on `row`, in their order.
pub open spec fn captures_on(captures: Seq<SyntaxCapture>, row: usize) -> Seq<SyntaxCapture>
    decreases captures.len(),
{
    if captures.len() == 0 {
        Seq::empty()
    } else {
        let rest = captures_on(captures.drop_last(), row);
        if captures.last().start.row == row {
            rest.push(captures.last())
        } else {
            rest
        }
    }
}

/// Some of `captures` starts on `row`.
pub open spec fn has_capture_on(captures: Seq<SyntaxCapture>, row: usize) -> bool {
    exists|i: int| 0 <= i < captures.len() && #[trigger] captures[i].start.row == row
}

/// No capture starts on a row where none of them does.
proof fn lemma_captures_on_none(captures: Seq<SyntaxCapture>, row: usize)
    requires
        !has_capture_on(captures, row),
    ensures
        captures_on(captures, row) == Seq::<SyntaxCapture>::empty(),
    decreases captures.len(),
{
    if captures.len() > 0 {
        let rest = captures.drop_last();
        if has_capture_on(rest, row) {
            let j = choose|j: int| 0 <= j < rest.len() && #[trigger] rest[j].start.row == row;
            assert(captures[j].start.row == row);
        }
        lemma_captures_on_none(rest, row);
        assert(captures[captures.len() - 1].start.row != row);
    }
}

/// Files `capture` under the row it starts on, after the captures already
/// there.
pub fn push_capture(captures: &mut BTreeMap<usize, Vec<SyntaxCapture>>, capture: SyntaxCapture)
    ensures
        final(captures)@.dom() == old(captures)@.dom().insert(capture.start.row),
        forall|r: usize|
            r != capture.start.row && #[trigger] old(captures)@.contains_key(r) ==> final(captures)@[r] == old(captures)@[r],
        final(captures)@[capture.start.row]@ == (if old(captures)@.contains_key(capture.start.row) {
            old(captures)@[capture.start.row]@
        } else {
            Seq::empty()
        }).push(capture),
{
    let row = capture.start.row;
    let mut entry = match captures.remove(&row) {
        Some(v) => v,
        None => Vec::new(),
    };
    entry.push(capture);
    let _ = captures.insert(row, entry);
}

/// The captures grouped by the row they start on, each group in the order
/// of `captures`.
pub fn group_captures(captures: Vec<SyntaxCapture>) -> (r: BTreeMap<usize, Vec<SyntaxCapture>>)
    ensures
        forall|row: usize| #[trigger] r@.contains_key(row) <==> has_capture_on(captures@, row),
        forall|row: usize| #[trigger] r@.contains_key(row) ==> r@[row]@ == captures_on(captures@, row),
{
    let ghost all = captures@;
    let mut rest = captures;
    let mut grouped: BTreeMap<usize, Vec<SyntaxCapture>> = BTreeMap::new();
    let ghost mut i: int = 0;
    while rest.len() > 0
        invariant
            0 <= i <= all.len(),
            rest@ == all.subrange(i, all.len() as int),
            forall|row: usize| #[trigger] grouped@.contains_key(row) <==> has_capture_on(
                all.subrange(0, i),
                row,
            ),
            forall|row: usize| #[trigger] grouped@.contains_key(row) ==> grouped@[row]@ == captures_on(
                all.subrange(0, i),
                row,
            ),
        decreases rest@.len(),
    {
        let capture = rest.remove(0);
        let ghost prefix = all.subrange(0, i);
        let ghost next = all.subrange(0, i + 1);
        assert(next.drop_last() =~= prefix);
        assert(capture == all[i]);
        assert(next.last() == capture);
        push_capture(&mut grouped, capture);
        proof {
            assert forall|row: usize| #[trigger] grouped@.contains_key(row) <==> has_capture_on(next, row) by {
                if has_capture_on(next, row) {
                    let j = choose|j: int| 0 <= j < next.len() && #[trigger] next[j].start.row == row;
                    if j < i {
                        assert(prefix[j].start.row == row);
                    }
                }
                if has_capture_on(prefix, row) {
                    let j = choose|j: int| 0 <= j < prefix.len() && #[trigger] prefix[j].start.row == row;
                    assert(next[j].start.row == row);
                }
            }
            assert forall|row: usize| #[trigger] grouped@.contains_key(row) implies grouped@[row]@
                == captures_on(next, row) by {
                if row == capture.start.row && !has_capture_on(prefix, row) {
                    lemma_captures_on_none(prefix, row);
                }
            }
            i = i + 1;
            assert(rest@ =~= all.subrange(i, all.len() as int));
        }
    }
    assert(all.subrange(0, i) =~= all);
    grouped
}

/// A capture as plain values: start row and column, end row and column,
/// and the capture's name.
pub open spec fn capture_view(c: SyntaxCapture) -> (usize, usize, usize, usize, Seq<char>) {
    (c.start.row, c.start.column, c.end.row, c.end.column, c.name@)
}

/// The captures as plain values, in order.
pub open spec fn captures_view(cs: Seq<SyntaxCapture>) -> Seq<(usize, usize, usize, usize, Seq<char>)> {
    cs.map_values(|c: SyntaxCapture| capture_view(c))
}

/// What tree-sitter's query cursor yields when `text` is parsed with the
/// grammar of `language` and that language's highlight query runs over the
/// tree: for each capture of each match, in order, the start row and
/// column, the end row and column, and the index of the capture's name.
pub uninterp spec fn ts_matches(language: LanguageId, text: Seq<char>) -> Seq<
    (usize, usize, usize, usize, u32),
>;

/// The capture names of the highlight query of `language`, by index.
pub uninterp spec fn ts_capture_names(language: LanguageId) -> Seq<Seq<char>>;

/// The captures that `matches` give with the capture names `names`: each
/// match whose name index is in range becomes a capture with that name.
pub open spec fn named_captures(
    matches: Seq<(usize, usize, usize, usize, u32)>,
    names: Seq<Seq<char>>,
) -> Seq<(usize, usize, usize, usize, Seq<char>)>
    decreases matches.len(),
{
    if matches.len() == 0 {
        Seq::empty()
    } else {
        let rest = named_captures(matches.drop_last(), names);
        let m = matches.last();
        if (m.4 as int) < names.len() {
            rest.push((m.0, m.1, m.2, m.3, names[m.4 as int]))
        } else {
            rest
        }
    }
}

/// The highlight captures of `text` in `language`, as plain values.
pub open spec fn highlight_of(language: LanguageId, text: Seq<char>) -> Seq<
    (usize, usize, usize, usize, Seq<char>),
> {
    named_captures(ts_matches(language, text), ts_capture_names(language))
}

/// The captures among `cs` (as plain values) that start on `row`, in order.
pub open spec fn view_captures_on(
    cs: Seq<(usize, usize, usize, usize, Seq<char>)>,
    row: usize,
) -> Seq<(usize, usize, usize, usize, Seq<char>)> {
    cs.filter(|c: (usize, usize, usize, usize, Seq<char>)| c.0 == row)
}

/// `grouped` holds the captures `cs` by the row they start on: a row is a
/// key exactly when some capture starts on it, and holds those captures in
/// order.
pub open spec fn groups(
    grouped: Map<usize, Vec<SyntaxCapture>>,
    cs: Seq<(usize, usize, usize, usize, Seq<char>)>,
) -> bool {
    &&& forall|row: usize| #[trigger] grouped.contains_key(row) <==> view_captures_on(cs, row).len() > 0
    &&& forall|row: usize| #[trigger] grouped.contains_key(row) ==> captures_view(grouped[row]@)
        == view_captures_on(cs, row)
}

proof fn lemma_captures_on_view(cs: Seq<SyntaxCapture>, row: usize)
    ensures
        captures_view(captures_on(cs, row)) == view_captures_on(captures_view(cs), row),
        has_capture_on(cs, row) <==> view_captures_on(captures_view(cs), row).len() > 0,
    decreases cs.len(),
{
    reveal(Seq::filter);
    if cs.len() == 0 {
        assert(captures_view(cs) =~= Seq::empty());
        assert(captures_view(captures_on(cs, row)) =~= Seq::empty());
    } else {
        let rest = cs.drop_last();
        lemma_captures_on_view(rest, row);
        let v = captures_view(cs);
        assert(v.drop_last() =~= captures_view(rest));
        assert(v.last() == capture_view(cs.last()));
        if cs.last().start.row == row {
            assert(captures_view(captures_on(rest, row).push(cs.last())) =~= captures_view(
                captures_on(rest, row),
            ).push(capture_view(cs.last())));
            assert(cs[cs.len() - 1].start.row == row);
        } else {
            if has_capture_on(cs, row) {
                let j = choose|j: int| 0 <= j < cs.len() && #[trigger] cs[j].start.row == row;
                assert(rest[j].start.row == row);
            }
        }
        if has_capture_on(rest, row) {
            let j = choose|j: int| 0 <= j < rest.len() && #[trigger] rest[j].start.row == row;
            assert(cs[j].start.row == row);
        }
    }
}

/// A tree-sitter grammar with the highlight query of its language.
pub struct Grammar {
    language: LanguageId,
    grammar: tree_sitter::Language,
    query: tree_sitter::Query,
}

impl Grammar {
    pub closed spec fn spec_language(self) -> LanguageId {
        self.language
    }
}

#[verifier::external_type_specification]
#[verifier::external_body]
pub struct ExTsLanguage(tree_sitter::Language);

#[verifier::external_type_specification]
#[verifier::external_body]
pub struct ExTsQuery(tree_sitter::Query);

/// `tree_sitter_rust::LANGUAGE`, the Rust grammar.
#[verifier::external_body]
fn rust_grammar() -> tree_sitter::Language {
    tree_sitter_rust::LANGUAGE.into()
}

/// `tree_sitter_rust::HIGHLIGHTS_QUERY`, the Rust highlight query.
#[verifier::external_body]
fn rust_highlights() -> &'static str {
    tree_sitter_rust::HIGHLIGHTS_QUERY
}

/// `tree_sitter_lua::LANGUAGE`, the Lua grammar.
#[verifier::external_body]
fn lua_grammar() -> tree_sitter::Language {
    tree_sitter_lua::LANGUAGE.into()
}

/// `tree_sitter_lua::HIGHLIGHTS_QUERY`, the Lua highlight query.
#[verifier::external_body]
fn lua_highlights() -> &'static str {
    tree_sitter_lua::HIGHLIGHTS_QUERY
}

/// `tree_sitter_md::LANGUAGE`, the Markdown block grammar.
#[verifier::external_body]
fn markdown_grammar() -> tree_sitter::Language {
    tree_sitter_md::LANGUAGE.into()
}

/// `tree_sitter_md::HIGHLIGHT_QUERY_BLOCK`, the Markdown block highlight
/// query.
#[verifier::external_body]
fn markdown_highlights() -> &'static str {
    tree_sitter_md::HIGHLIGHT_QUERY_BLOCK
}

/// The tree-sitter grammar of a language with the source of its highlight
/// query.
pub struct GrammarSource {
    language: LanguageId,
    grammar: tree_sitter::Language,
    source: &'static str,
}

impl GrammarSource {
    pub closed spec fn spec_language(self) -> LanguageId {
        self.language
    }
}

/// The grammar and highlight query source of `language`; none for plain
/// text.
fn grammar_source(language: LanguageId) -> (r: Option<GrammarSource>)
    ensures
        r is Some <==> language != LanguageId::Plain,
        r matches Some(g) ==> g.spec_language() == language,
{
    let (grammar, source) = match language {
        LanguageId::Rust => (rust_grammar(), rust_highlights()),
        LanguageId::Lua => (lua_grammar(), lua_highlights()),
        LanguageId::Markdown => (markdown_grammar(), markdown_highlights()),
        LanguageId::Plain => return None,
    };
    Some(GrammarSource { language, grammar, source })
}

/// Whether the highlight query of `language` compiles over its grammar.
pub uninterp spec fn ts_query_compiles(language: LanguageId) -> bool;

/// `tree_sitter::Query::new` on the grammar and query source: `None` where
/// the query does not compile. Whether it compiles depends on the grammar
/// and the source alone, which `grammar_source` fixed for one language.
/// Nothing is stated of the query itself.
#[verifier::external_body]
fn query_new(source: &GrammarSource) -> (r: Option<tree_sitter::Query>)
    ensures
        r is Some <==> ts_query_compiles(source.spec_language()),
{
    tree_sitter::Query::new(&source.grammar, source.source).ok()
}

/// The grammar and highlight query of `language`: none for plain text, and
/// none where the query does not compile.
pub fn grammar_for(language: LanguageId) -> (r: Option<Grammar>)
    ensures
        r is Some <==> (language != LanguageId::Plain && ts_query_compiles(language)),
        r matches Some(g) ==> g.spec_language() == language,
{
    let source = match grammar_source(language) {
        Some(source) => source,
        None => return None,
    };
    match query_new(&source) {
        Some(query) => Some(Grammar { language, grammar: source.grammar, query }),
        None => None,
    }
}

/// Whether tree-sitter's parser takes the grammar of `language`
/// (`Parser::set_language` accepts it).
pub uninterp spec fn ts_grammar_accepted(language: LanguageId) -> bool;

/// Whether a text in `language` gets highlighted: the language has a
/// grammar, its highlight query compiles, and the parser takes the grammar.
pub open spec fn highlightable(language: LanguageId) -> bool {
    language != LanguageId::Plain && ts_query_compiles(language) && ts_grammar_accepted(language)
}

/// `tree_sitter::Query::capture_names` of the grammar's highlight query,
/// copied: the names of its captures by index, a function of the language
/// that `grammar_for` made the grammar for.
#[verifier::external_body]
fn capture_names(grammar: &Grammar) -> (r: Vec<String>)
    ensures
        r@.map_values(|n: String| n@) == ts_capture_names(grammar.spec_language()),
{
    grammar.query.capture_names().iter().map(|n| n.to_string()).collect()
}

/// `tree_sitter::QueryCursor::matches` of the grammar's highlight query
/// over the tree that `tree_sitter::Parser::parse` gives for `text` with a
/// new parser set to the grammar: for each capture of each match, in the
/// order the cursor yields them, its node's start and end and the index of
/// its name. `None` exactly where the parser takes no grammar
/// (`set_language` fails, which depends on the grammar alone); once a
/// grammar is set, `parse` with no old tree and no options gives a tree. As
/// `grammar_for` made the grammar and query for one language, the result is
/// `ts_matches` of that language and the text.
#[verifier::external_body]
fn parse_matches(grammar: &Grammar, text: &str) -> (r: Option<Vec<(usize, usize, usize, usize, u32)>>)
    ensures
        r is Some <==> ts_grammar_accepted(grammar.spec_language()),
        r matches Some(v) ==> v@ == ts_matches(grammar.spec_language(), text@),
{
    let mut parser = tree_sitter::Parser::new();
    parser.set_language(&grammar.grammar).ok()?;
    let tree = parser.parse(text, None)?;
    let mut cursor = tree_sitter::QueryCursor::new();
    let mut matches = cursor.matches(&grammar.query, tree.root_node(), text.as_bytes());
    let mut out = Vec::new();
    while let Some(m) = matches.next() {
        for c in m.captures() {
            let (s, e) = (c.node.start_position(), c.node.end_position());
            out.push((s.row, s.column, e.row, e.column, c.index));
        }
    }
    Some(out)
}

/// The captures that `matches` give with the capture names `names`, in
/// order; a match whose name index is out of range gives none.
pub fn name_captures(matches: Vec<(usize, usize, usize, usize, u32)>, names: &Vec<String>) -> (r: Vec<
    SyntaxCapture,
>)
    ensures
        captures_view(r@) == named_captures(matches@, names@.map_values(|n: String| n@)),
{
    let ghost ns = names@.map_values(|n: String| n@);
    let mut out: Vec<SyntaxCapture> = Vec::new();
    let mut i: usize = 0;
    while i < matches.len()
        invariant
            i <= matches@.len(),
            ns == names@.map_values(|n: String| n@),
            captures_view(out@) == named_captures(matches@.subrange(0, i as int), ns),
        decreases matches@.len() - i,
    {
        let ghost pre = matches@.subrange(0, i as int);
        assert(matches@.subrange(0, i + 1).drop_last() =~= pre);
        let (sr, sc, er, ec, index) = matches[i];
        if (index as usize) < names.len() {
            let name = names[index as usize].clone();
            let capture = SyntaxCapture {
                start: CapturePoint { row: sr, column: sc },
                end: CapturePoint { row: er, column: ec },
                name,
            };
            let ghost before = out@;
            out.push(capture);
            assert(captures_view(out@) =~= captures_view(before).push(capture_view(capture)));
        }
        i += 1;
    }
    assert(matches@.subrange(0, i as int) =~= matches@);
    out
}

/// The syntax of a document: its language, whether tree-sitter parsed its
/// text, and the highlight captures by the row they start on.
pub struct Syntax {
    pub language: LanguageId,
    pub document: DocumentId,
    pub parsed: bool,
    pub captures: BTreeMap<usize, Vec<SyntaxCapture>>,
}

/// What highlighting `text` in `language` gives: no parse and no captures,
/// or a parse and the captures grouped by row.
pub open spec fn highlighted(
    parsed: bool,
    captures: Map<usize, Vec<SyntaxCapture>>,
    language: LanguageId,
    text: Seq<char>,
) -> bool {
    if parsed {
        groups(captures, highlight_of(language, text))
    } else {
        captures == Map::<usize, Vec<SyntaxCapture>>::empty()
    }
}

/// The syntax of each document, by the document's number.
pub struct Highlighter {
    trees: BTreeMap<usize, Syntax>,
}

/// Parses and highlights `text` in `language`: whether it was parsed, and
/// the captures by row.
fn highlight(language: LanguageId, text: &str) -> (r: (bool, BTreeMap<usize, Vec<SyntaxCapture>>))
    ensures
        r.0 == highlightable(language),
        highlighted(r.0, r.1@, language, text@),
{
    let grammar = match grammar_for(language) {
        Some(g) => g,
        None => return (false, BTreeMap::new()),
    };
    let matches = match parse_matches(&grammar, text) {
        Some(m) => m,
        None => return (false, BTreeMap::new()),
    };
    let names = capture_names(&grammar);
    let captures = name_captures(matches, &names);
    let ghost cs = captures@;
    let grouped = group_captures(captures);
    proof {
        assert forall|row: usize| #[trigger] grouped@.contains_key(row) <==> view_captures_on(
            captures_view(cs),
            row,
        ).len() > 0 by {
            lemma_captures_on_view(cs, row);
        }
        assert forall|row: usize| #[trigger] grouped@.contains_key(row) implies captures_view(
            grouped@[row]@,
        ) == view_captures_on(captures_view(cs), row) by {
            lemma_captures_on_view(cs, row);
        }
    }
    (true, grouped)
}

impl Highlighter {
    /// The syntax of each registered document, by its number.
    pub closed spec fn spec_trees(&self) -> Map<usize, Syntax> {
        self.trees@
    }

    /// A highlighter with no document.
    pub fn new() -> (h: Highlighter)
        ensures
            h.spec_trees() == Map::<usize, Syntax>::empty(),
    {
        Highlighter { trees: BTreeMap::new() }
    }

    /// The syntax of the document `document_id`, if it is registered.
    pub fn document_syntax(&self, document_id: DocumentId) -> (r: Option<&Syntax>)
        ensures
            r == (if self.spec_trees().contains_key(document_id.id()) {
                Some(&self.spec_trees()[document_id.id()])
            } else {
                None
            }),
    {
        self.trees.get(&usize::from(document_id))
    }

    /// Registers `document`: parses its text with the grammar of its
    /// language and keeps the highlight captures by row, replacing what was
    /// kept for it. Plain text gets no parse and no captures.
    pub fn add_document(&mut self, document: &Document)
        ensures
            final(self).spec_trees().dom() == old(self).spec_trees().dom().insert(document.spec_id().id()),
            forall|k: usize|
                k != document.spec_id().id() && #[trigger] old(self).spec_trees().contains_key(k)
                    ==> final(self).spec_trees()[k] == old(self).spec_trees()[k],
            ({
                let s = final(self).spec_trees()[document.spec_id().id()];
                &&& s.language == document.spec_language()
                &&& s.document == document.spec_id()
                &&& s.parsed == highlightable(document.spec_language())
                &&& highlighted(s.parsed, s.captures@, document.spec_language(), document.view())
            }),
    {
        let language = document.language();
        let text = rope_to_string(document.text());
        let (parsed, captures) = highlight(language, text.as_str());
        let id = document.id();
        let syntax = Syntax { language, document: id, parsed, captures };
        let _ = self.trees.insert(usize::from(id), syntax);
    }

    /// Parses the text of a registered document again and keeps the new
    /// captures. A document that had no parse, or whose language tree-sitter
    /// cannot highlight, keeps what it had.
    pub fn update_document(&mut self, document: &Document)
        requires
            old(self).spec_trees().contains_key(document.spec_id().id()),
        ensures
            final(self).spec_trees().dom() == old(self).spec_trees().dom(),
            forall|k: usize|
                k != document.spec_id().id() && #[trigger] old(self).spec_trees().contains_key(k)
                    ==> final(self).spec_trees()[k] == old(self).spec_trees()[k],
            ({
                let s0 = old(self).spec_trees()[document.spec_id().id()];
                let s = final(self).spec_trees()[document.spec_id().id()];
                let language = document.spec_language();
                &&& !(s0.parsed && highlightable(language)) ==> s == s0
                &&& s0.parsed && highlightable(language) ==> {
                    &&& s.language == s0.language
                    &&& s.document == s0.document
                    &&& s.parsed
                    &&& highlighted(true, s.captures@, language, document.view())
                }
            }),
    {
        let key = usize::from(document.id());
        let had_tree = match self.trees.get(&key) {
            Some(syntax) => syntax.parsed,
            None => false,
        };
        if !had_tree {
            return;
        }
        let text = rope_to_string(document.text());
        let (parsed, captures) = highlight(document.language(), text.as_str());
        if !parsed {
            return;
        }
        let mut syntax = match self.trees.remove(&key) {
            Some(syntax) => syntax,
            None => return,
        };
        syntax.captures = captures;
        let _ = self.trees.insert(key, syntax);
    }
}

} // verus!
