//! The open buffers: their text, where they came from, and the ids that name
//! them.
use std::collections::BTreeMap;

use vstd::prelude::*;
use vstd::string::{StrSliceExecFns, StringSliceAdditionalSpecFns};

use crate::geometry::Size;
use crate::text::{
    breaks_upto, ends_break, lemma_breaks_bound, first_at_least, is_break_char, lemma_line_start, line_len, line_start,
    num_lines, string_push, string_push_str,
};

verus! {

broadcast use vstd::laws_cmp::group_laws_cmp;

#[derive(Debug, PartialEq, Eq, Structural, PartialOrd, Ord, Clone, Copy)]
pub enum BufferKind {
    Scratch,
    Regular,
}

#[derive(Debug, PartialEq, Eq, Structural, PartialOrd, Ord, Clone, Copy)]
pub enum FileStatus {
    New,
    Existing,
}

/// The id of a buffer.
#[derive(Debug, Hash, Copy, Clone, PartialEq, Eq, Structural, PartialOrd, Ord)]
pub struct BufferId(pub u64);

impl BufferId {
    pub fn new(id: u64) -> (r: Self)
        ensures
            r == BufferId(id),
    {
        Self(id)
    }

    /// The id after this one.
    pub fn next(&self) -> (r: Self)
        requires
            self.0 < u64::MAX,
        ensures
            r == BufferId((self.0 + 1) as u64),
    {
        Self(self.0 + 1)
    }
}

impl From<u64> for BufferId {
    fn from(id: u64) -> (r: Self) {
        Self::new(id)
    }
}

impl vstd::std_specs::convert::FromSpecImpl<u64> for BufferId {
    open spec fn obeys_from_spec() -> bool {
        true
    }

    open spec fn from_spec(id: u64) -> BufferId {
        BufferId(id)
    }
}

impl From<u32> for BufferId {
    fn from(id: u32) -> (r: Self) {
        Self::new(id as u64)
    }
}

impl vstd::std_specs::convert::FromSpecImpl<u32> for BufferId {
    open spec fn obeys_from_spec() -> bool {
        true
    }

    open spec fn from_spec(id: u32) -> BufferId {
        BufferId(id as u64)
    }
}

impl From<u16> for BufferId {
    fn from(id: u16) -> (r: Self) {
        Self::new(id as u64)
    }
}

impl vstd::std_specs::convert::FromSpecImpl<u16> for BufferId {
    open spec fn obeys_from_spec() -> bool {
        true
    }

    open spec fn from_spec(id: u16) -> BufferId {
        BufferId(id as u64)
    }
}

impl From<u8> for BufferId {
    fn from(id: u8) -> (r: Self) {
        Self::new(id as u64)
    }
}

impl vstd::std_specs::convert::FromSpecImpl<u8> for BufferId {
    open spec fn obeys_from_spec() -> bool {
        true
    }

    open spec fn from_spec(id: u8) -> BufferId {
        BufferId(id as u64)
    }
}

/// An open buffer.
#[derive(Debug, PartialEq, Eq, PartialOrd, Ord)]
pub struct Buffer {
    pub id: BufferId,
    is_dirty: bool,
    content: String,
    file_status: FileStatus,
    buffer_kind: BufferKind,
    path: Option<String>,
    absolute_path: Option<String>,
}

/// A break ends just before char `p` of `text`.
fn ends_break_at(text: &str, len: usize, p: usize) -> (r: bool)
    requires
        len == text@.len(),
        0 < p <= len,
    ensures
        r == ends_break(text@, p as int),
{
    let c = text.get_char(p - 1);
    if c == '\r' && p < len && text.get_char(p) == '\n' {
        return false;
    }
    c == '\n' || c == '\u{0B}' || c == '\u{0C}' || c == '\r' || c == '\u{85}' || c == '\u{2028}'
        || c == '\u{2029}'
}

/// The char index where line `l` of `text` starts, with the line breaks of
/// the editor's text model.
pub fn text_line_start(text: &str, l: usize) -> (r: usize)
    ensures
        r == line_start(text@, l as int),
{
    let ghost s = text@;
    let len = text.unicode_len();
    let mut p: usize = 0;
    let mut count: usize = 0;
    while p < len && count < l
        invariant
            s == text@,
            len == s.len(),
            p <= len,
            count == breaks_upto(s, p as int),
            count <= p,
            first_at_least(s, l as nat, 0) == first_at_least(s, l as nat, p as int),
        decreases len - p,
    {
        p = p + 1;
        if ends_break_at(text, len, p) {
            count = count + 1;
        }
    }
    p
}

/// The number of lines of `text`, with the line breaks of the editor's text
/// model.
pub fn text_num_lines(text: &str) -> (r: usize)
    requires
        text@.len() < usize::MAX,
    ensures
        r == num_lines(text@),
{
    let ghost s = text@;
    let len = text.unicode_len();
    let mut p: usize = 0;
    let mut count: usize = 0;
    while p < len
        invariant
            s == text@,
            len == s.len(),
            len < usize::MAX,
            p <= len,
            count == breaks_upto(s, p as int),
            count <= p,
        decreases len - p,
    {
        p = p + 1;
        if ends_break_at(text, len, p) {
            count = count + 1;
        }
    }
    count + 1
}

impl Buffer {
    /// The text of the buffer.
    pub closed spec fn view(self) -> Seq<char> {
        self.content@
    }

    pub closed spec fn spec_id(self) -> BufferId {
        self.id
    }

    pub closed spec fn spec_path(self) -> Option<String> {
        self.path
    }

    pub closed spec fn spec_absolute_path(self) -> Option<String> {
        self.absolute_path
    }

    pub closed spec fn spec_file_status(self) -> FileStatus {
        self.file_status
    }

    pub closed spec fn spec_kind(self) -> BufferKind {
        self.buffer_kind
    }

    pub closed spec fn spec_is_dirty(self) -> bool {
        self.is_dirty
    }

    /// A clean buffer.
    pub fn new(
        id: BufferId,
        content: String,
        path: Option<String>,
        absolute_path: Option<String>,
        file_status: FileStatus,
        buffer_kind: BufferKind,
    ) -> (b: Self)
        ensures
            b.spec_id() == id,
            b.view() == content@,
            b.spec_path() == path,
            b.spec_absolute_path() == absolute_path,
            b.spec_file_status() == file_status,
            b.spec_kind() == buffer_kind,
            !b.spec_is_dirty(),
    {
        Self { id, path, content, file_status, buffer_kind, absolute_path, is_dirty: false }
    }

    pub fn content(&self) -> (r: &str)
        ensures
            r@ == self.view(),
    {
        self.content.as_str()
    }

    /// The number of lines of the text.
    pub fn len_lines(&self) -> (r: usize)
        requires
            self.view().len() < usize::MAX,
        ensures
            r == num_lines(self.view()),
    {
        text_num_lines(self.content.as_str())
    }

    /// The number of chars of line `y`, its line break included.
    pub fn line_len(&self, y: usize) -> (r: usize)
        requires
            self.view().len() < usize::MAX,
            y < num_lines(self.view()),
        ensures
            r == line_len(self.view(), y as int),
    {
        proof {
            lemma_line_start(self.view(), y as int);
            lemma_breaks_bound(self.view(), self.view().len() as int);
        }
        let text = self.content.as_str();
        let start = text_line_start(text, y);
        let end = text_line_start(text, y + 1);
        end - start
    }
}

/// The open buffers and the id the next one gets.
#[derive(Debug)]
pub struct BufferManager {
    next_buffer_id: BufferId,
    buffers: BTreeMap<u64, Buffer>,
}

/// `str::lines().count()`: the number of LFs, plus one for an unterminated
/// last line.
pub open spec fn count_lines(s: Seq<char>) -> nat {
    if s.len() == 0 {
        0
    } else if s.last() == '\n' {
        lf_count(s)
    } else {
        lf_count(s) + 1
    }
}

/// The number of LFs in `s`.
pub open spec fn lf_count(s: Seq<char>) -> nat
    decreases s.len(),
{
    if s.len() == 0 {
        0
    } else {
        lf_count(s.drop_last()) + if s.last() == '\n' {
            1nat
        } else {
            0nat
        }
    }
}

/// `n` copies of `c`.
pub open spec fn repeat(c: char, n: nat) -> Seq<char> {
    Seq::new(n, |i: int| c)
}

/// `s` after `pad` spaces.
pub open spec fn padded_left(s: Seq<char>, pad: nat) -> Seq<char> {
    repeat(' ', pad) + s
}

/// `s` after `pad` line feeds.
pub open spec fn padded_top(s: Seq<char>, pad: nat) -> Seq<char> {
    repeat('\n', pad) + s
}

proof fn lemma_lf_count_bound(s: Seq<char>)
    ensures
        lf_count(s) <= s.len(),
    decreases s.len(),
{
    if s.len() > 0 {
        lemma_lf_count_bound(s.drop_last());
    }
}

/// Counts the lines of `s` as `str::lines` yields them.
fn lines_count(s: &str) -> (r: usize)
    ensures
        r == count_lines(s@),
{
    let ghost t = s@;
    let len = s.unicode_len();
    let mut i: usize = 0;
    let mut lfs: usize = 0;
    proof {
        assert(t.subrange(0, 0) =~= Seq::<char>::empty());
    }
    while i < len
        invariant
            t == s@,
            len == t.len(),
            i <= len,
            lfs == lf_count(t.subrange(0, i as int)),
            lfs <= i,
        decreases len - i,
    {
        let c = s.get_char(i);
        proof {
            assert(t.subrange(0, i + 1).drop_last() =~= t.subrange(0, i as int));
        }
        if c == '\n' {
            lfs = lfs + 1;
        }
        i = i + 1;
    }
    proof {
        assert(t.subrange(0, len as int) =~= t);
        if len > 0 {
            lemma_lf_count_bound(t.drop_last());
        }
    }
    if len == 0 {
        0
    } else if s.get_char(len - 1) == '\n' {
        lfs
    } else {
        lfs + 1
    }
}

/// `s` after `pad` spaces.
pub fn pad_left(s: &str, pad: usize) -> (r: String)
    ensures
        r@ == padded_left(s@, pad as nat),
{
    let mut result = String::new();
    let mut i: usize = 0;
    while i < pad
        invariant
            i <= pad,
            result@ == repeat(' ', i as nat),
        decreases pad - i,
    {
        string_push(&mut result, ' ');
        proof {
            assert(result@ =~= repeat(' ', (i + 1) as nat));
        }
        i = i + 1;
    }
    string_push_str(&mut result, s);
    result
}

/// `s` after `pad` line feeds.
pub fn pad_top(s: &str, pad: usize) -> (r: String)
    ensures
        r@ == padded_top(s@, pad as nat),
{
    let mut result = String::new();
    let mut i: usize = 0;
    while i < pad
        invariant
            i <= pad,
            result@ == repeat('\n', i as nat),
        decreases pad - i,
    {
        string_push(&mut result, '\n');
        proof {
            assert(result@ =~= repeat('\n', (i + 1) as nat));
        }
        i = i + 1;
    }
    string_push_str(&mut result, s);
    result
}

/// `s` padded so that its middle byte sits in the middle of `width`.
pub fn horizontal_center(s: &str, width: u16) -> (r: String)
    requires
        s.spec_bytes().len() / 2 <= width / 2,
    ensures
        r@ == padded_left(s@, (width / 2 - s.spec_bytes().len() / 2) as nat),
{
    let center = (width / 2) as usize;
    let left_padding = center - s.len() / 2;
    pad_left(s, left_padding)
}

/// `s` padded so that its middle line sits in the middle of `height`.
pub fn vertical_center(s: &str, height: u16) -> (r: String)
    requires
        count_lines(s@) / 2 <= height / 2,
    ensures
        r@ == padded_top(s@, (height / 2 - count_lines(s@) / 2) as nat),
{
    let center = (height / 2) as usize;
    let top_padding = center - lines_count(s) / 2;
    pad_top(s, top_padding)
}

/// `s`, whose UTF-8 form takes `bytes` bytes, padded to the middle of
/// `width`.
pub open spec fn centered(s: Seq<char>, bytes: nat, width: u16) -> Seq<char> {
    padded_left(s, (width / 2 - bytes / 2) as nat)
}

/// The lines of the welcome text, centered in `width`.
pub open spec fn startup_lines(width: u16) -> Seq<char> {
    centered("Welcome to Glyph!"@, 17, width) + seq!['\n', '\n'] + centered(
        "Lorem ipsum dolor sit amet"@,
        26,
        width,
    ) + seq!['\n'] + centered("consectetur adipiscing elit. In semper condimentum orci"@, 55, width)
        + seq!['\n'] + centered("eu vulputate. Fusce eget lectus leo. Integer"@, 44, width)
}

/// The welcome text: five lines centered in `size`.
pub open spec fn startup_message(size: Size) -> Seq<char> {
    padded_top(startup_lines(size.width), (size.height / 2 - 2) as nat)
}

proof fn lemma_lf_count_concat(a: Seq<char>, b: Seq<char>)
    ensures
        lf_count(a + b) == lf_count(a) + lf_count(b),
    decreases b.len(),
{
    if b.len() > 0 {
        assert((a + b).drop_last() =~= a + b.drop_last());
        lemma_lf_count_concat(a, b.drop_last());
    }
}

proof fn lemma_lf_count_none(s: Seq<char>)
    requires
        forall|i: int| 0 <= i < s.len() ==> s[i] != '\n',
    ensures
        lf_count(s) == 0,
    decreases s.len(),
{
    if s.len() > 0 {
        lemma_lf_count_none(s.drop_last());
    }
}

proof fn lemma_centered_no_lf(s: Seq<char>, bytes: nat, width: u16)
    requires
        forall|i: int| 0 <= i < s.len() ==> s[i] != '\n',
    ensures
        lf_count(centered(s, bytes, width)) == 0,
        centered(s, bytes, width).len() > 0 ==> centered(s, bytes, width).last() != '\n',
{
    let c = centered(s, bytes, width);
    assert forall|i: int| 0 <= i < c.len() implies c[i] != '\n' by {
        let pad = (width / 2 - bytes / 2) as nat;
        if i >= pad {
            assert(c[i] == s[i - pad]);
        }
    }
    lemma_lf_count_none(c);
}

impl BufferManager {
    /// The buffers by id.
    pub closed spec fn view(self) -> Map<u64, Buffer> {
        self.buffers@
    }

    /// The id the next loaded buffer gets.
    pub closed spec fn spec_next_id(self) -> BufferId {
        self.next_buffer_id
    }

    pub fn new() -> (m: Self)
        ensures
            m.view() == Map::<u64, Buffer>::empty(),
            m.spec_next_id() == BufferId(0),
    {
        Self { buffers: BTreeMap::new(), next_buffer_id: BufferId(0) }
    }

    /// Registers a buffer read from a file under the next id.
    pub fn add_file_buffer(
        &mut self,
        path: String,
        absolute_path: String,
        content: String,
        file_status: FileStatus,
    ) -> (id: BufferId)
        requires
            old(self).spec_next_id().0 < u64::MAX,
        ensures
            id == old(self).spec_next_id(),
            final(self).spec_next_id() == BufferId((id.0 + 1) as u64),
            final(self).view().dom() == old(self).view().dom().insert(id.0),
            forall|k: u64| k != id.0 && old(self).view().contains_key(k) ==> final(self).view()[k]
                == old(self).view()[k],
            ({
                let b = final(self).view()[id.0];
                &&& b.spec_id() == id
                &&& b.view() == content@
                &&& b.spec_path() == Some(path)
                &&& b.spec_absolute_path() == Some(absolute_path)
                &&& b.spec_file_status() == file_status
                &&& b.spec_kind() == BufferKind::Regular
                &&& !b.spec_is_dirty()
            }),
    {
        let id = self.next_buffer_id;
        self.next_buffer_id = self.next_buffer_id.next();
        let buffer = Buffer::new(
            id,
            content,
            Some(path),
            Some(absolute_path),
            file_status,
            BufferKind::Regular,
        );
        self.buffers.insert(id.0, buffer);
        id
    }

    /// Registers the welcome scratch buffer, centered in `size`, under id 0.
    pub fn load_startup_buffer(&mut self, size: Size)
        requires
            size.width >= 54,
            size.height >= 4,
        ensures
            final(self).view().dom() == old(self).view().dom().insert(0),
            forall|k: u64| k != 0 && old(self).view().contains_key(k) ==> final(self).view()[k]
                == old(self).view()[k],
            final(self).spec_next_id() == old(self).spec_next_id(),
            ({
                let b = final(self).view()[0];
                &&& b.spec_id() == BufferId(0)
                &&& b.view() == startup_message(size)
                &&& b.spec_path() is None
                &&& b.spec_absolute_path() is None
                &&& b.spec_file_status() == FileStatus::New
                &&& b.spec_kind() == BufferKind::Scratch
            }),
    {
        let title = "Welcome to Glyph!";
        let l1 = "Lorem ipsum dolor sit amet";
        let l2 = "consectetur adipiscing elit. In semper condimentum orci";
        let l3 = "eu vulputate. Fusce eget lectus leo. Integer";
        proof {
            reveal_strlit("Welcome to Glyph!");
            reveal_strlit("Lorem ipsum dolor sit amet");
            reveal_strlit("consectetur adipiscing elit. In semper condimentum orci");
            reveal_strlit("eu vulputate. Fusce eget lectus leo. Integer");
            vstd::string::is_ascii_spec_bytes(title);
            vstd::string::is_ascii_spec_bytes(l1);
            vstd::string::is_ascii_spec_bytes(l2);
            vstd::string::is_ascii_spec_bytes(l3);
            assert(title.spec_bytes().len() == 17);
            assert(l1.spec_bytes().len() == 26);
            assert(l2.spec_bytes().len() == 55);
            assert(l3.spec_bytes().len() == 44);
        }
        let mut message = horizontal_center(title, size.width);
        string_push(&mut message, '\n');
        string_push(&mut message, '\n');
        let c1 = horizontal_center(l1, size.width);
        string_push_str(&mut message, c1.as_str());
        string_push(&mut message, '\n');
        let c2 = horizontal_center(l2, size.width);
        string_push_str(&mut message, c2.as_str());
        string_push(&mut message, '\n');
        let c3 = horizontal_center(l3, size.width);
        string_push_str(&mut message, c3.as_str());
        proof {
            let t = title@;
            let a = l1@;
            let b = l2@;
            let c = l3@;
            assert(forall|i: int| 0 <= i < t.len() ==> t[i] != '\n');
            assert(forall|i: int| 0 <= i < a.len() ==> a[i] != '\n');
            assert(forall|i: int| 0 <= i < b.len() ==> b[i] != '\n');
            assert(forall|i: int| 0 <= i < c.len() ==> c[i] != '\n');
            lemma_centered_no_lf(t, 17, size.width);
            lemma_centered_no_lf(a, 26, size.width);
            lemma_centered_no_lf(b, 55, size.width);
            lemma_centered_no_lf(c, 44, size.width);
            let m = startup_lines(size.width);
            assert(message@ =~= m);
            let ct = centered(t, 17, size.width);
            let ca = centered(a, 26, size.width);
            let cb = centered(b, 55, size.width);
            let cc = centered(c, 44, size.width);
            lemma_lf_count_concat(ct, seq!['\n', '\n']);
            lemma_lf_count_concat(ct + seq!['\n', '\n'], ca);
            lemma_lf_count_concat(ct + seq!['\n', '\n'] + ca, seq!['\n']);
            lemma_lf_count_concat(ct + seq!['\n', '\n'] + ca + seq!['\n'], cb);
            lemma_lf_count_concat(ct + seq!['\n', '\n'] + ca + seq!['\n'] + cb, seq!['\n']);
            lemma_lf_count_concat(ct + seq!['\n', '\n'] + ca + seq!['\n'] + cb + seq!['\n'], cc);
            assert(seq!['\n', '\n'].drop_last() =~= seq!['\n']);
            assert(seq!['\n'].drop_last() =~= Seq::<char>::empty());
            assert(lf_count(Seq::<char>::empty()) == 0);
            assert(lf_count(seq!['\n']) == 1);
            assert(lf_count(seq!['\n', '\n']) == 2);
            assert(lf_count(m) == 4);
            assert(m.last() == cc.last());
            assert(count_lines(m) == 5);
        }
        let content = vertical_center(message.as_str(), size.height);
        let id = BufferId::new(0);
        let buffer = Buffer::new(id, content, None, None, FileStatus::New, BufferKind::Scratch);
        self.buffers.insert(0, buffer);
    }

    /// The buffers by id, to be changed.
    pub fn buffers_mut(&mut self) -> (r: &mut BTreeMap<u64, Buffer>)
        ensures
            r@ == old(self).view(),
            final(self).view() == final(r)@,
            final(self).spec_next_id() == old(self).spec_next_id(),
    {
        &mut self.buffers
    }

    /// The buffer with id `id`.
    pub fn get(&self, id: BufferId) -> (r: Option<&Buffer>)
        ensures
            r == (if self.view().contains_key(id.0) {
                Some(&self.view()[id.0])
            } else {
                None::<&Buffer>
            }),
    {
        self.buffers.get(&id.0)
    }
}

} // verus!
