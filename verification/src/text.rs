//! The text model: a [`ropey::Rope`] seen as a sequence of chars, with the
//! line structure that ropey gives it, and the character classes that the
//! editing commands use.
use vstd::prelude::*;

verus! {

/// `ropey::Rope`, declared so that documents can hold one; what it holds is
/// seen only through `rope_chars` and the wrappers below.
#[verifier::external_type_specification]
#[verifier::external_body]
pub struct ExRope(ropey::Rope);

/// The chars that a rope holds.
pub uninterp spec fn rope_chars(rope: ropey::Rope) -> Seq<char>;

/// The chars that ropey's default build treats as line breaks (a CR that is
/// followed by an LF forms one break with it).
pub open spec fn is_break_char(c: char) -> bool {
    c == '\n' || c == '\u{0B}' || c == '\u{0C}' || c == '\r' || c == '\u{85}' || c == '\u{2028}'
        || c == '\u{2029}'
}

/// A line break ends just before position `p`.
pub open spec fn ends_break(s: Seq<char>, p: int) -> bool {
    &&& 0 < p <= s.len()
    &&& is_break_char(s[p - 1])
    &&& !(s[p - 1] == '\r' && p < s.len() && s[p] == '\n')
}

/// The number of line breaks that end at or before position `p`: the index
/// of the line that holds the char at `p`.
pub open spec fn breaks_upto(s: Seq<char>, p: int) -> nat
    decreases p,
{
    if p <= 0 {
        0
    } else {
        breaks_upto(s, p - 1) + if ends_break(s, p) {
            1nat
        } else {
            0nat
        }
    }
}

/// The number of lines: one more than the number of line breaks.
pub open spec fn num_lines(s: Seq<char>) -> nat {
    breaks_upto(s, s.len() as int) + 1
}

/// The first position at or after `p` that at least `l` breaks end at or
/// before, or the end of the text.
pub open spec fn first_at_least(s: Seq<char>, l: nat, p: int) -> int
    decreases s.len() - p,
{
    if p >= s.len() || breaks_upto(s, p) >= l {
        p
    } else {
        first_at_least(s, l, p + 1)
    }
}

/// The char index at which line `l` starts (for `l == num_lines(s)`, the end
/// of the text).
pub open spec fn line_start(s: Seq<char>, l: int) -> int {
    first_at_least(s, l as nat, 0)
}

/// The number of chars of line `l`, its line break included.
pub open spec fn line_len(s: Seq<char>, l: int) -> int {
    line_start(s, l + 1) - line_start(s, l)
}

/// The chars of line `l`, its line break included.
pub open spec fn line_chars(s: Seq<char>, l: int) -> Seq<char> {
    s.subrange(line_start(s, l), line_start(s, l + 1))
}

/// `char::is_whitespace`: the Unicode `White_Space` property.
pub open spec fn is_whitespace(c: char) -> bool {
    ('\u{09}' <= c && c <= '\u{0D}') || c == ' ' || c == '\u{85}' || c == '\u{A0}' || c
        == '\u{1680}' || ('\u{2000}' <= c && c <= '\u{200A}') || c == '\u{2028}' || c == '\u{2029}'
        || c == '\u{202F}' || c == '\u{205F}' || c == '\u{3000}'
}

/// `char::is_ascii_punctuation`.
pub open spec fn is_ascii_punctuation(c: char) -> bool {
    ('!' <= c && c <= '/') || (':' <= c && c <= '@') || ('[' <= c && c <= '`') || ('{' <= c && c
        <= '~')
}

/// `char::is_alphanumeric`: the Unicode `Alphabetic` property or a numeric
/// general category.
pub uninterp spec fn is_alphanumeric(c: char) -> bool;

/// LF and CR end lines for the editing commands.
pub open spec fn is_linebreak(c: char) -> bool {
    c == '\n' || c == '\r'
}

/// The number of bytes that UTF-8 takes for `c`.
pub open spec fn utf8_width(c: char) -> nat {
    if (c as u32) < 0x80 {
        1
    } else if (c as u32) < 0x800 {
        2
    } else if (c as u32) < 0x10000 {
        3
    } else {
        4
    }
}

/// The number of bytes that UTF-8 takes for `s`.
pub open spec fn utf8_len(s: Seq<char>) -> nat
    decreases s.len(),
{
    if s.len() == 0 {
        0
    } else {
        utf8_len(s.drop_last()) + utf8_width(s.last())
    }
}

/// `LF` and `CR` end lines for the editing commands.
pub fn is_linebreak_char(c: char) -> (r: bool)
    ensures
        r == is_linebreak(c),
{
    c == '\n' || c == '\r'
}

/// Whether `c` is whitespace, as `char::is_whitespace` defines it: the
/// Unicode `White_Space` property, whose code points `is_whitespace` lists.
pub(crate) fn char_is_whitespace(c: char) -> (r: bool)
    ensures
        r == is_whitespace(c),
{
    ('\u{09}' <= c && c <= '\u{0D}') || c == ' ' || c == '\u{85}' || c == '\u{A0}' || c
        == '\u{1680}' || ('\u{2000}' <= c && c <= '\u{200A}') || c == '\u{2028}' || c == '\u{2029}'
        || c == '\u{202F}' || c == '\u{205F}' || c == '\u{3000}'
}

/// Calls `char::is_alphanumeric`; the Unicode tables behind it are left
/// unstated and named `is_alphanumeric`.
#[verifier::external_body]
pub(crate) fn char_is_alphanumeric(c: char) -> (r: bool)
    ensures
        r == is_alphanumeric(c),
{
    c.is_alphanumeric()
}

/// Whether `c` is ASCII punctuation, as `char::is_ascii_punctuation`
/// defines it.
pub(crate) fn char_is_ascii_punctuation(c: char) -> (r: bool)
    ensures
        r == is_ascii_punctuation(c),
{
    ('!' <= c && c <= '/') || (':' <= c && c <= '@') || ('[' <= c && c <= '`') || ('{' <= c && c
        <= '~')
}

/// The number of bytes that UTF-8 takes for `c`, as `char::len_utf8`
/// gives it.
pub(crate) fn char_len_utf8(c: char) -> (r: usize)
    ensures
        r == utf8_width(c),
{
    let v = c as u32;
    if v < 0x80 {
        1
    } else if v < 0x800 {
        2
    } else if v < 0x10000 {
        3
    } else {
        4
    }
}

/// Calls `String::push`: appends `c`.
#[verifier::external_body]
pub(crate) fn string_push(s: &mut String, c: char)
    ensures
        final(s)@ == old(s)@.push(c),
{
    s.push(c)
}

/// Calls `String::push_str`: appends `t`.
#[verifier::external_body]
pub(crate) fn string_push_str(s: &mut String, t: &str)
    ensures
        final(s)@ == old(s)@ + t@,
{
    s.push_str(t)
}

/// Calls `Rope::new`: an empty rope.
#[verifier::external_body]
pub(crate) fn rope_new() -> (r: ropey::Rope)
    ensures
        rope_chars(r) == Seq::<char>::empty(),
{
    ropey::Rope::new()
}

/// Calls `Rope::from_str`: a rope that holds the chars of `text`.
#[verifier::external_body]
pub(crate) fn rope_from_str(text: &str) -> (r: ropey::Rope)
    ensures
        rope_chars(r) == text@,
{
    ropey::Rope::from_str(text)
}

/// Calls `Rope::len_chars`.
#[verifier::external_body]
pub(crate) fn rope_len_chars(rope: &ropey::Rope) -> (r: usize)
    ensures
        r == rope_chars(*rope).len(),
{
    rope.len_chars()
}

/// Calls `Rope::len_lines`: one more than the number of line breaks, where
/// the breaks are those of ropey's default features (LF, VT, FF, CR, CRLF,
/// NEL, U+2028, U+2029).
#[verifier::external_body]
pub(crate) fn rope_len_lines(rope: &ropey::Rope) -> (r: usize)
    ensures
        r == num_lines(rope_chars(*rope)),
{
    rope.len_lines()
}

/// Calls `Rope::char`, which panics past the end.
#[verifier::external_body]
pub(crate) fn rope_char(rope: &ropey::Rope, char_idx: usize) -> (r: char)
    requires
        char_idx < rope_chars(*rope).len(),
    ensures
        r == rope_chars(*rope)[char_idx as int],
{
    rope.char(char_idx)
}

/// Calls `Rope::get_char`: the char at `char_idx`, or `None` past the end.
#[verifier::external_body]
pub(crate) fn rope_get_char(rope: &ropey::Rope, char_idx: usize) -> (r: Option<char>)
    ensures
        r == (if char_idx < rope_chars(*rope).len() {
            Some(rope_chars(*rope)[char_idx as int])
        } else {
            None::<char>
        }),
{
    rope.get_char(char_idx)
}

/// Calls `Rope::line_to_char`: the char index where line `line_idx` starts,
/// the length of the text for the one-past-the-end line; panics beyond.
#[verifier::external_body]
pub(crate) fn rope_line_to_char(rope: &ropey::Rope, line_idx: usize) -> (r: usize)
    requires
        line_idx <= num_lines(rope_chars(*rope)),
    ensures
        r == line_start(rope_chars(*rope), line_idx as int),
{
    rope.line_to_char(line_idx)
}

/// Calls `Rope::char_to_line`: the number of line breaks before `char_idx`;
/// panics past the end.
#[verifier::external_body]
pub(crate) fn rope_char_to_line(rope: &ropey::Rope, char_idx: usize) -> (r: usize)
    requires
        char_idx <= rope_chars(*rope).len(),
    ensures
        r == breaks_upto(rope_chars(*rope), char_idx as int),
{
    rope.char_to_line(char_idx)
}

/// Calls `Rope::char_to_byte`: the UTF-8 length of the first `char_idx`
/// chars; panics past the end.
#[verifier::external_body]
pub(crate) fn rope_char_to_byte(rope: &ropey::Rope, char_idx: usize) -> (r: usize)
    requires
        char_idx <= rope_chars(*rope).len(),
    ensures
        r == utf8_len(rope_chars(*rope).subrange(0, char_idx as int)),
{
    rope.char_to_byte(char_idx)
}

/// Calls `Rope::remove` on `start..end`, which panics unless
/// `start <= end <= len`.
#[verifier::external_body]
pub(crate) fn rope_remove(rope: &mut ropey::Rope, start: usize, end: usize)
    requires
        start <= end <= rope_chars(*old(rope)).len(),
    ensures
        rope_chars(*final(rope)) == rope_chars(*old(rope)).subrange(0, start as int) + rope_chars(
            *old(rope),
        ).subrange(end as int, rope_chars(*old(rope)).len() as int),
{
    rope.remove(start..end)
}

/// Calls `Rope::insert_char`, which panics past the end.
#[verifier::external_body]
pub(crate) fn rope_insert_char(rope: &mut ropey::Rope, char_idx: usize, ch: char)
    requires
        char_idx <= rope_chars(*old(rope)).len(),
    ensures
        rope_chars(*final(rope)) == rope_chars(*old(rope)).insert(char_idx as int, ch),
{
    rope.insert_char(char_idx, ch)
}

/// Calls `Rope::insert`, which panics past the end.
#[verifier::external_body]
pub(crate) fn rope_insert(rope: &mut ropey::Rope, char_idx: usize, text: &str)
    requires
        char_idx <= rope_chars(*old(rope)).len(),
    ensures
        rope_chars(*final(rope)) == rope_chars(*old(rope)).subrange(0, char_idx as int) + text@
            + rope_chars(*old(rope)).subrange(char_idx as int, rope_chars(*old(rope)).len() as int),
{
    rope.insert(char_idx, text)
}

/// Calls `Rope::to_string` (through `Display`): the chars of the rope.
#[verifier::external_body]
pub(crate) fn rope_to_string(rope: &ropey::Rope) -> (r: String)
    ensures
        r@ == rope_chars(*rope),
{
    rope.to_string()
}

// ---------------------------------------------------------------------------
// Facts about the line structure.
/// Each position adds at most one line break.
pub proof fn lemma_breaks_step(s: Seq<char>, p: int)
    requires
        0 <= p,
    ensures
        breaks_upto(s, p) <= breaks_upto(s, p + 1) <= breaks_upto(s, p) + 1,
{
}

/// No more breaks than positions.
pub proof fn lemma_breaks_bound(s: Seq<char>, p: int)
    ensures
        breaks_upto(s, p) <= (if p >= 0 { p } else { 0 }),
    decreases p,
{
    if p > 0 {
        lemma_breaks_bound(s, p - 1);
    }
}

/// The number of breaks grows with the position.
pub proof fn lemma_breaks_mono(s: Seq<char>, p: int, q: int)
    requires
        p <= q,
    ensures
        breaks_upto(s, p) <= breaks_upto(s, q),
    decreases q - p,
{
    if p < q {
        lemma_breaks_mono(s, p, q - 1);
        if q > 0 {
            assert(breaks_upto(s, q) >= breaks_upto(s, q - 1));
        }
    }
}

/// `first_at_least` lands at or after where it starts, within the text, at a
/// position that reaches the count unless it is the end, and passes no such
/// position.
pub proof fn lemma_first_at_least(s: Seq<char>, l: nat, p: int)
    requires
        0 <= p <= s.len(),
    ensures
        p <= first_at_least(s, l, p) <= s.len(),
        first_at_least(s, l, p) == s.len() || breaks_upto(s, first_at_least(s, l, p)) >= l,
        forall|t: int| p <= t < first_at_least(s, l, p) ==> breaks_upto(s, t) < l,
    decreases s.len() - p,
{
    if !(p >= s.len() || breaks_upto(s, p) >= l) {
        lemma_first_at_least(s, l, p + 1);
    }
}

/// `first_at_least` stops no later than any position that reaches the count.
pub proof fn lemma_first_at_least_before(s: Seq<char>, l: nat, p: int, q: int)
    requires
        0 <= p <= q <= s.len(),
        breaks_upto(s, q) >= l,
    ensures
        first_at_least(s, l, p) <= q,
    decreases s.len() - p,
{
    if !(p >= s.len() || breaks_upto(s, p) >= l) {
        lemma_first_at_least_before(s, l, p + 1, q);
    }
}

/// Line starts lie within the text, and line `l` starts after `l` breaks.
pub proof fn lemma_line_start(s: Seq<char>, l: int)
    requires
        0 <= l < num_lines(s),
    ensures
        0 <= line_start(s, l) <= line_start(s, l + 1) <= s.len(),
        breaks_upto(s, line_start(s, l)) == l,
        line_start(s, 0) == 0,
        line_start(s, num_lines(s) as int) == s.len(),
        forall|t: int|
            line_start(s, l) <= t < line_start(s, l + 1) ==> breaks_upto(s, t) == l,
{
    let len = s.len() as int;
    lemma_first_at_least(s, l as nat, 0);
    lemma_first_at_least(s, (l + 1) as nat, 0);
    lemma_first_at_least(s, 0, 0);
    lemma_first_at_least(s, num_lines(s), 0);
    let r = line_start(s, l);
    let r1 = line_start(s, l + 1);
    lemma_first_at_least_before(s, l as nat, 0, r1);
    if r > 0 {
        lemma_breaks_step(s, r - 1);
    }
    if r1 < len {
        lemma_breaks_mono(s, r, r1);
    }
    if line_start(s, num_lines(s) as int) < len {
        lemma_breaks_mono(s, line_start(s, num_lines(s) as int), len);
    }
    assert forall|t: int| line_start(s, l) <= t < line_start(s, l + 1) implies breaks_upto(s, t)
        == l by {
        lemma_breaks_mono(s, r, t);
    }
}

/// A position lies on the line that `breaks_upto` names, at or after that
/// line's start.
pub proof fn lemma_char_line(s: Seq<char>, q: int)
    requires
        0 <= q <= s.len(),
    ensures
        breaks_upto(s, q) < num_lines(s),
        line_start(s, breaks_upto(s, q) as int) <= q,
        q < s.len() ==> q < line_start(s, breaks_upto(s, q) as int + 1),
{
    lemma_breaks_mono(s, q, s.len() as int);
    lemma_first_at_least_before(s, breaks_upto(s, q), 0, q);
    if q < s.len() {
        lemma_first_at_least(s, breaks_upto(s, q) + 1, 0);
        let r = first_at_least(s, breaks_upto(s, q) + 1, 0);
        if r <= q {
            lemma_breaks_mono(s, r, q);
        }
    }
}

/// Inserting a char leaves the breaks before it as they were, and takes
/// none away from the later positions (a line feed put after a carriage
/// return moves that break one position on).
pub proof fn lemma_insert_keeps_breaks(s: Seq<char>, i: int, ch: char, p: int)
    requires
        0 <= i <= s.len(),
        0 <= p <= s.len(),
    ensures
        p < i ==> breaks_upto(s.insert(i, ch), p) == breaks_upto(s, p),
        p >= i ==> breaks_upto(s.insert(i, ch), p + 1) >= breaks_upto(s, p),
    decreases p,
{
    let s2 = s.insert(i, ch);
    if p > 0 {
        lemma_insert_keeps_breaks(s, i, ch, p - 1);
    }
    if p < i {
        if p > 0 {
            assert(s2[p - 1] == s[p - 1]);
            assert(s2[p] == s[p]);
        }
    } else if p == i {
        if i > 0 {
            lemma_insert_keeps_breaks(s, i, ch, i - 1);
            assert(s2[i - 1] == s[i - 1]);
            assert(s2[i] == ch);
            assert(breaks_upto(s2, i - 1) == breaks_upto(s, i - 1));
            assert(breaks_upto(s2, i) == breaks_upto(s2, i - 1) + if ends_break(s2, i) {
                1nat
            } else {
                0nat
            });
            assert(breaks_upto(s2, i + 1) == breaks_upto(s2, i) + if ends_break(
                s2,
                i + 1,
            ) {
                1nat
            } else {
                0nat
            });
            if ends_break(s, i) && !ends_break(s2, i) {
                assert(ch == '\n');
                assert(ends_break(s2, i + 1));
            }
        }
    } else {
        assert(s2[p] == s[p - 1]);
        if p < s.len() {
            assert(s2[p + 1] == s[p]);
        }
        assert(ends_break(s2, p + 1) == ends_break(s, p));
    }
}

} // verus!
