//! Editing commands on a document's text and its window's cursor: word
//! motions, deletions, line edits and scrolling. Each edit also reports the
//! change as byte and row/column ranges, in the form a syntax tree is told
//! about edits.
use vstd::prelude::*;

use crate::cursor::Cursor;
use crate::document::LineEnding;
use crate::rect::Rect;
use crate::window::{Point, Window};
use crate::text::{
    breaks_upto, char_is_alphanumeric, char_is_ascii_punctuation, char_is_whitespace,
    is_alphanumeric, is_ascii_punctuation, is_linebreak, is_linebreak_char, is_whitespace,
    lemma_char_line, lemma_line_start, line_start, num_lines, rope_char, rope_char_to_byte,
    rope_char_to_line, rope_chars, rope_len_chars, rope_len_lines, rope_line_to_char,
    rope_insert, rope_remove, utf8_len, line_len, lemma_breaks_bound, char_len_utf8, string_push,
    utf8_width,
};

verus! {

/// Whether a word motion treats punctuation runs as words of their own
/// (`Small`) or only stops after whitespace (`Big`).
#[derive(Debug, PartialEq, Eq, Structural, PartialOrd, Ord, Hash, Clone, Copy)]
pub enum WordSkip {
    Small,
    Big,
}

/// The span a motion covers: from where the cursor was to where it lands.
#[derive(Debug, Default, PartialEq, Eq, Structural, PartialOrd, Ord)]
pub struct TextQuery {
    start_line: usize,
    start_col: usize,
    end_line: usize,
    end_col: usize,
}

impl TextQuery {
    pub fn new(start_line: usize, start_col: usize, end_line: usize, end_col: usize) -> (q:
        TextQuery)
        ensures
            q.spec_start_line() == start_line,
            q.spec_start_col() == start_col,
            q.spec_end_line() == end_line,
            q.spec_end_col() == end_col,
    {
        TextQuery { start_line, start_col, end_line, end_col }
    }

    pub closed spec fn spec_start_line(self) -> usize {
        self.start_line
    }

    pub closed spec fn spec_start_col(self) -> usize {
        self.start_col
    }

    pub closed spec fn spec_end_line(self) -> usize {
        self.end_line
    }

    pub closed spec fn spec_end_col(self) -> usize {
        self.end_col
    }

    /// The span starts and ends on the same line.
    pub fn is_same_line(&self) -> (r: bool)
        ensures
            r == (self.spec_start_line() == self.spec_end_line()),
    {
        self.start_line == self.end_line
    }

    pub fn end_line(&self) -> (r: usize)
        ensures
            r == self.spec_end_line(),
    {
        self.end_line
    }

    pub fn end_col(&self) -> (r: usize)
        ensures
            r == self.spec_end_col(),
    {
        self.end_col
    }
}

/// A row and a column.
#[derive(Debug, Default, Clone, Copy, PartialEq, Eq, Structural, PartialOrd, Ord)]
pub struct EditPoint {
    pub row: usize,
    pub column: usize,
}

/// A change to the text: where it starts, where the replaced text ended and
/// where the new text ends, in bytes and in rows and columns.
#[derive(Debug, Default, Clone, Copy, PartialEq, Eq, Structural, PartialOrd, Ord)]
pub struct TextEdit {
    pub start_byte: usize,
    pub old_end_byte: usize,
    pub new_end_byte: usize,
    pub start_position: EditPoint,
    pub old_end_position: EditPoint,
    pub new_end_position: EditPoint,
}

/// The char index of column `x` of line `y`.
pub open spec fn char_at(s: Seq<char>, y: int, x: int) -> int {
    line_start(s, y) + x
}

/// `r` is the span from the cursor to char index `q`.
pub open spec fn is_query_to(r: TextQuery, s: Seq<char>, cursor: Cursor, q: int) -> bool {
    &&& r.spec_start_line() == cursor.y
    &&& r.spec_start_col() == cursor.x
    &&& r.spec_end_line() == breaks_upto(s, q)
    &&& r.spec_end_col() == q - line_start(s, breaks_upto(s, q) as int)
}

/// From whitespace: the first non-whitespace char, or the start of the
/// second of two line breaks in a row, where CR LF is one line break
/// (`after_cr`: the char before `p` is a CR).
pub open spec fn ws_stop(s: Seq<char>, p: int, found_newline: bool, after_cr: bool) -> Option<int>
    decreases s.len() - p,
{
    if p < 0 || p >= s.len() {
        None
    } else {
        let c = s[p];
        if is_linebreak(c) && found_newline && !(c == '\n' && after_cr) {
            Some(p)
        } else if !is_whitespace(c) {
            Some(p)
        } else {
            ws_stop(s, p + 1, is_linebreak(c), c == '\r')
        }
    }
}

/// A small forward word jump: from a word, to the next punctuation or the
/// next word after whitespace; from punctuation, to the next word or the
/// next punctuation after whitespace. Line breaks count as whitespace.
pub open spec fn small_stop(
    s: Seq<char>,
    p: int,
    found_whitespace: bool,
    in_word: bool,
    in_punctuation: bool,
) -> Option<int>
    decreases s.len() - p,
{
    if p < 0 || p >= s.len() {
        None
    } else {
        let c = s[p];
        if is_alphanumeric(c) && found_whitespace {
            Some(p)
        } else if in_word && !in_punctuation && is_ascii_punctuation(c) {
            Some(p)
        } else if !in_word && in_punctuation && ((is_ascii_punctuation(c) && found_whitespace)
            || is_alphanumeric(c)) {
            Some(p)
        } else {
            small_stop(s, p + 1, is_whitespace(c), in_word, in_punctuation)
        }
    }
}

/// A big forward word jump: the next word or punctuation char after
/// whitespace.
pub open spec fn big_stop(s: Seq<char>, p: int, found_whitespace: bool) -> Option<int>
    decreases s.len() - p,
{
    if p < 0 || p >= s.len() {
        None
    } else {
        let c = s[p];
        if (is_alphanumeric(c) || is_ascii_punctuation(c)) && found_whitespace {
            Some(p)
        } else {
            big_stop(s, p + 1, is_whitespace(c))
        }
    }
}

proof fn lemma_ws_stop_range(s: Seq<char>, p: int, fnl: bool, cr: bool)
    ensures
        ws_stop(s, p, fnl, cr) matches Some(q) ==> p <= q < s.len(),
    decreases s.len() - p,
{
    if 0 <= p < s.len() {
        lemma_ws_stop_range(s, p + 1, is_linebreak(s[p]), s[p] == '\r');
    }
}

proof fn lemma_small_stop_range(s: Seq<char>, p: int, fws: bool, iw: bool, ip: bool)
    ensures
        small_stop(s, p, fws, iw, ip) matches Some(q) ==> p <= q < s.len(),
    decreases s.len() - p,
{
    if 0 <= p < s.len() {
        lemma_small_stop_range(s, p + 1, is_whitespace(s[p]), iw, ip);
    }
}

proof fn lemma_big_stop_range(s: Seq<char>, p: int, fws: bool)
    ensures
        big_stop(s, p, fws) matches Some(q) ==> p <= q < s.len(),
    decreases s.len() - p,
{
    if 0 <= p < s.len() {
        lemma_big_stop_range(s, p + 1, is_whitespace(s[p]));
    }
}

/// A forward jump lands at or after where it starts, at the latest at the
/// end of the text.
pub proof fn lemma_next_word_stop_range(s: Seq<char>, start: int, skip: WordSkip)
    requires
        0 <= start < s.len(),
    ensures
        start <= next_word_stop(s, start, skip) <= s.len(),
{
    let c = s[start];
    lemma_ws_stop_range(s, start, false, false);
    lemma_small_stop_range(s, start, false, is_alphanumeric(c), is_ascii_punctuation(c));
    lemma_big_stop_range(s, start, false);
}

/// Where a forward word jump from char index `start` lands, when it stops
/// before the end of the text.
pub open spec fn next_word_found(s: Seq<char>, start: int, skip: WordSkip) -> Option<int> {
    let c = s[start];
    if is_whitespace(c) {
        ws_stop(s, start, false, false)
    } else {
        match skip {
            WordSkip::Small => small_stop(
                s,
                start,
                false,
                is_alphanumeric(c),
                is_ascii_punctuation(c),
            ),
            WordSkip::Big => big_stop(s, start, false),
        }
    }
}

/// Where a forward word jump from char index `start` lands: its first stop,
/// or the end of the text when there is none.
pub open spec fn next_word_stop(s: Seq<char>, start: int, skip: WordSkip) -> int {
    match next_word_found(s, start, skip) {
        Some(q) => q,
        None => s.len() as int,
    }
}

/// Where a forward word jump from `start` may stop: at `j` past `start`
/// where, from whitespace, a non-whitespace char begins or a second line
/// break follows a line break (CR LF being one); from a char of a word, a
/// punctuation char begins or a word begins after whitespace; from
/// punctuation, a word begins or punctuation begins after whitespace; and
/// for a big jump from a word or punctuation, a word or punctuation char
/// begins after whitespace.
pub open spec fn jump_may_stop(s: Seq<char>, start: int, skip: WordSkip, j: int) -> bool {
    let c = s[start];
    let x = s[j];
    let before = s[j - 1];
    &&& start < j < s.len()
    &&& if is_whitespace(c) {
        !is_whitespace(x) || (is_linebreak(x) && is_linebreak(before) && !(x == '\n' && before
            == '\r'))
    } else {
        match skip {
            WordSkip::Big => (is_alphanumeric(x) || is_ascii_punctuation(x)) && is_whitespace(
                before,
            ),
            WordSkip::Small => {
                ||| is_alphanumeric(x) && is_whitespace(before)
                ||| is_alphanumeric(c) && !is_ascii_punctuation(c) && is_ascii_punctuation(x)
                ||| !is_alphanumeric(c) && is_ascii_punctuation(c) && ((is_ascii_punctuation(x)
                    && is_whitespace(before)) || is_alphanumeric(x))
            },
        }
    }
}

proof fn lemma_ws_stop_first(s: Seq<char>, start: int, p: int)
    requires
        0 <= start < p <= s.len(),
        is_whitespace(s[start]),
    ensures
        ws_stop(s, p, is_linebreak(s[p - 1]), s[p - 1] == '\r') matches Some(q) ==> p <= q < s.len()
            && jump_may_stop(s, start, WordSkip::Small, q) && forall|j: int|
            p <= j < q ==> !#[trigger] jump_may_stop(s, start, WordSkip::Small, j),
        ws_stop(s, p, is_linebreak(s[p - 1]), s[p - 1] == '\r') is None ==> forall|j: int|
            p <= j < s.len() ==> !#[trigger] jump_may_stop(s, start, WordSkip::Small, j),
    decreases s.len() - p,
{
    if p < s.len() {
        lemma_ws_stop_first(s, start, p + 1);
    }
}

proof fn lemma_small_stop_first(s: Seq<char>, start: int, p: int)
    requires
        0 <= start < p <= s.len(),
        !is_whitespace(s[start]),
    ensures
        ({
            let c = s[start];
            let r = small_stop(s, p, is_whitespace(s[p - 1]), is_alphanumeric(c), is_ascii_punctuation(c));
            &&& r matches Some(q) ==> p <= q < s.len() && jump_may_stop(s, start, WordSkip::Small, q)
                && forall|j: int| p <= j < q ==> !#[trigger] jump_may_stop(s, start, WordSkip::Small, j)
            &&& r is None ==> forall|j: int|
                p <= j < s.len() ==> !#[trigger] jump_may_stop(s, start, WordSkip::Small, j)
        }),
    decreases s.len() - p,
{
    if p < s.len() {
        lemma_small_stop_first(s, start, p + 1);
    }
}

proof fn lemma_big_stop_first(s: Seq<char>, start: int, p: int)
    requires
        0 <= start < p <= s.len(),
        !is_whitespace(s[start]),
    ensures
        big_stop(s, p, is_whitespace(s[p - 1])) matches Some(q) ==> p <= q < s.len() && jump_may_stop(
            s,
            start,
            WordSkip::Big,
            q,
        ) && forall|j: int| p <= j < q ==> !#[trigger] jump_may_stop(s, start, WordSkip::Big, j),
        big_stop(s, p, is_whitespace(s[p - 1])) is None ==> forall|j: int|
            p <= j < s.len() ==> !#[trigger] jump_may_stop(s, start, WordSkip::Big, j),
    decreases s.len() - p,
{
    if p < s.len() {
        lemma_big_stop_first(s, start, p + 1);
    }
}

/// A forward word jump lands on the first place after `start` where it may
/// stop (`jump_may_stop`), and at the end of the text when there is none:
/// it skips no place where it may stop and lands nowhere else.
pub proof fn law_next_word_lands_on_first_stop(s: Seq<char>, start: int, skip: WordSkip)
    requires
        0 <= start < s.len(),
    ensures
        start < next_word_stop(s, start, skip) <= s.len(),
        next_word_stop(s, start, skip) < s.len() ==> jump_may_stop(
            s,
            start,
            skip,
            next_word_stop(s, start, skip),
        ),
        forall|j: int|
            start < j < next_word_stop(s, start, skip) ==> !#[trigger] jump_may_stop(s, start, skip, j),
{
    let c = s[start];
    if is_whitespace(c) {
        lemma_ws_stop_first(s, start, start + 1);
        assert forall|j: int| start < j < s.len() implies #[trigger] jump_may_stop(s, start, skip, j)
            == jump_may_stop(s, start, WordSkip::Small, j) by {}
    } else {
        match skip {
            WordSkip::Small => lemma_small_stop_first(s, start, start + 1),
            WordSkip::Big => lemma_big_stop_first(s, start, start + 1),
        }
    }
}

/// A backward jump from whitespace: to the start of the word before the
/// whitespace, or just after the first of two line breaks in a row.
pub open spec fn ws_back(s: Seq<char>, p: int, found_newline: bool, found_word: bool) -> int
    decreases p + 1,
{
    if p < 0 || p >= s.len() {
        p
    } else {
        let c = s[p];
        if is_linebreak(c) && found_newline {
            p + 1
        } else if is_whitespace(c) && found_word {
            p
        } else if p == 0 {
            0
        } else {
            ws_back(s, p - 1, is_linebreak(c), found_word || !is_whitespace(c))
        }
    }
}

/// A small backward word jump from a word char (`in_word`) or from a
/// punctuation char; `same` says whether the char before the start is of the
/// same class, so that the jump stops at the start of the current run.
pub open spec fn small_back(
    s: Seq<char>,
    p: int,
    same: bool,
    in_word: bool,
    found_whitespace: bool,
    found_word: bool,
) -> int
    decreases p + 1,
{
    if p < 0 || p >= s.len() {
        p
    } else {
        let c = s[p];
        if in_word {
            if is_ascii_punctuation(c) && same {
                p + 1
            } else if is_ascii_punctuation(c) {
                p
            } else {
                let fws = found_whitespace || is_whitespace(c);
                if is_whitespace(c) && found_word {
                    p + 1
                } else {
                    let fw = found_word || (is_alphanumeric(c) && fws);
                    if p == 0 {
                        0
                    } else {
                        small_back(s, p - 1, same, in_word, fws, fw)
                    }
                }
            }
        } else {
            if !is_ascii_punctuation(c) && same {
                p + 1
            } else {
                let fw = found_word || is_alphanumeric(c);
                if is_whitespace(c) && fw {
                    p + 1
                } else if p == 0 {
                    0
                } else {
                    small_back(s, p - 1, same, in_word, found_whitespace, fw)
                }
            }
        }
    }
}

/// A big backward word jump: to the start of the current or previous
/// whitespace-separated word, stopping after two line breaks in a row.
pub open spec fn big_back(
    s: Seq<char>,
    p: int,
    same: bool,
    found_newline: bool,
    found_whitespace: bool,
    found_word: bool,
) -> int
    decreases p + 1,
{
    if p < 0 || p >= s.len() {
        p
    } else {
        let c = s[p];
        if is_linebreak(c) && found_newline {
            p + 1
        } else {
            let fnl = found_newline || is_linebreak(c);
            if is_whitespace(c) && same {
                p + 1
            } else if is_whitespace(c) && found_word {
                p + 1
            } else {
                let fws = found_whitespace || is_whitespace(c);
                let fw = found_word || (!is_whitespace(c) && fws);
                if is_whitespace(c) && fw {
                    p + 1
                } else if p == 0 {
                    0
                } else {
                    big_back(s, p - 1, same, fnl, fws, fw)
                }
            }
        }
    }
}

/// A backward jump is defined from `start`: it starts on whitespace, at the
/// start of the text, as a big jump, or on a char that is exactly one of
/// alphanumeric and ASCII punctuation.
pub open spec fn prev_word_defined(s: Seq<char>, start: int, skip: WordSkip) -> bool {
    let c = s[start];
    is_whitespace(c) || start == 0 || skip == WordSkip::Big || is_alphanumeric(c)
        != is_ascii_punctuation(c)
}

/// Where a backward word jump from char index `start` lands.
pub open spec fn prev_word_stop(s: Seq<char>, start: int, skip: WordSkip) -> int {
    let c = s[start];
    if is_whitespace(c) {
        ws_back(s, start, false, false)
    } else if start == 0 {
        0
    } else {
        match skip {
            WordSkip::Small => if is_alphanumeric(c) {
                small_back(s, start, is_alphanumeric(s[start - 1]), true, false, false)
            } else {
                small_back(s, start, is_ascii_punctuation(s[start - 1]), false, false, false)
            },
            WordSkip::Big => big_back(s, start, !is_whitespace(s[start - 1]), false, false, false),
        }
    }
}

proof fn lemma_ws_back_bound(s: Seq<char>, p: int, fnl: bool, fw: bool)
    requires
        0 <= p < s.len(),
    ensures
        0 <= ws_back(s, p, fnl, fw) <= p + 1,
    decreases p + 1,
{
    let c = s[p];
    if !(is_linebreak(c) && fnl) && !(is_whitespace(c) && fw) && p != 0 {
        lemma_ws_back_bound(s, p - 1, is_linebreak(c), fw || !is_whitespace(c));
    }
}

proof fn lemma_small_back_bound(s: Seq<char>, p: int, same: bool, iw: bool, fws: bool, fw: bool)
    requires
        0 <= p < s.len(),
    ensures
        0 <= small_back(s, p, same, iw, fws, fw) <= p + 1,
    decreases p + 1,
{
    if p > 0 {
        let c = s[p];
        let fws2 = fws || is_whitespace(c);
        lemma_small_back_bound(s, p - 1, same, iw, fws2, fw || (is_alphanumeric(c) && fws2));
        lemma_small_back_bound(s, p - 1, same, iw, fws, fw || is_alphanumeric(c));
    }
}

proof fn lemma_big_back_bound(
    s: Seq<char>,
    p: int,
    same: bool,
    fnl: bool,
    fws: bool,
    fw: bool,
)
    requires
        0 <= p < s.len(),
    ensures
        0 <= big_back(s, p, same, fnl, fws, fw) <= p + 1,
    decreases p + 1,
{
    if p > 0 {
        let c = s[p];
        let fws2 = fws || is_whitespace(c);
        lemma_big_back_bound(
            s,
            p - 1,
            same,
            fnl || is_linebreak(c),
            fws2,
            fw || (!is_whitespace(c) && fws2),
        );
    }
}

/// The span from the cursor to char index `q`.
fn make_query(text: &ropey::Rope, cursor: &Cursor, q: usize) -> (r: TextQuery)
    requires
        q <= rope_chars(*text).len(),
    ensures
        is_query_to(r, rope_chars(*text), *cursor, q as int),
{
    proof {
        lemma_char_line(rope_chars(*text), q as int);
    }
    let end_line = rope_char_to_line(text, q);
    let line_start = rope_line_to_char(text, end_line);
    let end_col = q - line_start;
    TextQuery { start_line: cursor.y, start_col: cursor.x, end_line, end_col }
}

/// Searches forward from the cursor for the start of the next word.
///
/// From whitespace, the jump lands on the next non-whitespace char or on the
/// second of two line breaks in a row (CR LF counting as one); from a word char, on the next
/// punctuation or the next word char after whitespace; from punctuation, on
/// the next word char or the next punctuation after whitespace. A big jump
/// lands on the first word or punctuation char after whitespace. Line breaks
/// count as whitespace, and a jump that finds no such char lands at the end
/// of the text.
pub fn find_next_word(text: &ropey::Rope, cursor: &Cursor, skip: WordSkip) -> (q: TextQuery)
    requires
        cursor.y <= num_lines(rope_chars(*text)),
        char_at(rope_chars(*text), cursor.y as int, cursor.x as int) < rope_chars(*text).len(),
    ensures
        is_query_to(
            q,
            rope_chars(*text),
            *cursor,
            next_word_stop(
                rope_chars(*text),
                char_at(rope_chars(*text), cursor.y as int, cursor.x as int),
                skip,
            ),
        ),
{
    let ghost s = rope_chars(*text);
    let len = rope_len_chars(text);
    let start_char = rope_line_to_char(text, cursor.y) + cursor.x;
    let ch = rope_char(text, start_char);
    let ghost target = next_word_found(s, start_char as int, skip);
    assert(start_char == char_at(s, cursor.y as int, cursor.x as int));
    if char_is_whitespace(ch) {
        let mut found_newline = false;
        let mut after_cr = false;
        let mut p = start_char;
        while p < len
            invariant
                s == rope_chars(*text),
                len == s.len(),
                target == next_word_found(s, char_at(s, cursor.y as int, cursor.x as int), skip),
                start_char <= p <= len,
                target == ws_stop(s, p as int, found_newline, after_cr),
            decreases len - p,
        {
            let c = rope_char(text, p);
            // a CR LF pair is one line break
            if is_linebreak_char(c) && found_newline && !(c == '\n' && after_cr) {
                assert(target == Some(p as int));
                return make_query(text, cursor, p);
            }
            if !char_is_whitespace(c) {
                assert(target == Some(p as int));
                return make_query(text, cursor, p);
            }
            p = p + 1;
            found_newline = is_linebreak_char(c);
            after_cr = c == '\r';
        }
        return make_query(text, cursor, len);
    }
    match skip {
        WordSkip::Small => {
            let in_word = char_is_alphanumeric(ch);
            let in_punctuation = char_is_ascii_punctuation(ch);
            let mut found_whitespace = false;
            let mut p = start_char;
            while p < len
                invariant
                    s == rope_chars(*text),
                    len == s.len(),
                    target == next_word_found(s, char_at(s, cursor.y as int, cursor.x as int), skip),
                    start_char <= p <= len,
                    target == small_stop(s, p as int, found_whitespace, in_word, in_punctuation),
                decreases len - p,
            {
                let c = rope_char(text, p);
                let alnum = char_is_alphanumeric(c);
                let punct = char_is_ascii_punctuation(c);
                // after whitespace, any word char starts the next word
                if alnum && found_whitespace {
                    assert(target == Some(p as int));
                    return make_query(text, cursor, p);
                }
                if in_word && !in_punctuation && punct {
                    assert(target == Some(p as int));
                    return make_query(text, cursor, p);
                }
                if !in_word && in_punctuation && ((punct && found_whitespace) || alnum) {
                    assert(target == Some(p as int));
                    return make_query(text, cursor, p);
                }
                p = p + 1;
                found_whitespace = char_is_whitespace(c);
            }
        },
        WordSkip::Big => {
            let mut found_whitespace = false;
            let mut p = start_char;
            while p < len
                invariant
                    s == rope_chars(*text),
                    len == s.len(),
                    target == next_word_found(s, char_at(s, cursor.y as int, cursor.x as int), skip),
                    start_char <= p <= len,
                    target == big_stop(s, p as int, found_whitespace),
                decreases len - p,
            {
                let c = rope_char(text, p);
                if (char_is_alphanumeric(c) || char_is_ascii_punctuation(c)) && found_whitespace {
                    assert(target == Some(p as int));
                    return make_query(text, cursor, p);
                }
                p = p + 1;
                found_whitespace = char_is_whitespace(c);
            }
        },
    }
    make_query(text, cursor, len)
}

/// Searches backward from the cursor for the start of the current or
/// previous word, with the same classes of chars as `find_next_word`.
pub fn find_prev_word(text: &ropey::Rope, cursor: &Cursor, skip: WordSkip) -> (q: TextQuery)
    requires
        cursor.y <= num_lines(rope_chars(*text)),
        char_at(rope_chars(*text), cursor.y as int, cursor.x as int) < rope_chars(*text).len(),
        prev_word_defined(
            rope_chars(*text),
            char_at(rope_chars(*text), cursor.y as int, cursor.x as int),
            skip,
        ),
    ensures
        is_query_to(
            q,
            rope_chars(*text),
            *cursor,
            prev_word_stop(
                rope_chars(*text),
                char_at(rope_chars(*text), cursor.y as int, cursor.x as int),
                skip,
            ),
        ),
{
    let ghost s = rope_chars(*text);
    let len = rope_len_chars(text);
    let start_char = rope_line_to_char(text, cursor.y) + cursor.x;
    let ch = rope_char(text, start_char);
    let ghost target = prev_word_stop(s, start_char as int, skip);
    assert(start_char == char_at(s, cursor.y as int, cursor.x as int));
    if char_is_whitespace(ch) {
        let mut found_newline = false;
        let mut found_word = false;
        let mut p = start_char;
        loop
            invariant
                s == rope_chars(*text),
                len == s.len(),
                target == prev_word_stop(s, char_at(s, cursor.y as int, cursor.x as int), skip),
                p <= start_char < len,
                target == ws_back(s, p as int, found_newline, found_word),
            decreases p,
        {
            let c = rope_char(text, p);
            if is_linebreak_char(c) && found_newline {
                // of two line breaks in a row, the second ends the word
                assert(target == p + 1);
                return make_query(text, cursor, p + 1);
            }
            let ws = char_is_whitespace(c);
            if ws && found_word {
                assert(target == p as int);
                return make_query(text, cursor, p);
            }
            if !ws {
                found_word = true;
            }
            if p == 0 {
                assert(target == p as int);
                return make_query(text, cursor, p);
            }
            p = p - 1;
            found_newline = is_linebreak_char(c);
        }
    }
    if start_char == 0 {
        assert(target == 0);
        return make_query(text, cursor, start_char);
    }
    match skip {
        WordSkip::Small => {
            let in_word = char_is_alphanumeric(ch);
            let in_punctuation = char_is_ascii_punctuation(ch);
            let prev = rope_char(text, start_char - 1);
            let stop_at_same_word = if in_word && !in_punctuation {
                char_is_alphanumeric(prev)
            } else {
                char_is_ascii_punctuation(prev)
            };
            let mut found_whitespace = false;
            let mut found_word = false;
            let mut p = start_char;
            loop
                invariant
                    s == rope_chars(*text),
                    len == s.len(),
                target == prev_word_stop(s, char_at(s, cursor.y as int, cursor.x as int), skip),
                    p <= start_char < len,
                    in_word != in_punctuation,
                    target == small_back(
                        s,
                        p as int,
                        stop_at_same_word,
                        in_word,
                        found_whitespace,
                        found_word,
                    ),
                decreases p,
            {
                let c = rope_char(text, p);
                if in_word {
                    let punct = char_is_ascii_punctuation(c);
                    if punct && stop_at_same_word {
                        assert(target == p + 1);
                        return make_query(text, cursor, p + 1);
                    }
                    if punct {
                        assert(target == p as int);
                        return make_query(text, cursor, p);
                    }
                    let ws = char_is_whitespace(c);
                    if ws {
                        found_whitespace = true;
                    }
                    if ws && found_word {
                        assert(target == p + 1);
                        return make_query(text, cursor, p + 1);
                    }
                    if char_is_alphanumeric(c) && found_whitespace {
                        found_word = true;
                    }
                } else {
                    if !char_is_ascii_punctuation(c) && stop_at_same_word {
                        assert(target == p + 1);
                        return make_query(text, cursor, p + 1);
                    }
                    if char_is_alphanumeric(c) {
                        found_word = true;
                    }
                    if char_is_whitespace(c) && found_word {
                        assert(target == p + 1);
                        return make_query(text, cursor, p + 1);
                    }
                }
                if p == 0 {
                    assert(target == p as int);
                    return make_query(text, cursor, p);
                }
                p = p - 1;
            }
        },
        WordSkip::Big => {
            let mut found_word = false;
            let mut found_whitespace = false;
            let mut found_newline = false;
            let stop_at_same_word = !char_is_whitespace(rope_char(text, start_char - 1));
            let mut p = start_char;
            loop
                invariant
                    s == rope_chars(*text),
                    len == s.len(),
                target == prev_word_stop(s, char_at(s, cursor.y as int, cursor.x as int), skip),
                    p <= start_char < len,
                    target == big_back(
                        s,
                        p as int,
                        stop_at_same_word,
                        found_newline,
                        found_whitespace,
                        found_word,
                    ),
                decreases p,
            {
                let c = rope_char(text, p);
                let lb = is_linebreak_char(c);
                let ws = char_is_whitespace(c);
                if lb && found_newline {
                    assert(target == p + 1);
                    return make_query(text, cursor, p + 1);
                }
                if lb {
                    found_newline = true;
                }
                if ws && stop_at_same_word {
                    assert(target == p + 1);
                    return make_query(text, cursor, p + 1);
                }
                if ws && found_word {
                    assert(target == p + 1);
                    return make_query(text, cursor, p + 1);
                }
                if ws {
                    found_whitespace = true;
                }
                if !ws && found_whitespace {
                    found_word = true;
                }
                if ws && found_word {
                    assert(target == p + 1);
                    return make_query(text, cursor, p + 1);
                }
                if p == 0 {
                    assert(target == p as int);
                    return make_query(text, cursor, p);
                }
                p = p - 1;
            }
        },
    }
}


/// Puts the cursor at column `x` of line `y`.
fn place_cursor(cursor: &mut Cursor, x: usize, y: usize)
    ensures
        *final(cursor) == (Cursor { x, y, virtual_x: x }),
{
    cursor.x = x;
    cursor.y = y;
    cursor.virtual_x = x;
}

/// The requirements of a forward word jump from the cursor.
pub open spec fn next_word_ok(s: Seq<char>, cursor: Cursor, skip: WordSkip) -> bool {
    &&& cursor.y <= num_lines(s)
    &&& char_at(s, cursor.y as int, cursor.x as int) < s.len()
}

/// The requirements of a backward word jump from the cursor.
pub open spec fn prev_word_ok(s: Seq<char>, cursor: Cursor, skip: WordSkip) -> bool {
    &&& cursor.y <= num_lines(s)
    &&& char_at(s, cursor.y as int, cursor.x as int) < s.len()
    &&& prev_word_defined(s, char_at(s, cursor.y as int, cursor.x as int), skip)
}

/// The cursor at char index `q`.
pub open spec fn cursor_at(s: Seq<char>, q: int) -> Cursor {
    let line = breaks_upto(s, q);
    let col = (q - line_start(s, line as int)) as usize;
    Cursor { x: col, y: line as usize, virtual_x: col }
}

/// Moves the cursor to the start of the next word.
pub fn next_word_inner(text: &ropey::Rope, cursor: &mut Cursor, skip: WordSkip)
    requires
        next_word_ok(rope_chars(*text), *old(cursor), skip),
    ensures
        *final(cursor) == cursor_at(
            rope_chars(*text),
            next_word_stop(
                rope_chars(*text),
                char_at(rope_chars(*text), old(cursor).y as int, old(cursor).x as int),
                skip,
            ),
        ),
{
    let query = find_next_word(text, cursor, skip);
    place_cursor(cursor, query.end_col(), query.end_line());
}

pub fn next_word(text: &ropey::Rope, cursor: &mut Cursor)
    requires
        next_word_ok(rope_chars(*text), *old(cursor), WordSkip::Small),
    ensures
        *final(cursor) == cursor_at(
            rope_chars(*text),
            next_word_stop(
                rope_chars(*text),
                char_at(rope_chars(*text), old(cursor).y as int, old(cursor).x as int),
                WordSkip::Small,
            ),
        ),
{
    next_word_inner(text, cursor, WordSkip::Small);
}

pub fn next_word_big(text: &ropey::Rope, cursor: &mut Cursor)
    requires
        next_word_ok(rope_chars(*text), *old(cursor), WordSkip::Big),
    ensures
        *final(cursor) == cursor_at(
            rope_chars(*text),
            next_word_stop(
                rope_chars(*text),
                char_at(rope_chars(*text), old(cursor).y as int, old(cursor).x as int),
                WordSkip::Big,
            ),
        ),
{
    next_word_inner(text, cursor, WordSkip::Big);
}

/// Moves the cursor to the start of the current or previous word.
pub fn prev_word_inner(text: &ropey::Rope, cursor: &mut Cursor, skip: WordSkip)
    requires
        prev_word_ok(rope_chars(*text), *old(cursor), skip),
    ensures
        *final(cursor) == cursor_at(
            rope_chars(*text),
            prev_word_stop(
                rope_chars(*text),
                char_at(rope_chars(*text), old(cursor).y as int, old(cursor).x as int),
                skip,
            ),
        ),
{
    let query = find_prev_word(text, cursor, skip);
    place_cursor(cursor, query.end_col(), query.end_line());
}

pub fn prev_word(text: &ropey::Rope, cursor: &mut Cursor)
    requires
        prev_word_ok(rope_chars(*text), *old(cursor), WordSkip::Small),
    ensures
        *final(cursor) == cursor_at(
            rope_chars(*text),
            prev_word_stop(
                rope_chars(*text),
                char_at(rope_chars(*text), old(cursor).y as int, old(cursor).x as int),
                WordSkip::Small,
            ),
        ),
{
    prev_word_inner(text, cursor, WordSkip::Small);
}

pub fn prev_word_big(text: &ropey::Rope, cursor: &mut Cursor)
    requires
        prev_word_ok(rope_chars(*text), *old(cursor), WordSkip::Big),
    ensures
        *final(cursor) == cursor_at(
            rope_chars(*text),
            prev_word_stop(
                rope_chars(*text),
                char_at(rope_chars(*text), old(cursor).y as int, old(cursor).x as int),
                WordSkip::Big,
            ),
        ),
{
    prev_word_inner(text, cursor, WordSkip::Big);
}

/// The UTF-8 length of a prefix grows with the prefix.
pub proof fn lemma_utf8_len_mono(s: Seq<char>, a: int, b: int)
    requires
        0 <= a <= b <= s.len(),
    ensures
        utf8_len(s.subrange(0, a)) <= utf8_len(s.subrange(0, b)),
    decreases b - a,
{
    if a < b {
        lemma_utf8_len_mono(s, a, b - 1);
        assert(s.subrange(0, b).drop_last() =~= s.subrange(0, b - 1));
    }
}

/// The text without `start..end`.
pub open spec fn removed(s: Seq<char>, start: int, end: int) -> Seq<char> {
    s.subrange(0, start) + s.subrange(end, s.len() as int)
}

/// The UTF-8 length of the first `n` chars.
pub open spec fn byte_of(s: Seq<char>, n: int) -> int {
    utf8_len(s.subrange(0, n)) as int
}

pub open spec fn edit_point(row: int, column: int) -> EditPoint {
    EditPoint { row: row as usize, column: column as usize }
}

/// Deletes from the cursor to the start of the next word, or to the end of
/// the line when the next word starts on a later line.
pub fn delete_word(text: &mut ropey::Rope, cursor: &Cursor) -> (edit: TextEdit)
    requires
        next_word_ok(rope_chars(*old(text)), *cursor, WordSkip::Small),
        ({
            let s = rope_chars(*old(text));
            let st = char_at(s, cursor.y as int, cursor.x as int);
            let q = next_word_stop(s, st, WordSkip::Small);
            breaks_upto(s, q) != cursor.y ==> st <= line_start(s, cursor.y + 1)
        }),
    ensures
        ({
            let s = rope_chars(*old(text));
            let y = cursor.y as int;
            let x = cursor.x as int;
            let st = char_at(s, y, x);
            let q = next_word_stop(s, st, WordSkip::Small);
            let same = breaks_upto(s, q) == y;
            let end = if same { q } else { line_start(s, y + 1) };
            &&& rope_chars(*final(text)) == removed(s, st, end)
            &&& edit == (TextEdit {
                start_byte: byte_of(s, st) as usize,
                old_end_byte: byte_of(s, end) as usize,
                new_end_byte: byte_of(s, st) as usize,
                start_position: edit_point(y, x),
                old_end_position: if same {
                    edit_point(breaks_upto(s, q) as int, q - line_start(s, breaks_upto(s, q) as int))
                } else {
                    edit_point(y, line_start(s, y + 1) - line_start(s, y))
                },
                new_end_position: edit_point(y, x),
            })
        }),
{
    let ghost s = rope_chars(*text);
    let query = find_next_word(text, cursor, WordSkip::Small);
    let ghost q = next_word_stop(s, char_at(s, cursor.y as int, cursor.x as int), WordSkip::Small);
    proof {
        if (cursor.y as int) < num_lines(s) {
            lemma_line_start(s, cursor.y as int);
        } else {
            lemma_line_start(s, 0);
        }
        lemma_next_word_stop_range(s, char_at(s, cursor.y as int, cursor.x as int), WordSkip::Small);
        lemma_char_line(s, q);
        lemma_line_start(s, breaks_upto(s, q) as int);
        if breaks_upto(s, q) != cursor.y {
            lemma_line_start(s, cursor.y as int);
        }
    }
    let _ = rope_len_lines(text);
    let _ = rope_len_chars(text);
    if !query.is_same_line() {
        let line_start_char = rope_line_to_char(text, cursor.y);
        let line_start_byte = rope_char_to_byte(text, line_start_char);
        let next_line_start = rope_line_to_char(text, cursor.y + 1);
        proof {
            lemma_utf8_len_mono(s, line_start_char as int, next_line_start as int);
        }
        let line_len_bytes = rope_char_to_byte(text, next_line_start) - line_start_byte;
        let line_len_chars = next_line_start - line_start_char;
        let start_char = rope_line_to_char(text, query.start_line) + query.start_col;
        let end_char = next_line_start;
        let start_byte = rope_char_to_byte(text, start_char);
        let old_end_byte = line_start_byte + line_len_bytes;
        let new_end_byte = start_byte;
        let start_position = EditPoint { row: cursor.y, column: cursor.x };
        let old_end_position = EditPoint { row: cursor.y, column: line_len_chars };
        let new_end_position = start_position;
        rope_remove(text, start_char, end_char);
        return TextEdit {
            start_byte,
            old_end_byte,
            new_end_byte,
            start_position,
            old_end_position,
            new_end_position,
        };
    }
    let start_char = rope_line_to_char(text, query.start_line) + query.start_col;
    let end_char = rope_line_to_char(text, query.end_line) + query.end_col;
    proof {
        assert(end_char == q);
    }
    let start_byte = rope_char_to_byte(text, start_char);
    let old_end_byte = rope_char_to_byte(text, end_char);
    let new_end_byte = start_byte;
    let start_position = EditPoint { row: query.start_line, column: query.start_col };
    let old_end_position = EditPoint { row: query.end_line, column: query.end_col };
    let new_end_position = start_position;
    rope_remove(text, start_char, end_char);
    TextEdit { start_byte, old_end_byte, new_end_byte, start_position, old_end_position, new_end_position }
}


/// Some char in `(p, start]` is not whitespace.
pub open spec fn word_after(s: Seq<char>, p: int, start: int) -> bool {
    exists|j: int| p < j <= start && !is_whitespace(#[trigger] s[j])
}

/// Where a backward jump from whitespace at `start` may stop at `p`: on a
/// line break right before a line break, or on whitespace with a word
/// between it and `start`.
pub open spec fn ws_back_stops(s: Seq<char>, start: int, p: int) -> bool {
    ||| is_linebreak(s[p]) && p < start && is_linebreak(s[p + 1])
    ||| is_whitespace(s[p]) && word_after(s, p, start)
}

/// Where a backward jump from whitespace lands when it stops at `p`: after
/// the first of two line breaks, else on `p`.
pub open spec fn ws_back_lands(s: Seq<char>, start: int, p: int) -> int {
    if is_linebreak(s[p]) && p < start && is_linebreak(s[p + 1]) {
        p + 1
    } else {
        p
    }
}

proof fn lemma_ws_back_last(s: Seq<char>, start: int, p: int)
    requires
        0 <= p <= start < s.len(),
        is_whitespace(s[start]),
    ensures
        ({
            let r = ws_back(s, p, p < start && is_linebreak(s[p + 1]), word_after(s, p, start));
            ||| exists|k: int|
                0 <= k <= p && ws_back_stops(s, start, k) && r == ws_back_lands(s, start, k)
                    && forall|m: int| k < m <= p ==> !#[trigger] ws_back_stops(s, start, m)
            ||| r == 0 && forall|m: int| 0 <= m <= p ==> !#[trigger] ws_back_stops(s, start, m)
        }),
    decreases p,
{
    let fnl = p < start && is_linebreak(s[p + 1]);
    let fw = word_after(s, p, start);
    let c = s[p];
    if ws_back_stops(s, start, p) {
        assert(forall|m: int| p < m <= p ==> !#[trigger] ws_back_stops(s, start, m));
    } else if p > 0 {
        assert(word_after(s, p - 1, start) == (fw || !is_whitespace(c))) by {
            if word_after(s, p - 1, start) {
                let j = choose|j: int| p - 1 < j <= start && !is_whitespace(#[trigger] s[j]);
                if j != p {
                    assert(p < j <= start && !is_whitespace(s[j]));
                }
            }
            if fw {
                let j = choose|j: int| p < j <= start && !is_whitespace(#[trigger] s[j]);
                assert(p - 1 < j <= start && !is_whitespace(s[j]));
            }
            if !is_whitespace(c) {
                assert(p - 1 < p <= start && !is_whitespace(s[p]));
            }
        }
        lemma_ws_back_last(s, start, p - 1);
    }
}

/// A backward word jump from whitespace lands where the last place before
/// `start` at which it may stop (`ws_back_stops`) says, and at the start of
/// the text when there is none.
pub proof fn law_prev_word_from_whitespace(s: Seq<char>, start: int, skip: WordSkip)
    requires
        0 <= start < s.len(),
        is_whitespace(s[start]),
    ensures
        ({
            let q = prev_word_stop(s, start, skip);
            ||| exists|k: int|
                0 <= k <= start && ws_back_stops(s, start, k) && q == ws_back_lands(s, start, k)
                    && forall|m: int| k < m <= start ==> !#[trigger] ws_back_stops(s, start, m)
            ||| q == 0 && forall|m: int| 0 <= m <= start ==> !#[trigger] ws_back_stops(s, start, m)
        }),
{
    assert(!word_after(s, start, start));
    lemma_ws_back_last(s, start, start);
}

/// Some char in `(p, start]` is whitespace.
pub open spec fn space_after(s: Seq<char>, p: int, start: int) -> bool {
    exists|j: int| p < j <= start && is_whitespace(#[trigger] s[j])
}

/// Some char in `(p, start]` is a line break.
pub open spec fn break_after(s: Seq<char>, p: int, start: int) -> bool {
    exists|j: int| p < j <= start && is_linebreak(#[trigger] s[j])
}

/// Some non-whitespace char in `(p, start]` has whitespace after it, up to
/// `start`: a whole word lies between `p` and `start`.
pub open spec fn word_then_space_after(s: Seq<char>, p: int, start: int) -> bool {
    exists|j: int| p < j <= start && !is_whitespace(#[trigger] s[j]) && space_after(s, j, start)
}

/// Where a big backward jump from a word char at `start` may stop at `p`:
/// on a line break with a line break between it and `start`, or on
/// whitespace when the char before `start` is not whitespace (the start of
/// the current word) or when a whole word lies between it and `start`. It
/// lands just after `p`.
pub open spec fn big_back_stops(s: Seq<char>, start: int, p: int) -> bool {
    ||| is_linebreak(s[p]) && break_after(s, p, start)
    ||| is_whitespace(s[p]) && (!is_whitespace(s[start - 1]) || word_then_space_after(s, p, start))
}

proof fn lemma_big_back_last(s: Seq<char>, start: int, p: int)
    requires
        0 <= p <= start < s.len(),
        0 < start,
        !is_whitespace(s[start]),
    ensures
        ({
            let r = big_back(
                s,
                p,
                !is_whitespace(s[start - 1]),
                break_after(s, p, start),
                space_after(s, p, start),
                word_then_space_after(s, p, start),
            );
            ||| exists|k: int|
                0 <= k <= p && big_back_stops(s, start, k) && r == k + 1 && forall|m: int|
                    k < m <= p ==> !#[trigger] big_back_stops(s, start, m)
            ||| r == 0 && forall|m: int| 0 <= m <= p ==> !#[trigger] big_back_stops(s, start, m)
        }),
    decreases p,
{
    let c = s[p];
    if big_back_stops(s, start, p) {
        assert(forall|m: int| p < m <= p ==> !#[trigger] big_back_stops(s, start, m));
    } else if p > 0 {
        assert(break_after(s, p - 1, start) == (break_after(s, p, start) || is_linebreak(c))) by {
            if break_after(s, p - 1, start) {
                let j = choose|j: int| p - 1 < j <= start && is_linebreak(#[trigger] s[j]);
                if j != p {
                    assert(p < j <= start && is_linebreak(s[j]));
                }
            }
            if break_after(s, p, start) {
                let j = choose|j: int| p < j <= start && is_linebreak(#[trigger] s[j]);
                assert(p - 1 < j <= start && is_linebreak(s[j]));
            }
            if is_linebreak(c) {
                assert(p - 1 < p <= start && is_linebreak(s[p]));
            }
        }
        assert(space_after(s, p - 1, start) == (space_after(s, p, start) || is_whitespace(c))) by {
            if space_after(s, p - 1, start) {
                let j = choose|j: int| p - 1 < j <= start && is_whitespace(#[trigger] s[j]);
                if j != p {
                    assert(p < j <= start && is_whitespace(s[j]));
                }
            }
            if space_after(s, p, start) {
                let j = choose|j: int| p < j <= start && is_whitespace(#[trigger] s[j]);
                assert(p - 1 < j <= start && is_whitespace(s[j]));
            }
            if is_whitespace(c) {
                assert(p - 1 < p <= start && is_whitespace(s[p]));
            }
        }
        let fws2 = space_after(s, p, start) || is_whitespace(c);
        assert(word_then_space_after(s, p - 1, start) == (word_then_space_after(s, p, start) || (
        !is_whitespace(c) && fws2))) by {
            if word_then_space_after(s, p - 1, start) {
                let j = choose|j: int|
                    p - 1 < j <= start && !is_whitespace(#[trigger] s[j]) && space_after(s, j, start);
                if j != p {
                    assert(p < j <= start && !is_whitespace(s[j]) && space_after(s, j, start));
                }
            }
            if word_then_space_after(s, p, start) {
                let j = choose|j: int|
                    p < j <= start && !is_whitespace(#[trigger] s[j]) && space_after(s, j, start);
                assert(p - 1 < j <= start && !is_whitespace(s[j]) && space_after(s, j, start));
            }
            if !is_whitespace(c) && fws2 {
                assert(p - 1 < p <= start && !is_whitespace(s[p]) && space_after(s, p, start));
            }
        }
        lemma_big_back_last(s, start, p - 1);
    }
}

/// A big backward word jump from a word char lands just after the last
/// place before `start` at which it may stop (`big_back_stops`), and at
/// the start of the text when there is none.
pub proof fn law_prev_word_big(s: Seq<char>, start: int)
    requires
        0 < start < s.len(),
        !is_whitespace(s[start]),
    ensures
        ({
            let q = prev_word_stop(s, start, WordSkip::Big);
            ||| exists|k: int|
                0 <= k <= start && big_back_stops(s, start, k) && q == k + 1 && forall|m: int|
                    k < m <= start ==> !#[trigger] big_back_stops(s, start, m)
            ||| q == 0 && forall|m: int| 0 <= m <= start ==> !#[trigger] big_back_stops(s, start, m)
        }),
{
    assert(!break_after(s, start, start));
    assert(!space_after(s, start, start));
    assert(!word_then_space_after(s, start, start));
    lemma_big_back_last(s, start, start);
}

/// Some char in `(p, start]` is a word char.
pub open spec fn alnum_after(s: Seq<char>, p: int, start: int) -> bool {
    exists|j: int| p < j <= start && is_alphanumeric(#[trigger] s[j])
}

/// Some word char in `(p, start]` is whitespace or has whitespace after it,
/// up to `start`.
pub open spec fn alnum_then_space_after(s: Seq<char>, p: int, start: int) -> bool {
    exists|j: int|
        p < j <= start && is_alphanumeric(#[trigger] s[j]) && (is_whitespace(s[j]) || space_after(
            s,
            j,
            start,
        ))
}

/// Where a small backward jump from `start` (not on whitespace) may stop at
/// `p`. From a word char: on punctuation, or on whitespace with a word
/// between it and `start`. From punctuation: on a non-punctuation char when
/// the char before `start` is punctuation too (the start of the current
/// run), or on whitespace when a word char lies between it and `start` or
/// it is itself a word char.
pub open spec fn small_back_stops(s: Seq<char>, start: int, p: int) -> bool {
    if is_alphanumeric(s[start]) {
        is_ascii_punctuation(s[p]) || (is_whitespace(s[p]) && alnum_then_space_after(s, p, start))
    } else {
        (!is_ascii_punctuation(s[p]) && is_ascii_punctuation(s[start - 1])) || (is_whitespace(s[p])
            && (alnum_after(s, p, start) || is_alphanumeric(s[p])))
    }
}

/// Where a small backward jump lands when it stops at `p`: on the
/// punctuation itself when a word jump meets punctuation with the char
/// before `start` not a word char, else just after `p`.
pub open spec fn small_back_lands(s: Seq<char>, start: int, p: int) -> int {
    if is_alphanumeric(s[start]) && is_ascii_punctuation(s[p]) && !is_alphanumeric(s[start - 1]) {
        p
    } else {
        p + 1
    }
}

proof fn lemma_small_back_word_last(s: Seq<char>, start: int, p: int)
    requires
        0 <= p <= start < s.len(),
        0 < start,
        is_alphanumeric(s[start]),
        !is_ascii_punctuation(s[start]),
    ensures
        ({
            let r = small_back(
                s,
                p,
                is_alphanumeric(s[start - 1]),
                true,
                space_after(s, p, start),
                alnum_then_space_after(s, p, start),
            );
            ||| exists|k: int|
                0 <= k <= p && small_back_stops(s, start, k) && r == small_back_lands(s, start, k)
                    && forall|m: int| k < m <= p ==> !#[trigger] small_back_stops(s, start, m)
            ||| r == 0 && forall|m: int| 0 <= m <= p ==> !#[trigger] small_back_stops(s, start, m)
        }),
    decreases p,
{
    let c = s[p];
    if small_back_stops(s, start, p) {
        assert(forall|m: int| p < m <= p ==> !#[trigger] small_back_stops(s, start, m));
    } else if p > 0 {
        assert(space_after(s, p - 1, start) == (space_after(s, p, start) || is_whitespace(c))) by {
            if space_after(s, p - 1, start) {
                let j = choose|j: int| p - 1 < j <= start && is_whitespace(#[trigger] s[j]);
                if j != p {
                    assert(p < j <= start && is_whitespace(s[j]));
                }
            }
            if space_after(s, p, start) {
                let j = choose|j: int| p < j <= start && is_whitespace(#[trigger] s[j]);
                assert(p - 1 < j <= start && is_whitespace(s[j]));
            }
            if is_whitespace(c) {
                assert(p - 1 < p <= start && is_whitespace(s[p]));
            }
        }
        let fws2 = space_after(s, p, start) || is_whitespace(c);
        assert(alnum_then_space_after(s, p - 1, start) == (alnum_then_space_after(s, p, start) || (
        is_alphanumeric(c) && fws2))) by {
            if alnum_then_space_after(s, p - 1, start) {
                let j = choose|j: int|
                    p - 1 < j <= start && is_alphanumeric(#[trigger] s[j]) && (is_whitespace(s[j])
                        || space_after(s, j, start));
                if j != p {
                    assert(p < j <= start && is_alphanumeric(s[j]) && (is_whitespace(s[j])
                        || space_after(s, j, start)));
                }
            }
            if alnum_then_space_after(s, p, start) {
                let j = choose|j: int|
                    p < j <= start && is_alphanumeric(#[trigger] s[j]) && (is_whitespace(s[j])
                        || space_after(s, j, start));
                assert(p - 1 < j <= start && is_alphanumeric(s[j]) && (is_whitespace(s[j])
                    || space_after(s, j, start)));
            }
            if is_alphanumeric(c) && fws2 {
                assert(p - 1 < p <= start && is_alphanumeric(s[p]) && (is_whitespace(s[p])
                    || space_after(s, p, start)));
            }
        }
        lemma_small_back_word_last(s, start, p - 1);
    }
}

proof fn lemma_small_back_punct_last(s: Seq<char>, start: int, p: int)
    requires
        0 <= p <= start < s.len(),
        0 < start,
        !is_alphanumeric(s[start]),
        is_ascii_punctuation(s[start]),
    ensures
        ({
            let r = small_back(
                s,
                p,
                is_ascii_punctuation(s[start - 1]),
                false,
                false,
                alnum_after(s, p, start),
            );
            ||| exists|k: int|
                0 <= k <= p && small_back_stops(s, start, k) && r == small_back_lands(s, start, k)
                    && forall|m: int| k < m <= p ==> !#[trigger] small_back_stops(s, start, m)
            ||| r == 0 && forall|m: int| 0 <= m <= p ==> !#[trigger] small_back_stops(s, start, m)
        }),
    decreases p,
{
    let c = s[p];
    if small_back_stops(s, start, p) {
        assert(forall|m: int| p < m <= p ==> !#[trigger] small_back_stops(s, start, m));
    } else if p > 0 {
        assert(alnum_after(s, p - 1, start) == (alnum_after(s, p, start) || is_alphanumeric(c))) by {
            if alnum_after(s, p - 1, start) {
                let j = choose|j: int| p - 1 < j <= start && is_alphanumeric(#[trigger] s[j]);
                if j != p {
                    assert(p < j <= start && is_alphanumeric(s[j]));
                }
            }
            if alnum_after(s, p, start) {
                let j = choose|j: int| p < j <= start && is_alphanumeric(#[trigger] s[j]);
                assert(p - 1 < j <= start && is_alphanumeric(s[j]));
            }
            if is_alphanumeric(c) {
                assert(p - 1 < p <= start && is_alphanumeric(s[p]));
            }
        }
        lemma_small_back_punct_last(s, start, p - 1);
    }
}

/// A small backward word jump from a word or punctuation char lands where
/// the last place before `start` at which it may stop (`small_back_stops`)
/// says (`small_back_lands`), and at the start of the text when there is
/// none.
pub proof fn law_prev_word_small(s: Seq<char>, start: int)
    requires
        0 < start < s.len(),
        !is_whitespace(s[start]),
        is_alphanumeric(s[start]) != is_ascii_punctuation(s[start]),
    ensures
        ({
            let q = prev_word_stop(s, start, WordSkip::Small);
            ||| exists|k: int|
                0 <= k <= start && small_back_stops(s, start, k) && q == small_back_lands(s, start, k)
                    && forall|m: int| k < m <= start ==> !#[trigger] small_back_stops(s, start, m)
            ||| q == 0 && forall|m: int| 0 <= m <= start ==> !#[trigger] small_back_stops(s, start, m)
        }),
{
    assert(!space_after(s, start, start));
    assert(!alnum_then_space_after(s, start, start));
    assert(!alnum_after(s, start, start));
    if is_alphanumeric(s[start]) {
        lemma_small_back_word_last(s, start, start);
    } else {
        lemma_small_back_punct_last(s, start, start);
    }
}

/// A backward jump lands at or before where it starts.
pub proof fn lemma_prev_word_stop_le(s: Seq<char>, start: int, skip: WordSkip)
    requires
        0 <= start < s.len(),
        prev_word_defined(s, start, skip),
    ensures
        0 <= prev_word_stop(s, start, skip) <= start,
{
    let c = s[start];
    if start > 0 {
        lemma_ws_back_bound(s, start - 1, is_linebreak(c), !is_whitespace(c));
        lemma_ws_back_bound(s, start - 1, is_linebreak(c), false);
        let fws = is_whitespace(c);
        lemma_small_back_bound(s, start - 1, is_alphanumeric(s[start - 1]), true, fws, is_alphanumeric(c) && fws);
        lemma_small_back_bound(s, start - 1, is_ascii_punctuation(s[start - 1]), false, false, is_alphanumeric(c));
        lemma_big_back_bound(s, start - 1, !is_whitespace(s[start - 1]), is_linebreak(c), fws, !is_whitespace(c) && fws);
    }
}

/// Deletes from the start of the current or previous word to the cursor,
/// and moves the cursor there.
pub fn delete_word_prev(text: &mut ropey::Rope, cursor: &mut Cursor) -> (edit: TextEdit)
    requires
        prev_word_ok(rope_chars(*old(text)), *old(cursor), WordSkip::Small),
        ({
            let s = rope_chars(*old(text));
            byte_of(s, line_start(s, old(cursor).y as int)) + old(cursor).x <= usize::MAX
        }),
    ensures
        ({
            let s = rope_chars(*old(text));
            let y = old(cursor).y as int;
            let x = old(cursor).x as int;
            let st = char_at(s, y, x);
            let q = prev_word_stop(s, st, WordSkip::Small);
            let same = breaks_upto(s, q) == y;
            let to = cursor_at(s, q);
            &&& rope_chars(*final(text)) == removed(s, q, st)
            &&& *final(cursor) == to
            &&& edit == (TextEdit {
                start_byte: byte_of(s, q) as usize,
                old_end_byte: (if same {
                    byte_of(s, st)
                } else {
                    byte_of(s, line_start(s, y)) + x
                }) as usize,
                new_end_byte: byte_of(s, q) as usize,
                start_position: edit_point(to.y as int, to.x as int),
                old_end_position: edit_point(y, x),
                new_end_position: edit_point(to.y as int, to.x as int),
            })
        }),
{
    let ghost s = rope_chars(*text);
    let ghost st = char_at(s, cursor.y as int, cursor.x as int);
    let query = find_prev_word(text, cursor, WordSkip::Small);
    proof {
        lemma_prev_word_stop_le(s, st, WordSkip::Small);
        let q = prev_word_stop(s, st, WordSkip::Small);
        lemma_char_line(s, q);
        lemma_line_start(s, breaks_upto(s, q) as int);
    }
    let _ = rope_len_chars(text);
    if !query.is_same_line() {
        let line_start_byte = rope_char_to_byte(text, rope_line_to_char(text, cursor.y));
        let start_char = rope_line_to_char(text, query.end_line()) + query.end_col();
        let end_char = rope_line_to_char(text, cursor.y) + cursor.x;
        let start_byte = rope_char_to_byte(text, start_char);
        let old_end_byte = line_start_byte + cursor.x;
        let new_end_byte = start_byte;
        let start_position = EditPoint { row: query.end_line(), column: query.end_col() };
        let old_end_position = EditPoint { row: cursor.y, column: cursor.x };
        let new_end_position = start_position;
        rope_remove(text, start_char, end_char);
        place_cursor(cursor, query.end_col(), query.end_line());
        return TextEdit {
            start_byte,
            old_end_byte,
            new_end_byte,
            start_position,
            old_end_position,
            new_end_position,
        };
    }
    let start_char = rope_line_to_char(text, query.end_line()) + query.end_col();
    let end_char = rope_line_to_char(text, cursor.y) + cursor.x;
    let start_byte = rope_char_to_byte(text, start_char);
    let old_end_byte = rope_char_to_byte(text, end_char);
    let new_end_byte = start_byte;
    let start_position = EditPoint { row: query.end_line(), column: query.end_col() };
    let old_end_position = EditPoint { row: cursor.y, column: cursor.x };
    let new_end_position = start_position;
    rope_remove(text, start_char, end_char);
    place_cursor(cursor, query.end_col(), query.end_line());
    TextEdit { start_byte, old_end_byte, new_end_byte, start_position, old_end_position, new_end_position }
}

/// Deletes the char under the cursor.
pub fn remove_curr_char(text: &mut ropey::Rope, cursor: &Cursor) -> (edit: TextEdit)
    requires
        cursor.y <= num_lines(rope_chars(*old(text))),
        char_at(rope_chars(*old(text)), cursor.y as int, cursor.x as int) < rope_chars(
            *old(text),
        ).len(),
    ensures
        ({
            let s = rope_chars(*old(text));
            let y = cursor.y as int;
            let x = cursor.x as int;
            let col = char_at(s, y, x);
            &&& rope_chars(*final(text)) == removed(s, col, col + 1)
            &&& edit == (TextEdit {
                start_byte: byte_of(s, col) as usize,
                old_end_byte: byte_of(s, col + 1) as usize,
                new_end_byte: byte_of(s, col) as usize,
                start_position: edit_point(y, x),
                old_end_position: edit_point(y, x + 1),
                new_end_position: edit_point(y, x),
            })
        }),
{
    let _ = rope_len_chars(text);
    let start_char = rope_line_to_char(text, cursor.y);
    let col = start_char + cursor.x;
    let start_byte = rope_char_to_byte(text, col);
    let end_byte = rope_char_to_byte(text, col + 1);
    rope_remove(text, col, col + 1);
    TextEdit {
        start_byte,
        old_end_byte: end_byte,
        // after the deletion the changed text ends where it starts
        new_end_byte: start_byte,
        start_position: EditPoint { row: cursor.y, column: cursor.x },
        old_end_position: EditPoint { row: cursor.y, column: cursor.x + 1 },
        new_end_position: EditPoint { row: cursor.y, column: cursor.x },
    }
}

/// Deletes the char before the cursor, stopping at the start of the line,
/// and moves the cursor back over it.
pub fn remove_prev_char(text: &mut ropey::Rope, cursor: &mut Cursor) -> (edit: Option<TextEdit>)
    requires
        remove_prev_ok(rope_chars(*old(text)), *old(cursor), true),
    ensures
        removes_prev_char(
            rope_chars(*old(text)),
            *old(cursor),
            true,
            rope_chars(*final(text)),
            *final(cursor),
            edit,
        ),
{
    remove_prev_char_inner(text, cursor, true)
}

/// Deletes the char before the cursor, joining with the line above at the
/// start of a line, and moves the cursor back over it.
pub fn remove_prev_char_breaking(text: &mut ropey::Rope, cursor: &mut Cursor) -> (edit: Option<
    TextEdit,
>)
    requires
        remove_prev_ok(rope_chars(*old(text)), *old(cursor), false),
    ensures
        removes_prev_char(
            rope_chars(*old(text)),
            *old(cursor),
            false,
            rope_chars(*final(text)),
            *final(cursor),
            edit,
        ),
{
    remove_prev_char_inner(text, cursor, false)
}

/// The requirements of deleting the char before the cursor.
pub open spec fn remove_prev_ok(s: Seq<char>, c: Cursor, stop_at_linebreak: bool) -> bool {
    &&& c.y <= num_lines(s)
    &&& char_at(s, c.y as int, c.x as int) <= s.len()
    &&& (!stop_at_linebreak && c.x == 0 && c.y > 0) ==> line_len(s, c.y - 1) >= 1
}

/// What deleting the char before the cursor does: nothing at the start of
/// the text (or of a line, when stopping at line breaks); otherwise it
/// removes the char, moves the cursor one left or to the end of the line
/// above, and reports the edit at the moved cursor.
pub open spec fn removes_prev_char(
    s: Seq<char>,
    c: Cursor,
    stop_at_linebreak: bool,
    t: Seq<char>,
    c2: Cursor,
    edit: Option<TextEdit>,
) -> bool {
    if (c.x == 0 && c.y == 0) || (stop_at_linebreak && c.x == 0) {
        t == s && c2 == c && edit is None
    } else {
        let col = char_at(s, c.y as int, c.x as int);
        let from = if col >= 1 { col - 1 } else { 0 };
        let moved = if !stop_at_linebreak && c.x == 0 {
            let len = (line_len(s, c.y - 1) - 1) as usize;
            Cursor { x: len, y: (c.y - 1) as usize, virtual_x: len }
        } else {
            Cursor { x: (c.x - 1) as usize, y: c.y, virtual_x: (c.x - 1) as usize }
        };
        let back = if moved.x >= 1 { moved.x - 1 } else { 0 };
        &&& t == removed(s, from, col)
        &&& c2 == moved
        &&& edit == Some(TextEdit {
            start_byte: byte_of(s, from) as usize,
            old_end_byte: byte_of(s, col) as usize,
            new_end_byte: byte_of(s, from) as usize,
            start_position: edit_point(moved.y as int, back),
            old_end_position: edit_point(moved.y as int, moved.x as int),
            new_end_position: edit_point(moved.y as int, back),
        })
    }
}

fn remove_prev_char_inner(text: &mut ropey::Rope, cursor: &mut Cursor, stop_at_linebreak: bool) -> (edit: Option<TextEdit>)
    requires
        remove_prev_ok(rope_chars(*old(text)), *old(cursor), stop_at_linebreak),
    ensures
        removes_prev_char(
            rope_chars(*old(text)),
            *old(cursor),
            stop_at_linebreak,
            rope_chars(*final(text)),
            *final(cursor),
            edit,
        ),
{
    let ghost s = rope_chars(*text);
    if cursor.x == 0 && cursor.y == 0 {
        return None;
    }
    if stop_at_linebreak && cursor.x == 0 {
        return None;
    }
    let _ = rope_len_chars(text);
    let _ = rope_len_lines(text);
    let start_char = rope_line_to_char(text, cursor.y);
    let col = start_char + cursor.x;
    let from = col.saturating_sub(1);
    proof {
        lemma_utf8_len_mono(s, from as int, col as int);
    }
    let start_byte = rope_char_to_byte(text, from);
    let end_byte = rope_char_to_byte(text, col);
    if !stop_at_linebreak && cursor.x == 0 {
        let prev = cursor.y - 1;
        proof {
            lemma_line_start(s, prev as int);
        }
        let len = rope_line_to_char(text, prev + 1) - rope_line_to_char(text, prev) - 1;
        place_cursor(cursor, len, prev);
    } else {
        cursor.move_left_by(1);
    }
    rope_remove(text, from, col);
    Some(TextEdit {
        start_byte,
        old_end_byte: end_byte,
        new_end_byte: start_byte,
        start_position: EditPoint { row: cursor.y, column: cursor.x.saturating_sub(1) },
        old_end_position: EditPoint { row: cursor.y, column: cursor.x },
        new_end_position: EditPoint { row: cursor.y, column: cursor.x.saturating_sub(1) },
    })
}

/// Splits the line at the cursor with `line_break` and moves the cursor to
/// the start of the new line.
pub fn break_line(text: &mut ropey::Rope, cursor: &mut Cursor, line_break: LineEnding) -> (edit:
    TextEdit)
    requires
        old(cursor).y <= num_lines(rope_chars(*old(text))),
        old(cursor).y < usize::MAX,
        char_at(rope_chars(*old(text)), old(cursor).y as int, old(cursor).x as int) <= rope_chars(
            *old(text),
        ).len(),
        byte_of(
            rope_chars(*old(text)),
            char_at(rope_chars(*old(text)), old(cursor).y as int, old(cursor).x as int),
        ) + line_break.spec_len_bytes() <= usize::MAX,
    ensures
        ({
            let s = rope_chars(*old(text));
            let y = old(cursor).y as int;
            let col = char_at(s, y, old(cursor).x as int);
            let b = byte_of(s, col);
            &&& rope_chars(*final(text)) == s.subrange(0, col) + line_break.spec_str() + s.subrange(
                col,
                s.len() as int,
            )
            &&& *final(cursor) == (Cursor { x: 0, y: (y + 1) as usize, virtual_x: 0 })
            &&& edit == (TextEdit {
                start_byte: b as usize,
                old_end_byte: b as usize,
                new_end_byte: (b + line_break.spec_len_bytes()) as usize,
                start_position: edit_point(y + 1, 0),
                old_end_position: edit_point(y + 1, 0),
                new_end_position: edit_point(y + 1, 0),
            })
        }),
{
    let _ = rope_len_chars(text);
    let _ = rope_len_lines(text);
    proof {
        lemma_breaks_bound(rope_chars(*text), rope_chars(*text).len() as int);
    }
    let start_char = rope_line_to_char(text, cursor.y) + cursor.x;
    let start_byte = rope_char_to_byte(text, start_char);
    let new_end_byte = start_byte + line_break.len_bytes();
    rope_insert(text, start_char, line_break.as_str());
    let y = cursor.y + 1;
    place_cursor(cursor, 0, y);
    TextEdit {
        start_byte,
        old_end_byte: start_byte,
        new_end_byte,
        start_position: EditPoint { row: cursor.y, column: cursor.x },
        old_end_position: EditPoint { row: cursor.y, column: cursor.x },
        new_end_position: EditPoint { row: cursor.y, column: 0 },
    }
}

/// Deletes the line under the cursor; on the last line the cursor moves to
/// the line that becomes last.
pub fn delete_line(text: &mut ropey::Rope, cursor: &mut Cursor) -> (edit: TextEdit)
    requires
        old(cursor).y < num_lines(rope_chars(*old(text))),
        old(cursor).y >= num_lines(rope_chars(*old(text))) - 1 ==> num_lines(
            rope_chars(*old(text)),
        ) >= 2,
    ensures
        ({
            let s = rope_chars(*old(text));
            let y = old(cursor).y as int;
            let n = num_lines(s) as int;
            let ny = if y >= n - 1 { n - 2 } else { y };
            &&& rope_chars(*final(text)) == removed(s, line_start(s, y), line_start(s, y + 1))
            &&& *final(cursor) == (if y >= n - 1 {
                Cursor { x: old(cursor).x, y: (n - 2) as usize, virtual_x: old(cursor).x }
            } else {
                *old(cursor)
            })
            &&& edit == (TextEdit {
                start_byte: byte_of(s, line_start(s, y)) as usize,
                old_end_byte: byte_of(s, line_start(s, y + 1)) as usize,
                new_end_byte: byte_of(s, line_start(s, y)) as usize,
                start_position: edit_point(ny, 0),
                old_end_position: edit_point(ny + 1, 0),
                new_end_position: edit_point(ny, 0),
            })
        }),
{
    proof {
        lemma_line_start(rope_chars(*text), cursor.y as int);
    }
    let total_lines = rope_len_lines(text);
    let line_start_char = rope_line_to_char(text, cursor.y);
    let line_end_char = rope_line_to_char(text, cursor.y + 1);
    let line_start_byte = rope_char_to_byte(text, line_start_char);
    let line_end_byte = rope_char_to_byte(text, line_end_char);
    rope_remove(text, line_start_char, line_end_char);
    if cursor.y >= total_lines - 1 {
        let x = cursor.x;
        place_cursor(cursor, x, total_lines - 2);
    }
    TextEdit {
        start_byte: line_start_byte,
        old_end_byte: line_end_byte,
        new_end_byte: line_start_byte,
        start_position: EditPoint { row: cursor.y, column: 0 },
        // the deleted text ended at the start of the next line
        old_end_position: EditPoint { row: cursor.y + 1, column: 0 },
        new_end_position: EditPoint { row: cursor.y, column: 0 },
    }
}

/// Opens an empty line above the cursor's line.
pub fn insert_line_above(text: &mut ropey::Rope, cursor: &Cursor, line_break: LineEnding) -> (edit: TextEdit)
    requires
        cursor.y <= num_lines(rope_chars(*old(text))),
        cursor.y < usize::MAX,
        byte_of(rope_chars(*old(text)), line_start(rope_chars(*old(text)), cursor.y as int))
            + line_break.spec_len_bytes() <= usize::MAX,
    ensures
        ({
            let s = rope_chars(*old(text));
            let y = cursor.y as int;
            let ls = line_start(s, y);
            let b = byte_of(s, ls);
            &&& rope_chars(*final(text)) == s.subrange(0, ls) + line_break.spec_str() + s.subrange(
                ls,
                s.len() as int,
            )
            &&& edit == (TextEdit {
                start_byte: b as usize,
                old_end_byte: b as usize,
                new_end_byte: (b + line_break.spec_len_bytes()) as usize,
                start_position: edit_point(y, 0),
                old_end_position: edit_point(y, 0),
                new_end_position: edit_point(y + 1, 0),
            })
        }),
{
    let _ = rope_len_lines(text);
    let _ = rope_len_chars(text);
    proof {
        lemma_breaks_bound(rope_chars(*text), rope_chars(*text).len() as int);
        if cursor.y < num_lines(rope_chars(*text)) {
            lemma_line_start(rope_chars(*text), cursor.y as int);
        } else {
            lemma_line_start(rope_chars(*text), cursor.y - 1);
        }
    }
    let line_start_char = rope_line_to_char(text, cursor.y);
    let line_start_byte = rope_char_to_byte(text, line_start_char);
    let new_end_byte = line_start_byte + line_break.len_bytes();
    rope_insert(text, line_start_char, line_break.as_str());
    TextEdit {
        start_byte: line_start_byte,
        old_end_byte: line_start_byte,
        new_end_byte,
        start_position: EditPoint { row: cursor.y, column: 0 },
        old_end_position: EditPoint { row: cursor.y, column: 0 },
        new_end_position: EditPoint { row: cursor.y + 1, column: 0 },
    }
}

/// Opens an empty line below the cursor's line. The edit's rows count from
/// the line the cursor then moves down to, the new empty line.
pub fn insert_line_below(text: &mut ropey::Rope, cursor: &Cursor, line_break: LineEnding) -> (edit: TextEdit)
    requires
        cursor.y < num_lines(rope_chars(*old(text))),
        cursor.y + 3 <= usize::MAX,
        byte_of(rope_chars(*old(text)), line_start(rope_chars(*old(text)), cursor.y + 1))
            + line_break.spec_len_bytes() <= usize::MAX,
    ensures
        ({
            let s = rope_chars(*old(text));
            let y = cursor.y as int;
            let ls = line_start(s, y + 1);
            let b = byte_of(s, ls);
            &&& rope_chars(*final(text)) == s.subrange(0, ls) + line_break.spec_str() + s.subrange(
                ls,
                s.len() as int,
            )
            &&& edit == (TextEdit {
                start_byte: b as usize,
                old_end_byte: b as usize,
                new_end_byte: (b + line_break.spec_len_bytes()) as usize,
                start_position: edit_point(y + 2, 0),
                old_end_position: edit_point(y + 2, 0),
                new_end_position: edit_point(y + 3, 0),
            })
        }),
{
    let _ = rope_len_lines(text);
    let _ = rope_len_chars(text);
    proof {
        lemma_line_start(rope_chars(*text), cursor.y as int);
    }
    let line_start_char = rope_line_to_char(text, cursor.y + 1);
    let line_start_byte = rope_char_to_byte(text, line_start_char);
    let new_end_byte = line_start_byte + line_break.len_bytes();
    rope_insert(text, line_start_char, line_break.as_str());
    let moved_y = cursor.y + 1;
    TextEdit {
        start_byte: line_start_byte,
        old_end_byte: line_start_byte,
        new_end_byte,
        start_position: EditPoint { row: moved_y + 1, column: 0 },
        old_end_position: EditPoint { row: moved_y + 1, column: 0 },
        new_end_position: EditPoint { row: moved_y + 2, column: 0 },
    }
}

/// Types `ch` at the cursor. The cursor then moves right past it.
pub fn insert_char(text: &mut ropey::Rope, cursor: &Cursor, ch: char) -> (edit: TextEdit)
    requires
        cursor.y <= num_lines(rope_chars(*old(text))),
        line_start(rope_chars(*old(text)), cursor.y as int) + cursor.x <= rope_chars(*old(text)).len(),
        cursor.x < usize::MAX,
        ({
            let s = rope_chars(*old(text));
            let s2 = s.insert(line_start(s, cursor.y as int) + cursor.x, ch);
            byte_of(s2, line_start(s2, cursor.y as int) + cursor.x) + utf8_width(ch) <= usize::MAX
        }),
    ensures
        ({
            let s = rope_chars(*old(text));
            let at = line_start(s, cursor.y as int) + cursor.x;
            let s2 = s.insert(at, ch);
            let start = line_start(s2, cursor.y as int) + cursor.x;
            let b = byte_of(s2, start);
            &&& rope_chars(*final(text)) == s2
            &&& 0 <= start <= s2.len()
            &&& edit == (TextEdit {
                start_byte: b as usize,
                old_end_byte: b as usize,
                new_end_byte: (b + utf8_width(ch)) as usize,
                start_position: edit_point(cursor.y as int, cursor.x as int),
                old_end_position: edit_point(cursor.y as int, cursor.x as int),
                new_end_position: edit_point(cursor.y as int, cursor.x + 1),
            })
        }),
{
    let _ = rope_len_chars(text);
    let ghost s = rope_chars(*text);
    let char_position = rope_line_to_char(text, cursor.y) + cursor.x;
    crate::text::rope_insert_char(text, char_position, ch);
    proof {
        crate::text::lemma_insert_keeps_breaks(s, char_position as int, ch, s.len() as int);
    }
    let _ = rope_len_lines(text);
    let _ = rope_len_chars(text);
    proof {
        let s2 = rope_chars(*text);
        let ls = line_start(s, cursor.y as int);
        lemma_breaks_bound(s, s.len() as int);
        if cursor.y < num_lines(s) {
            lemma_line_start(s, cursor.y as int);
        } else {
            lemma_line_start(s, cursor.y - 1);
        }
        if cursor.y < num_lines(s) && ls + 1 <= s2.len() {
            if ls < char_position {
                crate::text::lemma_insert_keeps_breaks(s, char_position as int, ch, ls);
                crate::text::lemma_first_at_least_before(s2, cursor.y as nat, 0, ls);
            } else {
                crate::text::lemma_insert_keeps_breaks(s, char_position as int, ch, ls);
                crate::text::lemma_first_at_least_before(s2, cursor.y as nat, 0, ls + 1);
            }
        }
        crate::text::lemma_first_at_least(s2, cursor.y as nat, 0);
    }
    let start_char = rope_line_to_char(text, cursor.y) + cursor.x;
    let start_byte = rope_char_to_byte(text, start_char);
    let width = char_len_utf8(ch);
    TextEdit {
        start_byte,
        old_end_byte: start_byte,
        new_end_byte: start_byte + width,
        start_position: EditPoint { row: cursor.y, column: cursor.x },
        old_end_position: EditPoint { row: cursor.y, column: cursor.x },
        new_end_position: EditPoint { row: cursor.y, column: cursor.x + 1 },
    }
}

/// Scrolls down so that the cursor's line is the last one shown in `area`,
/// if it is below it.
pub fn snap_scroll_down(cursor: &Cursor, window: &mut Window, area: Rect)
    requires
        cursor.y >= old(window).spec_scroll().y,
        area.height > 0 || cursor.y < usize::MAX,
    ensures
        final(window).spec_scroll() == (if cursor.y - old(window).spec_scroll().y >= area.height {
            Point { x: old(window).spec_scroll().x, y: (cursor.y - area.height + 1) as usize }
        } else {
            old(window).spec_scroll()
        }),
        area.height > 0 ==> (final(window).spec_scroll().y <= cursor.y && cursor.y < final(window).spec_scroll().y + area.height),
        final(window).spec_area() == old(window).spec_area(),
        final(window).spec_id() == old(window).spec_id(),
        final(window).spec_document() == old(window).spec_document(),
        final(window).spec_selection() == old(window).spec_selection(),
{
    if cursor.y - window.scroll().y >= area.height as usize {
        window.scroll_y_to((cursor.y - area.height as usize) + 1);
    }
}

/// Scrolls up to the cursor's line, if it is above the first line shown.
pub fn snap_scroll_up(cursor: &Cursor, window: &mut Window)
    ensures
        final(window).spec_scroll() == (if cursor.y <= old(window).spec_scroll().y {
            Point { x: old(window).spec_scroll().x, y: cursor.y }
        } else {
            old(window).spec_scroll()
        }),
        final(window).spec_scroll().y <= cursor.y,
        final(window).spec_area() == old(window).spec_area(),
        final(window).spec_id() == old(window).spec_id(),
        final(window).spec_document() == old(window).spec_document(),
        final(window).spec_selection() == old(window).spec_selection(),
{
    if cursor.y.saturating_sub(window.scroll().y) == 0 {
        let scroll_y = window.scroll().y;
        window.scroll_y_to(scroll_y - (scroll_y - cursor.y));
    }
}

/// Moves the cursor past the last char of the text and scrolls to it.
pub fn move_to_eof(text: &ropey::Rope, cursor: &mut Cursor, window: &mut Window)
    requires
        num_lines(rope_chars(*text)) - 1 >= old(window).spec_scroll().y,
        old(window).spec_area().height > 0 || num_lines(rope_chars(*text)) <= usize::MAX,
    ensures
        ({
            let s = rope_chars(*text);
            let y = num_lines(s) - 1;
            let x = line_len(s, y);
            *final(cursor) == (Cursor { x: x as usize, y: y as usize, virtual_x: x as usize })
        }),
        final(window).spec_scroll() == (if final(cursor).y - old(window).spec_scroll().y >= old(
            window,
        ).spec_area().height {
            Point {
                x: old(window).spec_scroll().x,
                y: (final(cursor).y - old(window).spec_area().height + 1) as usize,
            }
        } else {
            old(window).spec_scroll()
        }),
        final(window).spec_area() == old(window).spec_area(),
{
    let area = window.area();
    let y = rope_len_lines(text) - 1;
    proof {
        lemma_line_start(rope_chars(*text), y as int);
    }
    let x = rope_line_to_char(text, y + 1) - rope_line_to_char(text, y);
    place_cursor(cursor, x, y);
    snap_scroll_down(cursor, window, area);
}

/// Moves the cursor to the start of the text and scrolls to it.
pub fn move_to_sof(cursor: &mut Cursor, window: &mut Window)
    ensures
        *final(cursor) == (Cursor { x: 0, y: 0, virtual_x: 0 }),
        final(window).spec_scroll() == (Point { x: old(window).spec_scroll().x, y: 0 }),
        final(window).spec_area() == old(window).spec_area(),
{
    place_cursor(cursor, 0, 0);
    snap_scroll_up(cursor, window);
}

/// Moves the cursor to the start of its line.
pub fn move_to_sol(cursor: &mut Cursor)
    ensures
        *final(cursor) == (Cursor { x: 0, y: old(cursor).y, virtual_x: 0 }),
{
    let y = cursor.y;
    place_cursor(cursor, 0, y);
}

/// Moves the cursor to the last char before the line break of its line.
pub fn move_to_eol(text: &ropey::Rope, cursor: &mut Cursor)
    requires
        old(cursor).y < num_lines(rope_chars(*text)),
        line_len(rope_chars(*text), old(cursor).y as int) >= 2,
    ensures
        ({
            let x = (line_len(rope_chars(*text), old(cursor).y as int) - 2) as usize;
            *final(cursor) == (Cursor { x, y: old(cursor).y, virtual_x: x })
        }),
{
    let _ = rope_len_lines(text);
    proof {
        lemma_line_start(rope_chars(*text), cursor.y as int);
    }
    let line_len = rope_line_to_char(text, cursor.y + 1) - rope_line_to_char(text, cursor.y);
    let y = cursor.y;
    place_cursor(cursor, line_len - 2, y);
}

/// Moves the cursor half a window down, stopping at the last line, and
/// scrolls to it.
pub fn page_down(text: &ropey::Rope, cursor: &mut Cursor, window: &mut Window)
    requires
        old(cursor).y + old(window).spec_area().height / 2 <= usize::MAX,
        ({
            let target = old(cursor).y + old(window).spec_area().height / 2;
            let last = num_lines(rope_chars(*text)) - 1;
            (if target <= last { target } else { last }) >= old(window).spec_scroll().y
        }),
        old(window).spec_area().height > 0 || num_lines(rope_chars(*text)) <= usize::MAX,
    ensures
        ({
            let target = old(cursor).y + old(window).spec_area().height / 2;
            let last = num_lines(rope_chars(*text)) - 1;
            let next = (if target <= last { target } else { last }) as usize;
            *final(cursor) == (Cursor { x: old(cursor).x, y: next, virtual_x: old(cursor).x })
        }),
        final(window).spec_scroll() == (if final(cursor).y - old(window).spec_scroll().y >= old(
            window,
        ).spec_area().height {
            Point {
                x: old(window).spec_scroll().x,
                y: (final(cursor).y - old(window).spec_area().height + 1) as usize,
            }
        } else {
            old(window).spec_scroll()
        }),
        final(window).spec_area() == old(window).spec_area(),
{
    let area = window.area();
    let max_line = rope_len_lines(text);
    let half_page = area.height / 2;
    let target = cursor.y + half_page as usize;
    let next_stop = if target <= max_line - 1 { target } else { max_line - 1 };
    let x = cursor.x;
    place_cursor(cursor, x, next_stop);
    snap_scroll_down(cursor, window, area);
}

/// Moves the cursor half a window up, stopping at the first line, and
/// scrolls to it.
pub fn page_up(cursor: &mut Cursor, window: &mut Window)
    ensures
        ({
            let half = old(window).spec_area().height / 2;
            let next = (if old(cursor).y >= half { old(cursor).y - half } else { 0 }) as usize;
            *final(cursor) == (Cursor { x: old(cursor).x, y: next, virtual_x: old(cursor).x })
        }),
        final(window).spec_scroll() == (if final(cursor).y <= old(window).spec_scroll().y {
            Point { x: old(window).spec_scroll().x, y: final(cursor).y }
        } else {
            old(window).spec_scroll()
        }),
        final(window).spec_area() == old(window).spec_area(),
{
    let area = window.area();
    let half_page = area.height / 2;
    let next_stop = cursor.y.saturating_sub(half_page as usize);
    let x = cursor.x;
    place_cursor(cursor, x, next_stop);
    snap_scroll_up(cursor, window);
}

/// The directions of cursor moves.
#[derive(Debug, Clone, Copy, PartialEq, Eq, Structural)]
pub enum Direction {
    Left,
    Down,
    Up,
    Right,
}

/// After the cursor moved in `dir`, scrolls the window one step when the
/// cursor left its area (keeping `scroll_offset` lines of margin vertically).
pub fn follow_cursor(cursor: &Cursor, window: &mut Window, dir: Direction, scroll_offset: usize)
    requires
        dir == Direction::Down ==> cursor.y >= old(window).spec_scroll().y && cursor.y - old(
            window,
        ).spec_scroll().y + scroll_offset <= usize::MAX && old(window).spec_scroll().y
            < usize::MAX,
        dir == Direction::Up ==> old(window).spec_scroll().y + scroll_offset <= usize::MAX,
        dir == Direction::Right ==> cursor.x >= old(window).spec_scroll().x && old(
            window,
        ).spec_scroll().x < usize::MAX,
    ensures
        ({
            let sc = old(window).spec_scroll();
            let area = old(window).spec_area();
            final(window).spec_scroll() == match dir {
                Direction::Left => if cursor.x < sc.x {
                    Point { x: (sc.x - 1) as usize, y: sc.y }
                } else {
                    sc
                },
                Direction::Down => if cursor.y - sc.y + scroll_offset >= area.height {
                    Point { x: sc.x, y: (sc.y + 1) as usize }
                } else {
                    sc
                },
                Direction::Up => if cursor.y < sc.y + scroll_offset {
                    Point { x: sc.x, y: (if sc.y > 0 { sc.y - 1 } else { 0 }) as usize }
                } else {
                    sc
                },
                Direction::Right => if cursor.x - sc.x >= area.width {
                    Point { x: (sc.x + 1) as usize, y: sc.y }
                } else {
                    sc
                },
            }
        }),
        final(window).spec_area() == old(window).spec_area(),
{
    let area = window.area();
    match dir {
        Direction::Left => {
            if cursor.x.checked_sub(window.scroll().x).is_none() {
                window.scroll_left();
            }
        },
        Direction::Down => {
            if cursor.y - window.scroll().y + scroll_offset >= area.height as usize {
                window.scroll_down();
            }
        },
        Direction::Up => {
            if cursor.y.checked_sub(window.scroll().y + scroll_offset).is_none() {
                window.scroll_up();
            }
        },
        Direction::Right => {
            if cursor.x - window.scroll().x >= area.width as usize {
                window.scroll_right();
            }
        },
    }
}

/// The position of the first char at or after `i` that is not white space.
pub open spec fn skip_ws_from(s: Seq<char>, i: int) -> int
    decreases s.len() - i,
{
    if 0 <= i < s.len() && is_whitespace(s[i]) {
        skip_ws_from(s, i + 1)
    } else {
        i
    }
}

/// `s` without its leading white space.
pub open spec fn trim_start(s: Seq<char>) -> Seq<char> {
    s.subrange(skip_ws_from(s, 0), s.len() as int)
}

/// The line that the line below the cursor's is joined with: its chars
/// up to its line break (a CRLF break loses only its LF), or up to the end
/// of the text for the last line.
pub open spec fn joined_end(s: Seq<char>, y: int) -> int {
    if y + 2 < num_lines(s) {
        line_start(s, y + 2) - 1
    } else {
        s.len() as int
    }
}

/// What joining the line below line `y` puts in place of the line break:
/// a space, then the next line without its leading white space.
pub open spec fn join_content(s: Seq<char>, y: int) -> Seq<char> {
    seq![' '] + trim_start(s.subrange(line_start(s, y + 1), joined_end(s, y)))
}

/// The text once the last char of line `y`'s break and the next line up to
/// its own break are removed.
pub open spec fn join_removed(s: Seq<char>, y: int) -> Seq<char> {
    removed(s, line_start(s, y + 1) - 1, joined_end(s, y))
}

/// Where the content goes in the text `r` left by the removal: before the
/// last char of line `y` there.
pub open spec fn join_at(r: Seq<char>, y: int) -> int {
    line_start(r, y) + line_len(r, y) - 1
}

/// The text once line `y` is joined with the next one.
pub open spec fn joined(s: Seq<char>, y: int) -> Seq<char> {
    let r = join_removed(s, y);
    let at = join_at(r, y);
    r.subrange(0, at) + join_content(s, y) + r.subrange(at, r.len() as int)
}

/// The requirements of joining line `y` with the next one: the lines that
/// are measured exist and are not empty, and the byte offsets fit.
pub open spec fn join_ok(s: Seq<char>, y: int) -> bool {
    let r = join_removed(s, y);
    &&& y < num_lines(r)
    &&& line_len(r, y) >= 1
    &&& y < num_lines(joined(s, y))
    &&& line_len(joined(s, y), y) >= 1
    &&& byte_of(s, line_start(s, y + 1) - 1) + utf8_len(join_content(s, y)) <= usize::MAX
    &&& line_len(joined(s, y), y) - 1 + join_content(s, y).len() <= usize::MAX
}

/// `" "` and the chars of the rope from `from` to `to` without the leading
/// white space, with its UTF-8 length.
fn join_content_of(text: &ropey::Rope, from: usize, to: usize) -> (r: (String, usize))
    requires
        from <= to <= rope_chars(*text).len(),
        utf8_len(seq![' '] + trim_start(rope_chars(*text).subrange(from as int, to as int)))
            <= usize::MAX,
    ensures
        r.0@ == seq![' '] + trim_start(rope_chars(*text).subrange(from as int, to as int)),
        r.1 == utf8_len(r.0@),
{
    let ghost s = rope_chars(*text);
    let ghost sub = s.subrange(from as int, to as int);
    let ghost whole = seq![' '] + trim_start(sub);
    let mut t = from;
    while t < to && char_is_whitespace(rope_char(text, t))
        invariant
            from <= t <= to,
            to <= s.len(),
            s == rope_chars(*text),
            sub == s.subrange(from as int, to as int),
            skip_ws_from(sub, t - from) == skip_ws_from(sub, 0),
        decreases to - t,
    {
        assert(sub[t - from] == s[t as int]);
        t += 1;
    }
    proof {
        if t < to {
            assert(sub[t - from] == s[t as int]);
        }
        assert(skip_ws_from(sub, t - from) == t - from);
    }
    let mut content = String::new();
    string_push(&mut content, ' ');
    let mut bytes: usize = 1;
    let mut k = t;
    assert(content@ =~= whole.subrange(0, 1));
    assert(utf8_len(seq![' ']) == 1) by {
        assert(seq![' '].drop_last() =~= Seq::<char>::empty());
        assert(seq![' '].last() == ' ');
        assert((' ' as u32) < 0x80);
        assert(utf8_width(' ') == 1);
        assert(utf8_len(Seq::<char>::empty()) == 0);
    }
    while k < to
        invariant
            from <= t <= k <= to,
            to <= s.len(),
            s == rope_chars(*text),
            sub == s.subrange(from as int, to as int),
            skip_ws_from(sub, 0) == t - from,
            whole == seq![' '] + trim_start(sub),
            whole.len() == 1 + to - t,
            content@ == whole.subrange(0, 1 + k - t),
            bytes == utf8_len(content@),
            utf8_len(whole) <= usize::MAX,
        decreases to - k,
    {
        let c = rope_char(text, k);
        proof {
            assert(trim_start(sub)[k - t] == sub[k - from]);
            assert(sub[k - from] == s[k as int]);
            assert(whole[1 + k - t] == c);
            assert(whole.subrange(0, 1 + k - t + 1).drop_last() =~= whole.subrange(0, 1 + k - t));
            crate::command::lemma_utf8_len_mono(whole, 1 + k - t + 1, whole.len() as int);
            assert(whole.subrange(0, whole.len() as int) =~= whole);
        }
        let w = char_len_utf8(c);
        string_push(&mut content, c);
        assert(content@ =~= whole.subrange(0, 1 + k - t + 1));
        bytes = bytes + w;
        k += 1;
    }
    assert(whole.subrange(0, 1 + to - t) =~= whole);
    (content, bytes)
}

/// Joins the line below the cursor's onto it, with a space between and
/// the next line's leading white space dropped; nothing on the last line.
pub fn join_line_below(text: &mut ropey::Rope, cursor: &Cursor) -> (edit: Option<TextEdit>)
    requires
        cursor.y < num_lines(rope_chars(*old(text))) - 1 ==> join_ok(
            rope_chars(*old(text)),
            cursor.y as int,
        ),
    ensures
        ({
            let s = rope_chars(*old(text));
            let y = cursor.y as int;
            if y >= num_lines(s) - 1 {
                &&& edit is None
                &&& rope_chars(*final(text)) == s
            } else {
                let s2 = joined(s, y);
                let nls = line_start(s, y + 1);
                let content = join_content(s, y);
                let col = line_len(s2, y) - 1;
                &&& rope_chars(*final(text)) == s2
                &&& edit == Some(
                    TextEdit {
                        start_byte: byte_of(s, nls - 1) as usize,
                        old_end_byte: byte_of(s, joined_end(s, y)) as usize,
                        new_end_byte: (byte_of(s, nls - 1) + utf8_len(content)) as usize,
                        start_position: edit_point(y, col),
                        old_end_position: edit_point(y + 1, joined_end(s, y) - nls),
                        new_end_position: edit_point(y, col + content.len()),
                    },
                )
            }
        }),
{
    let ghost s = rope_chars(*text);
    let len_lines = rope_len_lines(text);
    if cursor.y >= len_lines - 1 {
        return None;
    }
    let curr_line_idx = cursor.y;
    let next_line_idx = cursor.y + 1;
    proof {
        lemma_line_start(s, curr_line_idx as int);
        lemma_line_start(s, next_line_idx as int);
        if next_line_idx + 1 < len_lines {
            lemma_line_start(s, next_line_idx + 1);
        }
    }
    let line_start = rope_line_to_char(text, curr_line_idx);
    let next_line_start = rope_line_to_char(text, next_line_idx);
    proof {
        lemma_line_break_len(s, curr_line_idx as int);
        if next_line_idx + 1 < len_lines {
            lemma_line_break_len(s, next_line_idx as int);
        }
    }
    let next_line_end = if next_line_idx + 1 < len_lines {
        rope_line_to_char(text, next_line_idx + 1) - 1
    } else {
        rope_len_chars(text)
    };
    let curr_len = next_line_start - line_start;
    let join = line_start + curr_len - 1;
    proof {
        lemma_utf8_len_mono(s, join as int, next_line_end as int);
    }
    let start_byte = rope_char_to_byte(text, join);
    let end_byte = rope_char_to_byte(text, next_line_end);
    let (new_content, new_content_bytes) = join_content_of(text, next_line_start, next_line_end);
    let next_line_chars = next_line_end - next_line_start;
    rope_remove(text, join, next_line_end);
    let ghost r = rope_chars(*text);
    proof {
        lemma_line_start(r, curr_line_idx as int);
    }
    let at = rope_line_to_char(text, curr_line_idx + 1) - 1;
    assert(at == join_at(r, curr_line_idx as int));
    rope_insert(text, at, new_content.as_str());
    proof {
        assert(rope_chars(*text) =~= joined(s, curr_line_idx as int));
        lemma_line_start(rope_chars(*text), curr_line_idx as int);
    }
    let col = rope_line_to_char(text, curr_line_idx + 1) - rope_line_to_char(text, curr_line_idx) - 1;
    let content_chars = new_content.unicode_len();
    Some(
        TextEdit {
            start_byte,
            old_end_byte: end_byte,
            new_end_byte: start_byte + new_content_bytes,
            start_position: EditPoint { row: curr_line_idx, column: col },
            old_end_position: EditPoint { row: next_line_idx, column: next_line_chars },
            new_end_position: EditPoint { row: curr_line_idx, column: col + content_chars },
        },
    )
}

/// A line that is followed by another ends with a line break, so it holds
/// at least one char.
pub proof fn lemma_line_break_len(s: Seq<char>, l: int)
    requires
        0 <= l < num_lines(s) - 1,
    ensures
        line_start(s, l) < line_start(s, l + 1),
{
    lemma_line_start(s, l);
    lemma_line_start(s, l + 1);
}

} // verus!
