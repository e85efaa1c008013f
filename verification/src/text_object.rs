//! A document's text with the motions of the editor: matching brackets,
//! paragraphs, word boundaries and single-char edits.
use vstd::prelude::*;

use crate::geometry::Point;
use crate::text::{
    breaks_upto, char_is_alphanumeric, char_is_whitespace, is_alphanumeric, is_whitespace,
    lemma_char_line, lemma_line_start, line_chars, line_len, line_start, num_lines, rope_char,
    rope_char_to_line, rope_chars, rope_from_str, rope_insert_char, rope_len_chars, rope_len_lines,
    rope_line_to_char, rope_remove, rope_to_string, string_push,
};

verus! {

/// Opening brackets.
pub open spec fn is_opening(c: char) -> bool {
    c == '(' || c == '{' || c == '[' || c == '<'
}

/// Closing brackets.
pub open spec fn is_closing(c: char) -> bool {
    c == ')' || c == '}' || c == ']' || c == '>'
}

pub open spec fn is_pairable(c: char) -> bool {
    is_opening(c) || is_closing(c)
}

/// `c` closes `needle`, or opens it.
pub open spec fn matches_pair(needle: char, c: char) -> bool {
    (needle == '(' && c == ')') || (needle == '{' && c == '}') || (needle == '[' && c == ']') || (
    needle == '<' && c == '>') || (needle == ')' && c == '(') || (needle == '}' && c == '{') || (
    needle == ']' && c == '[') || (needle == '>' && c == '<')
}

/// Chars of identifiers.
pub open spec fn word_char(c: char) -> bool {
    is_alphanumeric(c) || c == '_'
}

/// Chars that are neither whitespace nor of identifiers.
pub open spec fn punct_char(c: char) -> bool {
    !is_whitespace(c) && !word_char(c)
}

/// The column and line of char index `q`.
pub open spec fn position_of(s: Seq<char>, q: int) -> Point<usize> {
    Point {
        x: (q - line_start(s, breaks_upto(s, q) as int)) as usize,
        y: breaks_upto(s, q) as usize,
    }
}

/// Scanning forward from `i` with `depth` brackets open, the index at which
/// the count of `pair` minus the count of its partner drops to zero.
pub open spec fn forward_match(s: Seq<char>, pair: char, i: int, depth: int) -> Option<int>
    decreases s.len() - i,
{
    if i < 0 || i >= s.len() {
        None
    } else {
        let d = depth + (if s[i] == pair {
            1int
        } else {
            0int
        }) - (if matches_pair(pair, s[i]) {
            1int
        } else {
            0int
        });
        if d == 0 {
            Some(i)
        } else {
            forward_match(s, pair, i + 1, d)
        }
    }
}

/// The same count scanning backward from `i` down to the start.
pub open spec fn backward_match(s: Seq<char>, pair: char, i: int, depth: int) -> Option<int>
    decreases i + 1,
{
    if i < 0 || i >= s.len() {
        None
    } else {
        let d = depth + (if s[i] == pair {
            1int
        } else {
            0int
        }) - (if matches_pair(pair, s[i]) {
            1int
        } else {
            0int
        });
        if d == 0 {
            Some(i)
        } else {
            backward_match(s, pair, i - 1, d)
        }
    }
}

/// The first index in `i..end` whose char is a bracket.
pub open spec fn first_pairable(s: Seq<char>, i: int, end: int) -> Option<int>
    decreases end - i,
{
    if i >= end || i < 0 || i >= s.len() {
        None
    } else if is_pairable(s[i]) {
        Some(i)
    } else {
        first_pairable(s, i + 1, end)
    }
}

/// Where `find_matching_pair` goes from `point`: the first bracket at or
/// after the point on its line is matched, forward for an opening one and
/// backward for a closing one; with no bracket or no match, the point stays.
pub open spec fn matching_pair_of(s: Seq<char>, point: Point<usize>) -> Point<usize> {
    let ls = line_start(s, point.y as int);
    match first_pairable(s, ls + point.x, line_start(s, point.y + 1)) {
        None => point,
        Some(start) => {
            let pair = s[start];
            let found = if is_opening(pair) {
                forward_match(s, pair, start, 0)
            } else {
                backward_match(s, pair, start, 0)
            };
            match found {
                Some(q) => position_of(s, q),
                None => point,
            }
        },
    }
}

/// The first index in `i..end` whose char is not whitespace.
pub open spec fn first_non_ws(s: Seq<char>, i: int, end: int) -> Option<int>
    decreases end - i,
{
    if i >= end || i < 0 || i >= s.len() {
        None
    } else if !is_whitespace(s[i]) {
        Some(i)
    } else {
        first_non_ws(s, i + 1, end)
    }
}

/// The last index in `start..i` whose char is not whitespace.
pub open spec fn last_non_ws(s: Seq<char>, start: int, i: int) -> Option<int>
    decreases i - start,
{
    if i <= start || i > s.len() {
        None
    } else if !is_whitespace(s[i - 1]) {
        Some(i - 1)
    } else {
        last_non_ws(s, start, i - 1)
    }
}

/// The search for the first non-blank char in `i..end` finds the first
/// index there whose char is not whitespace, and none when every char there
/// is whitespace.
pub proof fn law_first_non_ws_is_first(s: Seq<char>, i: int, end: int)
    requires
        0 <= i,
        end <= s.len(),
    ensures
        first_non_ws(s, i, end) matches Some(q) ==> i <= q < end && !is_whitespace(s[q])
            && forall|j: int| i <= j < q ==> is_whitespace(#[trigger] s[j]),
        first_non_ws(s, i, end) is None ==> forall|j: int| i <= j < end ==> is_whitespace(#[trigger] s[j]),
    decreases end - i,
{
    if i < end {
        law_first_non_ws_is_first(s, i + 1, end);
    }
}

/// The search for the last non-blank char in `start..i` finds the last
/// index there whose char is not whitespace, and none when every char
/// there is whitespace.
pub proof fn law_last_non_ws_is_last(s: Seq<char>, start: int, i: int)
    requires
        0 <= start,
        i <= s.len(),
    ensures
        last_non_ws(s, start, i) matches Some(q) ==> start <= q < i && !is_whitespace(s[q])
            && forall|j: int| q < j < i ==> is_whitespace(#[trigger] s[j]),
        last_non_ws(s, start, i) is None ==> forall|j: int| start <= j < i ==> is_whitespace(#[trigger] s[j]),
    decreases i - start,
{
    if i > start {
        law_last_non_ws_is_last(s, start, i - 1);
    }
}

/// Line `l` is an empty line: it holds just an LF.
pub open spec fn is_blank_line(s: Seq<char>, l: int) -> bool {
    line_len(s, l) == 1 && s[line_start(s, l)] == '\n'
}

/// The first blank line in `l..end`.
pub open spec fn next_blank_line(s: Seq<char>, l: int, end: int) -> Option<int>
    decreases end - l,
{
    if l >= end {
        None
    } else if is_blank_line(s, l) {
        Some(l)
    } else {
        next_blank_line(s, l + 1, end)
    }
}

/// The last blank line below `l`.
pub open spec fn prev_blank_line(s: Seq<char>, l: int) -> Option<int>
    decreases l,
{
    if l <= 0 {
        None
    } else if is_blank_line(s, l - 1) {
        Some(l - 1)
    } else {
        prev_blank_line(s, l - 1)
    }
}

proof fn lemma_blank_line_is_lone_lf(s: Seq<char>, m: int)
    requires
        0 <= m < num_lines(s),
    ensures
        is_blank_line(s, m) <==> line_chars(s, m) == seq!['\n'],
{
    lemma_line_start(s, m);
    if is_blank_line(s, m) {
        assert(line_chars(s, m) =~= seq!['\n']);
    }
    if line_chars(s, m) == seq!['\n'] {
        assert(line_chars(s, m).len() == 1);
        assert(line_chars(s, m)[0] == seq!['\n'][0]);
        assert(line_chars(s, m)[0] == s[line_start(s, m)]);
    }
}

/// The forward paragraph motion stops on the first line in `from..end`
/// that holds nothing but an LF, and on none when there is no such line.
pub proof fn law_next_paragraph_stops_at_lone_lf(s: Seq<char>, from: int, end: int)
    requires
        0 <= from,
        end <= num_lines(s),
    ensures
        next_blank_line(s, from, end) matches Some(l) ==> {
            &&& from <= l < end
            &&& line_chars(s, l) == seq!['\n']
            &&& forall|m: int| from <= m < l ==> #[trigger] line_chars(s, m) != seq!['\n']
        },
        next_blank_line(s, from, end) is None ==> forall|m: int|
            from <= m < end ==> #[trigger] line_chars(s, m) != seq!['\n'],
    decreases end - from,
{
    if from < end {
        lemma_blank_line_is_lone_lf(s, from);
        law_next_paragraph_stops_at_lone_lf(s, from + 1, end);
    }
}

/// The backward paragraph motion from line `l` stops on the last line
/// before `l` that holds nothing but an LF, and on none when there is no
/// such line.
pub proof fn law_prev_paragraph_stops_at_lone_lf(s: Seq<char>, l: int)
    requires
        l <= num_lines(s),
    ensures
        prev_blank_line(s, l) matches Some(k) ==> {
            &&& 0 <= k < l
            &&& line_chars(s, k) == seq!['\n']
            &&& forall|m: int| k < m < l ==> #[trigger] line_chars(s, m) != seq!['\n']
        },
        prev_blank_line(s, l) is None ==> forall|m: int|
            0 <= m < l ==> #[trigger] line_chars(s, m) != seq!['\n'],
    decreases l,
{
    if l > 0 {
        lemma_blank_line_is_lone_lf(s, l - 1);
        law_prev_paragraph_stops_at_lone_lf(s, l - 1);
    }
}

/// The first index at or after `i` whose char is not of an identifier.
pub open spec fn skip_word(s: Seq<char>, i: int) -> int
    decreases s.len() - i,
{
    if i < 0 || i >= s.len() || !word_char(s[i]) {
        i
    } else {
        skip_word(s, i + 1)
    }
}

/// The first index at or after `i` whose char is not punctuation.
pub open spec fn skip_punct(s: Seq<char>, i: int) -> int
    decreases s.len() - i,
{
    if i < 0 || i >= s.len() || !punct_char(s[i]) {
        i
    } else {
        skip_punct(s, i + 1)
    }
}

/// The first index at or after `i` whose char is not whitespace.
pub open spec fn skip_ws(s: Seq<char>, i: int) -> int
    decreases s.len() - i,
{
    if i < 0 || i >= s.len() || !is_whitespace(s[i]) {
        i
    } else {
        skip_ws(s, i + 1)
    }
}

/// The end of the text as a point: the last char of the last line.
pub open spec fn eof_point(s: Seq<char>) -> Point<usize> {
    let last = (num_lines(s) - 1) as int;
    Point { x: (if line_len(s, last) >= 1 { line_len(s, last) - 1 } else { 0 }) as usize, y: last as usize }
}

/// The first non-whitespace char of line `l`, or its start; past the last
/// line, the end of the text.
pub open spec fn next_line_start_of(s: Seq<char>, l: int) -> Point<usize> {
    if l >= num_lines(s) {
        eof_point(s)
    } else {
        match first_non_ws(s, line_start(s, l), line_start(s, l + 1)) {
            Some(i) => Point { x: (i - line_start(s, l)) as usize, y: l as usize },
            None => Point { x: 0, y: l as usize },
        }
    }
}

/// Where `find_next_word_boundary` goes from `point`: past the rest of the
/// word (or punctuation run) under the point and the whitespace after it; at
/// the last two chars of a line, to the start of the next line.
pub open spec fn next_word_boundary_of(s: Seq<char>, point: Point<usize>) -> Point<usize> {
    if point.y >= num_lines(s) {
        point
    } else if point.x >= (if line_len(s, point.y as int) >= 2 {
        line_len(s, point.y as int) - 2
    } else {
        0
    }) {
        next_line_start_of(s, point.y + 1)
    } else {
        let i = line_start(s, point.y as int) + point.x;
        let c = s[i];
        let after = if word_char(c) {
            skip_word(s, i)
        } else if punct_char(c) {
            skip_punct(s, i)
        } else {
            i
        };
        let j = skip_ws(s, after);
        if j >= s.len() {
            eof_point(s)
        } else {
            position_of(s, j)
        }
    }
}

fn is_pairable_character(ch: char) -> (r: bool)
    ensures
        r == is_pairable(ch),
{
    ch == '(' || ch == '{' || ch == '[' || ch == '<' || ch == ')' || ch == '}' || ch == ']' || ch
        == '>'
}

fn is_word_char(ch: char) -> (r: bool)
    ensures
        r == word_char(ch),
{
    char_is_alphanumeric(ch) || ch == '_'
}

fn is_punctuation_char(ch: char) -> (r: bool)
    ensures
        r == punct_char(ch),
{
    !char_is_whitespace(ch) && !is_word_char(ch)
}

fn is_matching_pair(needle: char, ch: char) -> (r: bool)
    ensures
        r == matches_pair(needle, ch),
{
    (needle == '(' && ch == ')') || (needle == '{' && ch == '}') || (needle == '[' && ch == ']')
        || (needle == '<' && ch == '>') || (needle == ')' && ch == '(') || (needle == '}' && ch
        == '{') || (needle == ']' && ch == '[') || (needle == '>' && ch == '<')
}

#[derive(Debug, Clone, Copy, PartialEq, Eq, Structural, PartialOrd, Ord, Hash)]
enum SearchDirection {
    Forward,
    Backward,
}

fn find_pair_search_direction(ch: char) -> (r: SearchDirection)
    ensures
        r == (if is_opening(ch) {
            SearchDirection::Forward
        } else {
            SearchDirection::Backward
        }),
{
    if ch == '(' || ch == '{' || ch == '[' || ch == '<' {
        return SearchDirection::Forward;
    }
    SearchDirection::Backward
}

/// The text of a document.
#[derive(Debug, PartialEq, Eq, PartialOrd, Ord)]
pub struct TextObject {
    inner: ropey::Rope,
}

impl TextObject {
    /// The chars of the text.
    pub closed spec fn view(self) -> Seq<char> {
        rope_chars(self.inner)
    }

    pub fn new(content: String) -> (t: Self)
        ensures
            t.view() == content@,
    {
        Self { inner: rope_from_str(content.as_str()) }
    }

    /// The whole text.
    pub fn to_string(&self) -> (r: String)
        ensures
            r@ == self.view(),
    {
        rope_to_string(&self.inner)
    }

    /// The chars of line `line_idx`, or `None` past the last line.
    pub fn get_line(&self, line_idx: usize) -> (r: Option<String>)
        ensures
            line_idx < num_lines(self.view()) ==> r is Some && r->0@ == line_chars(
                self.view(),
                line_idx as int,
            ),
            line_idx >= num_lines(self.view()) ==> r is None,
    {
        if line_idx < self.len_lines() {
            Some(self.line(line_idx))
        } else {
            None
        }
    }

    /// The chars of line `line_idx`, its line break included.
    pub fn line(&self, line_idx: usize) -> (r: String)
        requires
            line_idx < num_lines(self.view()),
        ensures
            r@ == line_chars(self.view(), line_idx as int),
    {
        let ghost s = self.view();
        proof {
            lemma_line_start(s, line_idx as int);
        }
        let _ = rope_len_lines(&self.inner);
        let start = rope_line_to_char(&self.inner, line_idx);
        let end = rope_line_to_char(&self.inner, line_idx + 1);
        let mut out = String::new();
        let mut i = start;
        while i < end
            invariant
                start <= i <= end <= s.len(),
                s == self.view(),
                out@ == s.subrange(start as int, i as int),
            decreases end - i,
        {
            let ch = rope_char(&self.inner, i);
            string_push(&mut out, ch);
            proof {
                assert(s.subrange(start as int, i + 1) =~= s.subrange(start as int, i as int).push(
                    ch,
                ));
            }
            i = i + 1;
        }
        out
    }

    /// The number of chars of line `line_idx`, its line break included.
    pub fn line_len(&self, line_idx: usize) -> (r: usize)
        requires
            line_idx < num_lines(self.view()),
        ensures
            r == line_len(self.view(), line_idx as int),
    {
        proof {
            lemma_line_start(self.view(), line_idx as int);
        }
        let _ = rope_len_lines(&self.inner);
        let start = rope_line_to_char(&self.inner, line_idx);
        let end = rope_line_to_char(&self.inner, line_idx + 1);
        end - start
    }

    pub fn len_lines(&self) -> (r: usize)
        ensures
            r == num_lines(self.view()),
    {
        rope_len_lines(&self.inner)
    }

    /// Removes line `line` together with the line break before it (the first
    /// line loses no break before it).
    pub fn delete_whole_line(&mut self, line: usize)
        requires
            line < num_lines(old(self).view()),
        ensures
            ({
                let s = old(self).view();
                let start = line_start(s, line as int);
                let from = if start >= 1 { start - 1 } else { 0 };
                final(self).view() == s.subrange(0, from) + s.subrange(
                    line_start(s, line + 1),
                    s.len() as int,
                )
            }),
    {
        proof {
            lemma_line_start(self.view(), line as int);
        }
        let _ = rope_len_lines(&self.inner);
        let line_start = rope_line_to_char(&self.inner, line);
        let line_end = rope_line_to_char(&self.inner, line + 1);
        let from = if line_start >= 1 { line_start - 1 } else { 0 };
        rope_remove(&mut self.inner, from, line_end);
    }

    /// The position of the bracket that matches the first bracket at or after
    /// `point` on its line.
    pub fn find_matching_pair(&self, point: Point<usize>) -> (r: Point<usize>)
        requires
            point.y < num_lines(self.view()),
            point.x < line_len(self.view(), point.y as int),
        ensures
            r == matching_pair_of(self.view(), point),
    {
        let ghost s = self.view();
        proof {
            lemma_line_start(s, point.y as int);
        }
        let _ = rope_len_lines(&self.inner);
        let _ = rope_len_chars(&self.inner);
        let line_begin = rope_line_to_char(&self.inner, point.y);
        let line_end = rope_line_to_char(&self.inner, point.y + 1);
        let i = self.first_pairable_index(line_begin + point.x, line_end);
        proof {
            assert(line_begin == line_start(s, point.y as int));
            assert(line_end == line_start(s, point.y + 1));
        }
        if i >= line_end {
            assert(first_pairable(s, line_begin + point.x, line_end as int) is None);
            return point;
        }
        assert(first_pairable(s, line_begin + point.x, line_end as int) == Some(i as int));
        let pair_to_match = rope_char(&self.inner, i);
        let search_start_char = i;
        let mut open_pairs: usize = 0;
        match find_pair_search_direction(pair_to_match) {
            SearchDirection::Forward => {
                let len = rope_len_chars(&self.inner);
                let mut idx = search_start_char;
                while idx < len
                    invariant
                        s == self.view(),
                        len == s.len(),
                        search_start_char <= idx <= len,
                        search_start_char < len,
                        s[search_start_char as int] == pair_to_match,
                        is_opening(pair_to_match),
                        matching_pair_of(s, point) == (match forward_match(
                            s,
                            pair_to_match,
                            search_start_char as int,
                            0,
                        ) {
                            Some(q) => position_of(s, q),
                            None => point,
                        }),
                        open_pairs <= idx - search_start_char,
                        idx > search_start_char ==> open_pairs > 0,
                        forward_match(s, pair_to_match, search_start_char as int, 0)
                            == forward_match(s, pair_to_match, idx as int, open_pairs as int),
                    decreases len - idx,
                {
                    let ch = rope_char(&self.inner, idx);
                    if ch == pair_to_match {
                        open_pairs += 1;
                    }
                    if is_matching_pair(pair_to_match, ch) {
                        open_pairs -= 1;
                    }
                    if open_pairs == 0 {
                        proof {
                            lemma_char_line(s, idx as int);
                        }
                        let pair_line_idx = rope_char_to_line(&self.inner, idx);
                        let pair_line_start_char = rope_line_to_char(&self.inner, pair_line_idx);
                        let pair_line_col = idx - pair_line_start_char;
                        return Point::new(pair_line_col, pair_line_idx);
                    }
                    idx = idx + 1;
                }
            },
            SearchDirection::Backward => {
                let mut idx = search_start_char + 1;
                while idx > 0
                    invariant
                        s == self.view(),
                        0 <= idx <= search_start_char + 1,
                        search_start_char < s.len(),
                        s[search_start_char as int] == pair_to_match,
                        !is_opening(pair_to_match),
                        s.len() <= usize::MAX,
                        matching_pair_of(s, point) == (match backward_match(
                            s,
                            pair_to_match,
                            search_start_char as int,
                            0,
                        ) {
                            Some(q) => position_of(s, q),
                            None => point,
                        }),
                        open_pairs <= search_start_char + 1 - idx,
                        idx <= search_start_char ==> open_pairs > 0,
                        backward_match(s, pair_to_match, search_start_char as int, 0)
                            == backward_match(s, pair_to_match, idx - 1, open_pairs as int),
                    decreases idx,
                {
                    let ch = rope_char(&self.inner, idx - 1);
                    if ch == pair_to_match {
                        open_pairs += 1;
                    }
                    if is_matching_pair(pair_to_match, ch) {
                        open_pairs -= 1;
                    }
                    if open_pairs == 0 {
                        proof {
                            lemma_char_line(s, idx - 1);
                        }
                        let pair_line_idx = rope_char_to_line(&self.inner, idx - 1);
                        let pair_line_start_char = rope_line_to_char(&self.inner, pair_line_idx);
                        let pair_line_col = idx - 1 - pair_line_start_char;
                        return Point::new(pair_line_col, pair_line_idx);
                    }
                    idx = idx - 1;
                }
            },
        }
        point
    }

    /// The first index in `from..end` whose char is a bracket, or `end`.
    fn first_pairable_index(&self, from: usize, end: usize) -> (r: usize)
        requires
            from <= end <= self.view().len(),
        ensures
            from <= r <= end,
            r < end ==> first_pairable(self.view(), from as int, end as int) == Some(r as int),
            r == end ==> first_pairable(self.view(), from as int, end as int) is None,
    {
        let ghost s = self.view();
        let mut i = from;
        while i < end && !is_pairable_character(rope_char(&self.inner, i))
            invariant
                s == self.view(),
                from <= i <= end <= s.len(),
                first_pairable(s, from as int, end as int) == first_pairable(
                    s,
                    i as int,
                    end as int,
                ),
            decreases end - i,
        {
            i = i + 1;
        }
        proof {
            if i < end {
                assert(first_pairable(s, i as int, end as int) == Some(i as int));
            }
        }
        i
    }

    /// The first non-whitespace char of line `line_idx`, or its start.
    pub fn find_first_non_space_character(&self, line_idx: usize) -> (r: Point<usize>)
        requires
            line_idx < num_lines(self.view()),
        ensures
            r == (match first_non_ws(
                self.view(),
                line_start(self.view(), line_idx as int),
                line_start(self.view(), line_idx + 1),
            ) {
                Some(i) => Point {
                    x: (i - line_start(self.view(), line_idx as int)) as usize,
                    y: line_idx,
                },
                None => Point { x: 0, y: line_idx },
            }),
    {
        let ghost s = self.view();
        proof {
            lemma_line_start(s, line_idx as int);
        }
        let _ = rope_len_lines(&self.inner);
        let start = rope_line_to_char(&self.inner, line_idx);
        let end = rope_line_to_char(&self.inner, line_idx + 1);
        let mut i = start;
        while i < end
            invariant
                s == self.view(),
                start <= i <= end <= s.len(),
                start == line_start(s, line_idx as int),
                end == line_start(s, line_idx + 1),
                first_non_ws(s, start as int, end as int) == first_non_ws(
                    s,
                    i as int,
                    end as int,
                ),
            decreases end - i,
        {
            if !char_is_whitespace(rope_char(&self.inner, i)) {
                assert(first_non_ws(s, i as int, end as int) == Some(i as int));
                assert(start == line_start(s, line_idx as int));
                assert(end == line_start(s, line_idx + 1));
                return Point::new(i - start, line_idx);
            }
            i = i + 1;
        }
        Point::new(0, line_idx)
    }

    /// The last non-whitespace char of line `line_idx`, or its start.
    pub fn find_last_non_space_character(&self, line_idx: usize) -> (r: Point<usize>)
        requires
            line_idx < num_lines(self.view()),
        ensures
            r == (match last_non_ws(
                self.view(),
                line_start(self.view(), line_idx as int),
                line_start(self.view(), line_idx + 1),
            ) {
                Some(i) => Point {
                    x: (i - line_start(self.view(), line_idx as int)) as usize,
                    y: line_idx,
                },
                None => Point { x: 0, y: line_idx },
            }),
    {
        let ghost s = self.view();
        proof {
            lemma_line_start(s, line_idx as int);
        }
        let _ = rope_len_lines(&self.inner);
        let start = rope_line_to_char(&self.inner, line_idx);
        let end = rope_line_to_char(&self.inner, line_idx + 1);
        let mut i = end;
        while i > start
            invariant
                s == self.view(),
                start <= i <= end <= s.len(),
                start == line_start(s, line_idx as int),
                end == line_start(s, line_idx + 1),
                last_non_ws(s, start as int, end as int) == last_non_ws(
                    s,
                    start as int,
                    i as int,
                ),
            decreases i,
        {
            if !char_is_whitespace(rope_char(&self.inner, i - 1)) {
                assert(last_non_ws(s, start as int, i as int) == Some(i - 1));
                assert(start == line_start(s, line_idx as int));
                assert(end == line_start(s, line_idx + 1));
                return Point::new(i - 1 - start, line_idx);
            }
            i = i - 1;
        }
        Point::new(0, line_idx)
    }

    fn is_blank(&self, l: usize) -> (r: bool)
        requires
            l < num_lines(self.view()),
        ensures
            r == is_blank_line(self.view(), l as int),
    {
        proof {
            lemma_line_start(self.view(), l as int);
        }
        let _ = rope_len_lines(&self.inner);
        let start = rope_line_to_char(&self.inner, l);
        let end = rope_line_to_char(&self.inner, l + 1);
        end - start == 1 && rope_char(&self.inner, start) == '\n'
    }

    /// The next blank line after `line_idx` (its start), else the start of
    /// the last line; on the last line, its last char.
    pub fn find_next_paragraph(&self, line_idx: usize) -> (r: Point<usize>)
        requires
            line_idx < num_lines(self.view()),
        ensures
            ({
                let s = self.view();
                let last = num_lines(s) - 1;
                r == (if line_idx == last {
                    Point {
                        x: (if line_len(s, line_idx as int) >= 1 {
                            line_len(s, line_idx as int) - 1
                        } else {
                            0
                        }) as usize,
                        y: line_idx,
                    }
                } else {
                    match next_blank_line(s, line_idx + 1, num_lines(s) as int) {
                        Some(l) => Point { x: 0, y: l as usize },
                        None => Point { x: 0, y: last as usize },
                    }
                })
            }),
    {
        let ghost s = self.view();
        let len_lines = self.len_lines();
        let is_on_last_line = line_idx == len_lines - 1;
        if is_on_last_line {
            let line_len = self.line_len(line_idx);
            let x = if line_len >= 1 { line_len - 1 } else { 0 };
            return Point::new(x, line_idx);
        }
        let mut l = line_idx + 1;
        while l < len_lines
            invariant
                s == self.view(),
                len_lines == num_lines(s),
                line_idx < l <= len_lines,
                next_blank_line(s, line_idx + 1, len_lines as int) == next_blank_line(
                    s,
                    l as int,
                    len_lines as int,
                ),
            decreases len_lines - l,
        {
            if self.is_blank(l) {
                return Point::new(0, l);
            }
            l = l + 1;
        }
        Point::new(0, len_lines - 1)
    }

    /// The last blank line before `line_idx` (its start), else the start of
    /// the text.
    pub fn find_prev_paragraph(&self, line_idx: usize) -> (r: Point<usize>)
        requires
            line_idx <= num_lines(self.view()),
        ensures
            r == (match prev_blank_line(self.view(), line_idx as int) {
                Some(l) => Point { x: 0, y: l as usize },
                None => Point { x: 0usize, y: 0usize },
            }),
    {
        let ghost s = self.view();
        let mut l = line_idx;
        while l > 0
            invariant
                s == self.view(),
                l <= line_idx <= num_lines(s),
                prev_blank_line(s, line_idx as int) == prev_blank_line(s, l as int),
            decreases l,
        {
            if self.is_blank(l - 1) {
                return Point::new(0, l - 1);
            }
            l = l - 1;
        }
        Point::new(0, 0)
    }

    /// Removes the char before `position`.
    pub fn delete_prev_char(&mut self, position: Point<usize>)
        requires
            position.y <= num_lines(old(self).view()),
            1 <= line_start(old(self).view(), position.y as int) + position.x <= old(
                self,
            ).view().len(),
        ensures
            ({
                let s = old(self).view();
                let at = line_start(s, position.y as int) + position.x;
                final(self).view() == s.remove(at - 1)
            }),
    {
        let ghost s = self.view();
        let _ = rope_len_chars(&self.inner);
        let line_start_char = rope_line_to_char(&self.inner, position.y);
        let position_char = line_start_char + position.x;
        rope_remove(&mut self.inner, position_char - 1, position_char);
        proof {
            assert(self.view() =~= s.remove(position_char - 1));
        }
    }

    /// Removes the char at `position`.
    pub fn delete_curr_char(&mut self, position: Point<usize>)
        requires
            position.y <= num_lines(old(self).view()),
            line_start(old(self).view(), position.y as int) + position.x < old(self).view().len(),
        ensures
            final(self).view() == old(self).view().remove(
                line_start(old(self).view(), position.y as int) + position.x,
            ),
    {
        let ghost s = self.view();
        let _ = rope_len_chars(&self.inner);
        let line_start_char = rope_line_to_char(&self.inner, position.y);
        let position_char = line_start_char + position.x;
        rope_remove(&mut self.inner, position_char, position_char + 1);
        proof {
            assert(self.view() =~= s.remove(position_char as int));
        }
    }

    /// Inserts `ch` at `position`.
    pub fn insert_char_at(&mut self, position: Point<usize>, ch: char)
        requires
            position.y <= num_lines(old(self).view()),
            line_start(old(self).view(), position.y as int) + position.x <= old(self).view().len(),
        ensures
            final(self).view() == old(self).view().insert(
                line_start(old(self).view(), position.y as int) + position.x,
                ch,
            ),
    {
        let _ = rope_len_chars(&self.inner);
        let line_start_char = rope_line_to_char(&self.inner, position.y);
        let position_char = line_start_char + position.x;
        rope_insert_char(&mut self.inner, position_char, ch);
    }

    /// The start of the next word from `point`.
    pub fn find_next_word_boundary(&self, point: Point<usize>) -> (r: Point<usize>)
        ensures
            r == next_word_boundary_of(self.view(), point),
    {
        let ghost s = self.view();
        if point.y >= self.len_lines() {
            return point;
        }
        let line_len = self.line_len(point.y);
        let limit = if line_len >= 2 { line_len - 2 } else { 0 };
        if point.x >= limit {
            return self.find_next_line_start(point.y + 1);
        }
        proof {
            lemma_line_start(s, point.y as int);
        }
        let _ = rope_len_lines(&self.inner);
        let len = rope_len_chars(&self.inner);
        let line_start_char = rope_line_to_char(&self.inner, point.y);
        let mut char_idx = line_start_char + point.x;
        let current_char = rope_char(&self.inner, char_idx);
        let ghost start_idx = char_idx as int;
        if is_word_char(current_char) {
            while char_idx < len && is_word_char(rope_char(&self.inner, char_idx))
                invariant
                    s == self.view(),
                    len == s.len(),
                    start_idx <= char_idx <= len,
                    skip_word(s, start_idx) == skip_word(s, char_idx as int),
                decreases len - char_idx,
            {
                char_idx += 1;
            }
        } else if is_punctuation_char(current_char) {
            while char_idx < len && is_punctuation_char(rope_char(&self.inner, char_idx))
                invariant
                    s == self.view(),
                    len == s.len(),
                    start_idx <= char_idx <= len,
                    skip_punct(s, start_idx) == skip_punct(s, char_idx as int),
                decreases len - char_idx,
            {
                char_idx += 1;
            }
        }
        let ghost after = char_idx as int;
        while char_idx < len && char_is_whitespace(rope_char(&self.inner, char_idx))
            invariant
                s == self.view(),
                len == s.len(),
                after <= char_idx <= len,
                skip_ws(s, after) == skip_ws(s, char_idx as int),
            decreases len - char_idx,
        {
            char_idx += 1;
        }
        if char_idx >= len {
            return self.eof_point();
        }
        proof {
            lemma_char_line(s, char_idx as int);
        }
        let result_line = rope_char_to_line(&self.inner, char_idx);
        let result_line_start = rope_line_to_char(&self.inner, result_line);
        Point::new(char_idx - result_line_start, result_line)
    }

    fn eof_point(&self) -> (r: Point<usize>)
        ensures
            r == eof_point(self.view()),
    {
        let last_line = self.len_lines() - 1;
        let last_line_len = self.line_len(last_line);
        let x = if last_line_len >= 1 { last_line_len - 1 } else { 0 };
        Point::new(x, last_line)
    }

    fn find_next_line_start(&self, line_idx: usize) -> (r: Point<usize>)
        ensures
            r == next_line_start_of(self.view(), line_idx as int),
    {
        if line_idx >= self.len_lines() {
            return self.eof_point();
        }
        self.find_first_non_space_character(line_idx)
    }
}

/// `delete_curr_char` at the position where `insert_char_at` put a char
/// removes that char again and gives back the text, unless the char is a
/// line feed put at the start of a line that follows a carriage return
/// (the two then form one line break, and the line starts after both).
pub proof fn law_delete_undoes_insert(text: Seq<char>, x: int, y: int, ch: char)
    requires
        0 <= x,
        0 <= y < num_lines(text),
        line_start(text, y) + x <= text.len(),
        !(x == 0 && ch == '\n' && line_start(text, y) > 0 && text[line_start(text, y) - 1]
            == '\r'),
    ensures
        ({
            let at = line_start(text, y) + x;
            let after = text.insert(at, ch);
            &&& y <= num_lines(after)
            &&& line_start(after, y) + x < after.len()
            &&& after.remove(line_start(after, y) + x) == text
        }),
{
    let ls = line_start(text, y);
    let at = ls + x;
    let after = text.insert(at, ch);
    lemma_line_start(text, y);
    crate::text::lemma_insert_keeps_breaks(text, at, ch, text.len() as int);
    crate::text::lemma_first_at_least(text, y as nat, 0);
    crate::text::lemma_first_at_least(after, y as nat, 0);
    if y > 0 {
        assert(ls > 0);
    }
    if ls < at {
        crate::text::lemma_insert_keeps_breaks(text, at, ch, ls);
    } else if y > 0 {
        crate::text::lemma_insert_keeps_breaks(text, at, ch, ls - 1);
        assert(breaks_upto(text, ls - 1) < y);
        assert(after[ls - 1] == text[ls - 1]);
        assert(after[ls] == ch);
        assert(crate::text::ends_break(after, ls));
    }
    crate::text::lemma_first_at_least_before(after, y as nat, 0, ls);
    let first = line_start(after, y);
    if first < ls {
        crate::text::lemma_insert_keeps_breaks(text, at, ch, first);
        assert(breaks_upto(text, first) < y);
    }
    assert(first == ls);
    assert(after.remove(at) =~= text);
}

} // verus!
