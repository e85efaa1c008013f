//! Terminal colors, by name, by palette index or as RGB.
use vstd::prelude::*;

use crate::text::string_push;

verus! {

/// Why a string names no color.
#[derive(Debug, PartialEq, Eq)]
pub enum Error {
    /// The string is no color's name.
    InvalidName(String),
    /// The string starts with `#` but is no six-digit hex color.
    InvalidHex(String),
}

/// A color a terminal can draw with.
#[derive(Debug, Clone, Copy, PartialEq, Eq, Structural)]
pub enum Color {
    Reset,
    Black,
    Red,
    Green,
    Yellow,
    Blue,
    Magenta,
    Cyan,
    Gray,
    LightRed,
    LightGreen,
    LightYellow,
    LightBlue,
    LightMagenta,
    LightCyan,
    LightGray,
    White,
    Rgb(u8, u8, u8),
    Indexed(u8),
}

impl Default for Color {
    fn default() -> (r: Color)
        ensures
            r == Color::Reset,
    {
        Color::Reset
    }
}

impl From<(u8, u8, u8)> for Color {
    fn from(rgb: (u8, u8, u8)) -> (r: Color) {
        Color::Rgb(rgb.0, rgb.1, rgb.2)
    }
}

impl vstd::std_specs::convert::FromSpecImpl<(u8, u8, u8)> for Color {
    open spec fn obeys_from_spec() -> bool {
        true
    }

    open spec fn from_spec(rgb: (u8, u8, u8)) -> Color {
        Color::Rgb(rgb.0, rgb.1, rgb.2)
    }
}

/// What `str::to_lowercase` gives for a string: its chars by their Unicode
/// lowercase mappings.
pub uninterp spec fn lowercase(s: Seq<char>) -> Seq<char>;

/// Calls `str::to_lowercase`.
#[verifier::external_body]
fn str_to_lowercase(s: &str) -> (r: String)
    ensures
        r@ == lowercase(s@),
{
    s.to_lowercase()
}

/// The color a lowercase name stands for.
pub open spec fn named_color(name: Seq<char>) -> Option<Color> {
    if name == "reset"@ {
        Some(Color::Reset)
    } else if name == "black"@ {
        Some(Color::Black)
    } else if name == "red"@ {
        Some(Color::Red)
    } else if name == "green"@ {
        Some(Color::Green)
    } else if name == "yellow"@ {
        Some(Color::Yellow)
    } else if name == "blue"@ {
        Some(Color::Blue)
    } else if name == "magenta"@ {
        Some(Color::Magenta)
    } else if name == "cyan"@ {
        Some(Color::Cyan)
    } else if name == "gray"@ {
        Some(Color::Gray)
    } else if name == "light_red"@ {
        Some(Color::LightRed)
    } else if name == "light_green"@ {
        Some(Color::LightGreen)
    } else if name == "light_yellow"@ {
        Some(Color::LightYellow)
    } else if name == "light_blue"@ {
        Some(Color::LightBlue)
    } else if name == "light_magenta"@ {
        Some(Color::LightMagenta)
    } else if name == "light_cyan"@ {
        Some(Color::LightCyan)
    } else if name == "light_gray"@ {
        Some(Color::LightGray)
    } else if name == "white"@ {
        Some(Color::White)
    } else {
        None
    }
}

/// An ASCII hex digit.
pub open spec fn is_hex_digit(c: char) -> bool {
    ('0' <= c && c <= '9') || ('a' <= c && c <= 'f') || ('A' <= c && c <= 'F')
}

/// The value of a hex digit.
pub open spec fn hex_value(c: char) -> int {
    if '0' <= c && c <= '9' {
        c as int - '0' as int
    } else if 'a' <= c && c <= 'f' {
        c as int - 'a' as int + 10
    } else {
        c as int - 'A' as int + 10
    }
}

/// The byte that two chars read as hex give: two digits, or a `+` sign and
/// a digit.
pub open spec fn hex_pair(a: char, b: char) -> Option<u8> {
    if is_hex_digit(a) && is_hex_digit(b) {
        Some((16 * hex_value(a) + hex_value(b)) as u8)
    } else if a == '+' && is_hex_digit(b) {
        Some(hex_value(b) as u8)
    } else {
        None
    }
}

/// The color that seven ASCII chars `#rrggbb` give.
pub open spec fn hex_color(v: Seq<char>) -> Option<Color> {
    if v.len() == 7 {
        match (hex_pair(v[1], v[2]), hex_pair(v[3], v[4]), hex_pair(v[5], v[6])) {
            (Some(r), Some(g), Some(b)) => Some(Color::Rgb(r, g, b)),
            _ => None,
        }
    } else {
        None
    }
}

/// The value of `c` read as a hex digit, if it is one.
fn hex_digit(c: char) -> (r: Option<u8>)
    ensures
        r == (if is_hex_digit(c) {
            Some(hex_value(c) as u8)
        } else {
            None::<u8>
        }),
{
    let v = c as u32;
    if '0' <= c && c <= '9' {
        Some((v - 0x30) as u8)
    } else if 'a' <= c && c <= 'f' {
        Some((v - 0x61 + 10) as u8)
    } else if 'A' <= c && c <= 'F' {
        Some((v - 0x41 + 10) as u8)
    } else {
        None
    }
}

/// Two chars read as `u8::from_str_radix` reads them in radix 16: two hex
/// digits, or a `+` sign and one, give a byte; anything else is an error.
fn u8_from_hex(digits: &str) -> (r: Option<u8>)
    requires
        digits@.len() == 2,
    ensures
        r == hex_pair(digits@[0], digits@[1]),
{
    let a = digits.get_char(0);
    let b = digits.get_char(1);
    match (hex_digit(a), hex_digit(b)) {
        (Some(x), Some(y)) => Some(16 * x + y),
        (None, Some(y)) => if a == '+' {
            Some(y)
        } else {
            None
        },
        _ => None,
    }
}

/// Whether `value` starts with `#`.
pub open spec fn starts_with_hash(value: Seq<char>) -> bool {
    value.len() > 0 && value[0] == '#'
}

/// Whether a `#` string can be cut into its three byte pairs: it is seven
/// bytes long, so the pairs are read, and they end on char boundaries.
pub open spec fn hex_cuts_ok(value: Seq<char>) -> bool {
    starts_with_hash(value) && utf8_bytes(value).len() == 7 ==> {
        &&& vstd::utf8::is_char_boundary(utf8_bytes(value), 3)
        &&& vstd::utf8::is_char_boundary(utf8_bytes(value), 5)
    }
}

/// The UTF-8 encoding of the chars.
pub open spec fn utf8_bytes(value: Seq<char>) -> Seq<u8> {
    vstd::utf8::encode_utf8(value)
}

/// The two chars of `value` from `i` on, as a string.
fn pair_at(value: &str, i: usize) -> (r: String)
    requires
        i <= 5,
        i + 1 < value@.len(),
    ensures
        r@ == seq![value@[i as int], value@[i + 1]],
{
    let mut s = String::new();
    string_push(&mut s, value.get_char(i));
    string_push(&mut s, value.get_char(i + 1));
    assert(s@ =~= seq![value@[i as int], value@[i + 1]]);
    s
}

/// Reads `#rrggbb`; the string must start with `#`.
fn try_parse_hex(value: &str) -> (r: Result<Color, Error>)
    requires
        starts_with_hash(value@),
        hex_cuts_ok(value@),
        utf8_bytes(value@).len() <= usize::MAX,
    ensures
        match r {
            Ok(c) => utf8_bytes(value@).len() == 7 && hex_color(value@) == Some(c),
            Err(Error::InvalidHex(s)) => s@ == value@ && !(utf8_bytes(value@).len() == 7
                && hex_color(value@) is Some),
            Err(Error::InvalidName(_)) => false,
        },
{
    if value.len() != 7 {
        return Err(Error::InvalidHex(value.to_owned()));
    }
    if value.unicode_len() != 7 {
        return Err(Error::InvalidHex(value.to_owned()));
    }
    let r = u8_from_hex(pair_at(value, 1).as_str());
    let g = u8_from_hex(pair_at(value, 3).as_str());
    let b = u8_from_hex(pair_at(value, 5).as_str());
    match (r, g, b) {
        (Some(r), Some(g), Some(b)) => Ok(Color::Rgb(r, g, b)),
        _ => Err(Error::InvalidHex(value.to_owned())),
    }
}

/// Whether `s` equals the string literal `lit`.
fn is_name(s: &String, lit: &str) -> (r: bool)
    ensures
        r == (s@ == lit@),
{
    *s == lit.to_owned()
}

/// What reading `value` as a color gives: the color of its lowercase name;
/// else, for a `#` string, the color of `#rrggbb` or an invalid hex error;
/// else an invalid name error. The errors hold the string.
pub open spec fn parses_to(value: Seq<char>, r: Result<Color, Error>) -> bool {
    match named_color(lowercase(value)) {
        Some(c) => r == Ok::<Color, Error>(c),
        None => if starts_with_hash(value) {
            match r {
                Ok(c) => utf8_bytes(value).len() == 7 && hex_color(value) == Some(c),
                Err(Error::InvalidHex(s)) => s@ == value && !(utf8_bytes(value).len() == 7
                    && hex_color(value) is Some),
                Err(Error::InvalidName(_)) => false,
            }
        } else {
            r matches Err(Error::InvalidName(s)) && s@ == value
        },
    }
}

/// The name each named color goes by: its variant's name in lowercase,
/// with `_` between the words. RGB and palette colors have none.
pub open spec fn color_name(c: Color) -> Option<Seq<char>> {
    match c {
        Color::Reset => Some("reset"@),
        Color::Black => Some("black"@),
        Color::Red => Some("red"@),
        Color::Green => Some("green"@),
        Color::Yellow => Some("yellow"@),
        Color::Blue => Some("blue"@),
        Color::Magenta => Some("magenta"@),
        Color::Cyan => Some("cyan"@),
        Color::Gray => Some("gray"@),
        Color::LightRed => Some("light_red"@),
        Color::LightGreen => Some("light_green"@),
        Color::LightYellow => Some("light_yellow"@),
        Color::LightBlue => Some("light_blue"@),
        Color::LightMagenta => Some("light_magenta"@),
        Color::LightCyan => Some("light_cyan"@),
        Color::LightGray => Some("light_gray"@),
        Color::White => Some("white"@),
        Color::Rgb(..) => None,
        Color::Indexed(_) => None,
    }
}


/// A name is read as exactly the color that goes by it: each color's name
/// reads as that color, and a name that reads as a color is that color's
/// name. So distinct names give distinct colors.
pub proof fn law_color_names_read_back(c: Color, name: Seq<char>)
    ensures
        color_name(c) matches Some(n) ==> named_color(n) == Some(c),
        named_color(name) == Some(c) ==> color_name(c) == Some(name),
{
    reveal_strlit("reset");
    reveal_strlit("black");
    reveal_strlit("red");
    reveal_strlit("green");
    reveal_strlit("yellow");
    reveal_strlit("blue");
    reveal_strlit("magenta");
    reveal_strlit("cyan");
    reveal_strlit("gray");
    reveal_strlit("light_red");
    reveal_strlit("light_green");
    reveal_strlit("light_yellow");
    reveal_strlit("light_blue");
    reveal_strlit("light_magenta");
    reveal_strlit("light_cyan");
    reveal_strlit("light_gray");
    reveal_strlit("white");
    assert("reset"@.len() == 5 && "reset"@[0] == 'r');
    assert("black"@.len() == 5 && "black"@[0] == 'b');
    assert("red"@.len() == 3 && "red"@[0] == 'r');
    assert("green"@.len() == 5 && "green"@[0] == 'g');
    assert("yellow"@.len() == 6 && "yellow"@[0] == 'y');
    assert("blue"@.len() == 4 && "blue"@[0] == 'b');
    assert("magenta"@.len() == 7 && "magenta"@[0] == 'm');
    assert("cyan"@.len() == 4 && "cyan"@[0] == 'c');
    assert("gray"@.len() == 4 && "gray"@[0] == 'g');
    assert("light_red"@.len() == 9 && "light_red"@[0] == 'l');
    assert("light_red"@[6] == 'r');
    assert("light_green"@.len() == 11 && "light_green"@[0] == 'l');
    assert("light_green"@[6] == 'g');
    assert("light_yellow"@.len() == 12 && "light_yellow"@[0] == 'l');
    assert("light_yellow"@[6] == 'y');
    assert("light_blue"@.len() == 10 && "light_blue"@[0] == 'l');
    assert("light_blue"@[6] == 'b');
    assert("light_magenta"@.len() == 13 && "light_magenta"@[0] == 'l');
    assert("light_magenta"@[6] == 'm');
    assert("light_cyan"@.len() == 10 && "light_cyan"@[0] == 'l');
    assert("light_cyan"@[6] == 'c');
    assert("light_gray"@.len() == 10 && "light_gray"@[0] == 'l');
    assert("light_gray"@[6] == 'g');
    assert("white"@.len() == 5 && "white"@[0] == 'w');
    match c {
        Color::Reset => {
            assert(named_color("reset"@) == Some(Color::Reset));
        },
        Color::Black => {
            assert(named_color("black"@) == Some(Color::Black));
        },
        Color::Red => {
            assert(named_color("red"@) == Some(Color::Red));
        },
        Color::Green => {
            assert(named_color("green"@) == Some(Color::Green));
        },
        Color::Yellow => {
            assert(named_color("yellow"@) == Some(Color::Yellow));
        },
        Color::Blue => {
            assert(named_color("blue"@) == Some(Color::Blue));
        },
        Color::Magenta => {
            assert(named_color("magenta"@) == Some(Color::Magenta));
        },
        Color::Cyan => {
            assert(named_color("cyan"@) == Some(Color::Cyan));
        },
        Color::Gray => {
            assert(named_color("gray"@) == Some(Color::Gray));
        },
        Color::LightRed => {
            assert(named_color("light_red"@) == Some(Color::LightRed));
        },
        Color::LightGreen => {
            assert(named_color("light_green"@) == Some(Color::LightGreen));
        },
        Color::LightYellow => {
            assert(named_color("light_yellow"@) == Some(Color::LightYellow));
        },
        Color::LightBlue => {
            assert(named_color("light_blue"@) == Some(Color::LightBlue));
        },
        Color::LightMagenta => {
            assert(named_color("light_magenta"@) == Some(Color::LightMagenta));
        },
        Color::LightCyan => {
            assert(named_color("light_cyan"@) == Some(Color::LightCyan));
        },
        Color::LightGray => {
            assert(named_color("light_gray"@) == Some(Color::LightGray));
        },
        Color::White => {
            assert(named_color("white"@) == Some(Color::White));
        },
        Color::Rgb(..) => {},
        Color::Indexed(_) => {},
    }
}

/// Reading a string whose lowercase form is a color's name gives that
/// color, and reading a string as a named color (not `#rrggbb`) means its
/// lowercase form is that color's name.
pub proof fn law_from_str_reads_names(value: Seq<char>, r: Result<Color, Error>, c: Color)
    requires
        parses_to(value, r),
    ensures
        color_name(c) == Some(lowercase(value)) ==> r == Ok::<Color, Error>(c),
        r == Ok::<Color, Error>(c) && !(c is Rgb) ==> color_name(c) == Some(lowercase(value)),
{
    law_color_names_read_back(c, lowercase(value));
    if let Some(n) = color_name(c) {
        law_color_names_read_back(c, n);
    }
    match named_color(lowercase(value)) {
        Some(d) => law_color_names_read_back(d, lowercase(value)),
        None => {},
    }
}

/// The color a string names: a color name in any case, or `#rrggbb`.
pub fn from_str(value: &str) -> (r: Result<Color, Error>)
    requires
        hex_cuts_ok(value@),
        utf8_bytes(value@).len() <= usize::MAX,
    ensures
        parses_to(value@, r),
{
    let lower = str_to_lowercase(value);
    if is_name(&lower, "reset") {
        Ok(Color::Reset)
    } else if is_name(&lower, "black") {
        Ok(Color::Black)
    } else if is_name(&lower, "red") {
        Ok(Color::Red)
    } else if is_name(&lower, "green") {
        Ok(Color::Green)
    } else if is_name(&lower, "yellow") {
        Ok(Color::Yellow)
    } else if is_name(&lower, "blue") {
        Ok(Color::Blue)
    } else if is_name(&lower, "magenta") {
        Ok(Color::Magenta)
    } else if is_name(&lower, "cyan") {
        Ok(Color::Cyan)
    } else if is_name(&lower, "gray") {
        Ok(Color::Gray)
    } else if is_name(&lower, "light_red") {
        Ok(Color::LightRed)
    } else if is_name(&lower, "light_green") {
        Ok(Color::LightGreen)
    } else if is_name(&lower, "light_yellow") {
        Ok(Color::LightYellow)
    } else if is_name(&lower, "light_blue") {
        Ok(Color::LightBlue)
    } else if is_name(&lower, "light_magenta") {
        Ok(Color::LightMagenta)
    } else if is_name(&lower, "light_cyan") {
        Ok(Color::LightCyan)
    } else if is_name(&lower, "light_gray") {
        Ok(Color::LightGray)
    } else if is_name(&lower, "white") {
        Ok(Color::White)
    } else if value.unicode_len() > 0 && value.get_char(0) == '#' {
        try_parse_hex(value)
    } else {
        Err(Error::InvalidName(value.to_owned()))
    }
}

/// Reads a color from a string, or gives `None` where `from_str` cannot
/// read the string: a `#` string of seven bytes whose byte pairs do not end
/// on char boundaries.
pub fn parse(value: &str) -> (r: Option<Result<Color, Error>>)
    requires
        utf8_bytes(value@).len() <= usize::MAX,
    ensures
        r is None <==> !hex_cuts_ok(value@),
        r matches Some(c) ==> parses_to(value@, c),
{
    if value.unicode_len() > 0 && value.get_char(0) == '#' && value.len() == 7 {
        if !(value.is_char_boundary(3) && value.is_char_boundary(5)) {
            return None;
        }
    }
    Some(from_str(value))
}

} // verus!
