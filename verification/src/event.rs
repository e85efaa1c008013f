//! The editor's input events, independent of the terminal library that
//! reads them, and the notation of a key event in keymaps.
use vstd::prelude::*;

use crate::text::{string_push, string_push_str};

use crate::line_number::{all_digits, numeral_value};

verus! {

/// An input event.
#[derive(Debug, PartialOrd, Ord, PartialEq, Eq, Structural, Hash)]
pub enum Event {
    Key(KeyEvent),
}

/// A key pressed, released or repeated, with the modifiers held.
#[derive(Debug, PartialOrd, Ord, PartialEq, Eq, Structural, Hash)]
pub struct KeyEvent {
    pub code: KeyCode,
    pub modifiers: KeyModifiers,
    pub kind: KeyEventKind,
}

/// A key.
#[derive(Debug, PartialOrd, Ord, PartialEq, Eq, Structural, Clone, Copy, Hash)]
pub enum KeyCode {
    Backspace,
    Enter,
    Left,
    Right,
    Up,
    Down,
    Home,
    End,
    PageUp,
    PageDown,
    Tab,
    BackTab,
    Delete,
    Insert,
    F(u8),
    Char(char),
    Null,
    Esc,
    CapsLock,
    ScrollLock,
    NumLock,
    PrintScreen,
    Pause,
    Menu,
    KeypadBegin,
    Media(MediaKeyCode),
    Modifier(ModifierKeyCode),
}

/// A set of modifier keys, one bit each.
#[derive(Debug, Clone, Copy, PartialOrd, Ord, PartialEq, Eq, Structural, Hash)]
pub struct KeyModifiers {
    bits: u8,
}

impl KeyModifiers {
    /// Only the bits of the six modifiers are ever set.
    #[verifier::type_invariant]
    closed spec fn inv(self) -> bool {
        self.bits <= 0b0011_1111
    }

    /// Only the bits of the six modifiers are set: every value of the type
    /// is valid.
    pub open spec fn valid(self) -> bool {
        self.spec_bits() <= 0b0011_1111
    }

    /// Shift.
    pub fn shift() -> (r: KeyModifiers)
        ensures
            r.spec_bits() == 1,
    {
        KeyModifiers { bits: 0b0000_0001 }
    }

    /// Control.
    pub fn control() -> (r: KeyModifiers)
        ensures
            r.spec_bits() == 2,
    {
        KeyModifiers { bits: 0b0000_0010 }
    }

    /// Alt.
    pub fn alt() -> (r: KeyModifiers)
        ensures
            r.spec_bits() == 4,
    {
        KeyModifiers { bits: 0b0000_0100 }
    }

    /// Super.
    pub fn super_key() -> (r: KeyModifiers)
        ensures
            r.spec_bits() == 8,
    {
        KeyModifiers { bits: 0b0000_1000 }
    }

    /// Hyper.
    pub fn hyper() -> (r: KeyModifiers)
        ensures
            r.spec_bits() == 16,
    {
        KeyModifiers { bits: 0b0001_0000 }
    }

    /// Meta.
    pub fn meta() -> (r: KeyModifiers)
        ensures
            r.spec_bits() == 32,
    {
        KeyModifiers { bits: 0b0010_0000 }
    }

    /// No modifier.
    pub fn none() -> (r: KeyModifiers)
        ensures
            r.spec_bits() == 0,
    {
        KeyModifiers { bits: 0 }
    }

    /// The bits of the set.
    pub closed spec fn spec_bits(self) -> u8 {
        self.bits
    }

    /// The bits of the set.
    pub fn bits(&self) -> (r: u8)
        ensures
            r == self.spec_bits(),
            self.valid(),
    {
        proof {
            use_type_invariant(self);
        }
        self.bits
    }

    /// The set of the modifiers whose bits are set in `bits`, ignoring the
    /// bits of no modifier.
    pub fn from_bits_truncate(bits: u8) -> (r: KeyModifiers)
        ensures
            r.spec_bits() == bits & 0b0011_1111,
    {
        assert(bits & 0b0011_1111 <= 0b0011_1111) by (bit_vector);
        KeyModifiers { bits: bits & 0b0011_1111 }
    }

    /// No modifier.
    pub fn empty() -> (r: KeyModifiers)
        ensures
            r.spec_bits() == 0,
    {
        KeyModifiers { bits: 0 }
    }

    /// Whether no modifier is in the set.
    pub fn is_empty(&self) -> (r: bool)
        ensures
            r == (self.spec_bits() == 0),
    {
        self.bits == 0
    }

    /// Whether every modifier of `other` is in the set.
    pub fn contains(&self, other: KeyModifiers) -> (r: bool)
        ensures
            r == (self.spec_bits() & other.spec_bits() == other.spec_bits()),
    {
        self.bits & other.bits == other.bits
    }

    /// The modifiers in either set.
    pub fn union(self, other: KeyModifiers) -> (r: KeyModifiers)
        ensures
            r.spec_bits() == self.spec_bits() | other.spec_bits(),
    {
        proof {
            use_type_invariant(&self);
            use_type_invariant(&other);
        }
        let (a, b) = (self.bits, other.bits);
        assert(a | b <= 0b0011_1111) by (bit_vector)
            requires
                a <= 0b0011_1111,
                b <= 0b0011_1111,
        ;
        KeyModifiers { bits: self.bits | other.bits }
    }

    /// The modifiers in both sets.
    pub fn intersection(self, other: KeyModifiers) -> (r: KeyModifiers)
        ensures
            r.spec_bits() == self.spec_bits() & other.spec_bits(),
    {
        proof {
            use_type_invariant(&self);
        }
        let (a, b) = (self.bits, other.bits);
        assert(a & b <= a) by (bit_vector);
        KeyModifiers { bits: self.bits & other.bits }
    }

    /// The modifiers not in the set.
    pub fn complement(self) -> (r: KeyModifiers)
        ensures
            r.spec_bits() == !self.spec_bits() & 0b0011_1111,
    {
        let a = self.bits;
        assert(!a & 0b0011_1111 <= 0b0011_1111) by (bit_vector);
        KeyModifiers { bits: !self.bits & 0b0011_1111 }
    }
}

/// The union of two sets of modifiers holds every modifier of each, and
/// does not depend on their order.
pub proof fn law_union_holds_both(a: KeyModifiers, b: KeyModifiers)
    ensures
        (a.spec_bits() | b.spec_bits()) & a.spec_bits() == a.spec_bits(),
        (a.spec_bits() | b.spec_bits()) & b.spec_bits() == b.spec_bits(),
        a.spec_bits() | b.spec_bits() == b.spec_bits() | a.spec_bits(),
{
    let (x, y) = (a.spec_bits(), b.spec_bits());
    assert((x | y) & x == x && (x | y) & y == y && x | y == y | x) by (bit_vector);
}

/// A set of modifiers and its complement share no modifier, and together
/// hold all six; complementing twice gives the set back.
pub proof fn law_complement(a: KeyModifiers)
    requires
        a.valid(),
    ensures
        a.spec_bits() & (!a.spec_bits() & 0b0011_1111) == 0,
        a.spec_bits() | (!a.spec_bits() & 0b0011_1111) == 0b0011_1111,
        !(!a.spec_bits() & 0b0011_1111) & 0b0011_1111 == a.spec_bits(),
{
    let x = a.spec_bits();
    assert(x & (!x & 0b0011_1111) == 0 && x | (!x & 0b0011_1111) == 0b0011_1111 && !(!x
        & 0b0011_1111) & 0b0011_1111 == x) by (bit_vector)
        requires
            x <= 0b0011_1111,
    ;
}

/// Reading a set's bits and truncating them gives the same set back.
pub proof fn law_bits_round_trip(a: KeyModifiers)
    requires
        a.valid(),
    ensures
        a.spec_bits() & 0b0011_1111 == a.spec_bits(),
{
    let x = a.spec_bits();
    assert(x & 0b0011_1111 == x) by (bit_vector)
        requires
            x <= 0b0011_1111,
    ;
}

/// Whether a key was pressed, released or held.
#[derive(Debug, Clone, Copy, PartialEq, Eq, Structural, PartialOrd, Ord, Hash)]
pub enum KeyEventKind {
    Press,
    Release,
    Repeat,
}

/// A media key.
#[derive(Debug, PartialOrd, Ord, PartialEq, Eq, Structural, Clone, Copy, Hash)]
pub enum MediaKeyCode {
    Play,
    Pause,
    PlayPause,
    Reverse,
    Stop,
    FastForward,
    Rewind,
    TrackNext,
    TrackPrevious,
    Record,
    LowerVolume,
    RaiseVolume,
    MuteVolume,
}

/// A modifier key pressed on its own.
#[derive(Debug, PartialOrd, Ord, PartialEq, Eq, Structural, Clone, Copy, Hash)]
pub enum ModifierKeyCode {
    LeftShift,
    LeftControl,
    LeftAlt,
    LeftSuper,
    LeftHyper,
    LeftMeta,
    RightShift,
    RightControl,
    RightAlt,
    RightSuper,
    RightHyper,
    RightMeta,
    IsoLevel3Shift,
    IsoLevel5Shift,
}

/// The decimal digit `d`.
pub open spec fn digit_char(d: int) -> char {
    if d == 0 {
        '0'
    } else if d == 1 {
        '1'
    } else if d == 2 {
        '2'
    } else if d == 3 {
        '3'
    } else if d == 4 {
        '4'
    } else if d == 5 {
        '5'
    } else if d == 6 {
        '6'
    } else if d == 7 {
        '7'
    } else if d == 8 {
        '8'
    } else {
        '9'
    }
}

/// `n` in decimal.
pub open spec fn decimal(n: u8) -> Seq<char> {
    if n >= 100 {
        seq![digit_char(n as int / 100), digit_char((n as int / 10) % 10), digit_char(n as int % 10)]
    } else if n >= 10 {
        seq![digit_char(n as int / 10), digit_char(n as int % 10)]
    } else {
        seq![digit_char(n as int)]
    }
}

/// The name of a media key.
pub open spec fn media_label(media: MediaKeyCode) -> Seq<char> {
    match media {
        MediaKeyCode::Play => "play"@,
        MediaKeyCode::Pause => "pause"@,
        MediaKeyCode::PlayPause => "playpause"@,
        MediaKeyCode::Reverse => "reverse"@,
        MediaKeyCode::Stop => "stop"@,
        MediaKeyCode::FastForward => "ffwd"@,
        MediaKeyCode::Rewind => "rewind"@,
        MediaKeyCode::TrackNext => "next"@,
        MediaKeyCode::TrackPrevious => "prev"@,
        MediaKeyCode::Record => "record"@,
        MediaKeyCode::LowerVolume => "vol-down"@,
        MediaKeyCode::RaiseVolume => "vol-up"@,
        MediaKeyCode::MuteVolume => "mute"@,
    }
}

/// The name of a modifier key.
pub open spec fn modifier_label(modifier: ModifierKeyCode) -> Seq<char> {
    match modifier {
        ModifierKeyCode::LeftShift | ModifierKeyCode::RightShift | ModifierKeyCode::IsoLevel3Shift
        | ModifierKeyCode::IsoLevel5Shift => "shift"@,
        ModifierKeyCode::LeftControl | ModifierKeyCode::RightControl => "ctrl"@,
        ModifierKeyCode::LeftAlt | ModifierKeyCode::RightAlt => "alt"@,
        ModifierKeyCode::LeftSuper | ModifierKeyCode::RightSuper => "super"@,
        ModifierKeyCode::LeftHyper | ModifierKeyCode::RightHyper => "hyper"@,
        ModifierKeyCode::LeftMeta | ModifierKeyCode::RightMeta => "meta"@,
    }
}

/// The name of a key in keymaps, and whether it is written between `<`
/// and `>` even without a modifier: a char stands for itself, other keys
/// have names.
pub open spec fn key_label(code: KeyCode) -> (Seq<char>, bool) {
    match code {
        KeyCode::Char(c) => (seq![c], false),
        KeyCode::Backspace => ("bs"@, true),
        KeyCode::Enter => ("cr"@, true),
        KeyCode::Left => ("left"@, true),
        KeyCode::Right => ("right"@, true),
        KeyCode::Up => ("up"@, true),
        KeyCode::Down => ("down"@, true),
        KeyCode::Home => ("home"@, true),
        KeyCode::End => ("end"@, true),
        KeyCode::PageUp => ("pgup"@, true),
        KeyCode::PageDown => ("pgdn"@, true),
        KeyCode::Tab => ("tab"@, true),
        KeyCode::BackTab => ("btab"@, true),
        KeyCode::Delete => ("del"@, true),
        KeyCode::Insert => ("ins"@, true),
        KeyCode::F(n) => (seq!['f'] + decimal(n), true),
        KeyCode::Null => ("null"@, true),
        KeyCode::Esc => ("esc"@, true),
        KeyCode::CapsLock => ("caps"@, true),
        KeyCode::ScrollLock => ("scroll"@, true),
        KeyCode::NumLock => ("num"@, true),
        KeyCode::PrintScreen => ("print"@, true),
        KeyCode::Pause => ("pause"@, true),
        KeyCode::Menu => ("menu"@, true),
        KeyCode::KeypadBegin => ("begin"@, true),
        KeyCode::Media(media) => (media_label(media), true),
        KeyCode::Modifier(modifier) => (modifier_label(modifier), true),
    }
}

/// Whether the modifier bits `m` hold the modifier `flag`.
pub open spec fn holds(m: u8, flag: u8) -> bool {
    m & flag == flag
}

/// The notation of a key event in keymaps: the key's name, after `c-` for
/// control and `a-` for alt and for meta; between `<` and `>` when a
/// modifier other than shift is held, or when the key has a name of more
/// than one char.
pub open spec fn key_notation(event: KeyEvent) -> Seq<char> {
    let m = event.modifiers.spec_bits();
    let wrapped = m & 0b0011_1110 != 0;
    let mods = (if holds(m, 2) { "c-"@ } else { Seq::empty() }) + (if holds(m, 4) {
        "a-"@
    } else {
        Seq::empty()
    }) + (if holds(m, 32) { "a-"@ } else { Seq::empty() });
    let (label, always) = key_label(event.code);
    if wrapped {
        seq!['<'] + mods + label + seq!['>']
    } else if always {
        seq!['<'] + label + seq!['>']
    } else {
        label
    }
}

/// The notation of a key event opens with `<` exactly when it closes with
/// `>`, but for the keys `<` and `>` themselves written bare.
pub proof fn law_notation_brackets_match(event: KeyEvent)
    requires
        !(event.modifiers.spec_bits() & 0b0011_1110 == 0 && (event.code == KeyCode::Char('<')
            || event.code == KeyCode::Char('>'))),
    ensures
        key_notation(event).len() > 0,
        key_notation(event)[0] == '<' <==> key_notation(event).last() == '>',
{
    let m = event.modifiers.spec_bits();
    let wrapped = m & 0b0011_1110 != 0;
    let (label, always) = key_label(event.code);
    let mods = (if holds(m, 2) { "c-"@ } else { Seq::empty() }) + (if holds(m, 4) {
        "a-"@
    } else {
        Seq::empty()
    }) + (if holds(m, 32) { "a-"@ } else { Seq::empty() });
    if wrapped {
        let n = seq!['<'] + mods + label + seq!['>'];
        assert(n[0] == '<');
        assert(n.last() == '>');
    } else if always {
        let n = seq!['<'] + label + seq!['>'];
        assert(n[0] == '<');
        assert(n.last() == '>');
    } else {
        assert(event.code is Char);
    }
}

/// The value of the decimal digit char `digit_char(d)` is `d`.
proof fn lemma_digit_value(d: int)
    requires
        0 <= d <= 9,
    ensures
        digit_char(d) as int - '0' as int == d,
{
}

proof fn lemma_numeral_one(c: char)
    ensures
        numeral_value(seq![c]) == c as int - '0' as int,
{
    assert(seq![c].drop_last() =~= Seq::<char>::empty());
    assert(numeral_value(Seq::<char>::empty()) == 0);
}

/// The numeral of a key number (as in `<f12>`) reads back, most
/// significant digit first, as the number, with no leading zero.
pub proof fn law_decimal_reads_back(n: u8)
    ensures
        all_digits(decimal(n)),
        decimal(n)[0] != '0' || n == 0,
        numeral_value(decimal(n)) == n,
{
    let d = decimal(n);
    lemma_digit_value(n as int % 10);
    if n >= 100 {
        assert(n as int / 100 <= 2);
        lemma_digit_value(n as int / 100);
        lemma_digit_value((n as int / 10) % 10);
        assert(d.drop_last().drop_last().drop_last() =~= Seq::<char>::empty());
        assert(d.drop_last().drop_last() =~= seq![d[0]]);
        assert(d.drop_last() =~= seq![d[0], d[1]]);
        assert(n as int == 100 * (n as int / 100) + 10 * ((n as int / 10) % 10) + n as int % 10) by (nonlinear_arith);
        lemma_numeral_one(d[0]);
        assert(numeral_value(d.drop_last().drop_last()) == n as int / 100);
        assert(numeral_value(d.drop_last()) == (n as int / 100) * 10 + (n as int / 10) % 10);
    } else if n >= 10 {
        lemma_digit_value(n as int / 10);
        assert(d.drop_last().drop_last() =~= Seq::<char>::empty());
        assert(d.drop_last() =~= seq![d[0]]);
        assert(n as int == 10 * (n as int / 10) + n as int % 10) by (nonlinear_arith);
        lemma_numeral_one(d[0]);
        assert(numeral_value(d.drop_last()) == n as int / 10);
    } else {
        lemma_digit_value(n as int);
        assert(d =~= seq![d[0]]);
        lemma_numeral_one(d[0]);
    }
    assert forall|i: int| 0 <= i < d.len() implies '0' <= #[trigger] d[i] <= '9' by {}
}

/// Distinct numbers have distinct decimal numerals.
pub proof fn law_decimal_injective(n1: u8, n2: u8)
    ensures
        decimal(n1) == decimal(n2) ==> n1 == n2,
{
    if decimal(n1) == decimal(n2) {
        let a = decimal(n1);
        lemma_digit_value(n1 as int % 10);
        lemma_digit_value(n2 as int % 10);
        lemma_digit_value((n1 as int / 10) % 10);
        lemma_digit_value((n2 as int / 10) % 10);
        if n1 < 100 {
            lemma_digit_value(n1 as int / 10);
        }
        if n2 < 100 {
            lemma_digit_value(n2 as int / 10);
        }
        assert(n1 as int / 100 <= 2 && n2 as int / 100 <= 2);
        lemma_digit_value(n1 as int / 100);
        lemma_digit_value(n2 as int / 100);
        assert(n1 as int == 100 * (n1 as int / 100) + 10 * ((n1 as int / 10) % 10) + n1 as int % 10) by (nonlinear_arith);
        assert(n2 as int == 100 * (n2 as int / 100) + 10 * ((n2 as int / 10) % 10) + n2 as int % 10) by (nonlinear_arith);
        assert(n1 as int == 10 * (n1 as int / 10) + n1 as int % 10) by (nonlinear_arith);
        assert(n2 as int == 10 * (n2 as int / 10) + n2 as int % 10) by (nonlinear_arith);
        let b = decimal(n2);
        if n1 >= 100 {
            assert(a.len() == 3);
            assert(n2 >= 100);
            assert(digit_char(n1 as int / 100) == digit_char(n2 as int / 100));
            assert(n1 as int / 100 == n2 as int / 100);
            assert(digit_char((n1 as int / 10) % 10) == digit_char((n2 as int / 10) % 10));
            assert((n1 as int / 10) % 10 == (n2 as int / 10) % 10);
            assert(digit_char(n1 as int % 10) == digit_char(n2 as int % 10));
            assert(n1 as int % 10 == n2 as int % 10);
        } else if n1 >= 10 {
            assert(a.len() == 2);
            assert(10 <= n2 < 100);
            assert(digit_char(n1 as int / 10) == digit_char(n2 as int / 10));
            assert(n1 as int / 10 == n2 as int / 10);
            assert(digit_char(n1 as int % 10) == digit_char(n2 as int % 10));
            assert(n1 as int % 10 == n2 as int % 10);
        } else {
            assert(a.len() == 1);
            assert(n2 < 10);
            assert(a[0] == b[0]);
            assert(digit_char(n1 as int) == digit_char(n2 as int));
            assert(n1 % 10 == n1 && n2 % 10 == n2);
        }
    }
}

/// Pressed with no modifier, keys other than media and modifier keys have
/// notations of their own: no two such keys are written alike. (Media and
/// modifier keys are left out: `Pause` and the media pause key are both
/// `<pause>`, and the left and right shift keys are both `<shift>`.)
pub proof fn law_plain_notation_injective(a: KeyEvent, b: KeyEvent)
    requires
        a.modifiers.spec_bits() == 0,
        b.modifiers.spec_bits() == 0,
        !(a.code is Media) && !(a.code is Modifier),
        !(b.code is Media) && !(b.code is Modifier),
        key_notation(a) == key_notation(b),
    ensures
        a.code == b.code,
{
    reveal_strlit("bs");
    reveal_strlit("cr");
    reveal_strlit("left");
    reveal_strlit("right");
    reveal_strlit("up");
    reveal_strlit("down");
    reveal_strlit("home");
    reveal_strlit("end");
    reveal_strlit("pgup");
    reveal_strlit("pgdn");
    reveal_strlit("tab");
    reveal_strlit("btab");
    reveal_strlit("del");
    reveal_strlit("ins");
    reveal_strlit("null");
    reveal_strlit("esc");
    reveal_strlit("caps");
    reveal_strlit("scroll");
    reveal_strlit("num");
    reveal_strlit("print");
    reveal_strlit("pause");
    reveal_strlit("menu");
    reveal_strlit("begin");
    assert("bs"@.len() == 2 && "bs"@[0] == 'b' && "bs"@[1] == 's');
    assert("cr"@.len() == 2 && "cr"@[0] == 'c' && "cr"@[1] == 'r');
    assert("left"@.len() == 4 && "left"@[0] == 'l' && "left"@[1] == 'e' && "left"@[2] == 'f');
    assert("right"@.len() == 5 && "right"@[0] == 'r' && "right"@[1] == 'i' && "right"@[2] == 'g');
    assert("up"@.len() == 2 && "up"@[0] == 'u' && "up"@[1] == 'p');
    assert("down"@.len() == 4 && "down"@[0] == 'd' && "down"@[1] == 'o' && "down"@[2] == 'w');
    assert("home"@.len() == 4 && "home"@[0] == 'h' && "home"@[1] == 'o' && "home"@[2] == 'm');
    assert("end"@.len() == 3 && "end"@[0] == 'e' && "end"@[1] == 'n' && "end"@[2] == 'd');
    assert("pgup"@.len() == 4 && "pgup"@[0] == 'p' && "pgup"@[1] == 'g' && "pgup"@[2] == 'u');
    assert("pgdn"@.len() == 4 && "pgdn"@[0] == 'p' && "pgdn"@[1] == 'g' && "pgdn"@[2] == 'd');
    assert("tab"@.len() == 3 && "tab"@[0] == 't' && "tab"@[1] == 'a' && "tab"@[2] == 'b');
    assert("btab"@.len() == 4 && "btab"@[0] == 'b' && "btab"@[1] == 't' && "btab"@[2] == 'a');
    assert("del"@.len() == 3 && "del"@[0] == 'd' && "del"@[1] == 'e' && "del"@[2] == 'l');
    assert("ins"@.len() == 3 && "ins"@[0] == 'i' && "ins"@[1] == 'n' && "ins"@[2] == 's');
    assert("null"@.len() == 4 && "null"@[0] == 'n' && "null"@[1] == 'u' && "null"@[2] == 'l');
    assert("esc"@.len() == 3 && "esc"@[0] == 'e' && "esc"@[1] == 's' && "esc"@[2] == 'c');
    assert("caps"@.len() == 4 && "caps"@[0] == 'c' && "caps"@[1] == 'a' && "caps"@[2] == 'p');
    assert("scroll"@.len() == 6 && "scroll"@[0] == 's' && "scroll"@[1] == 'c' && "scroll"@[2] == 'r');
    assert("num"@.len() == 3 && "num"@[0] == 'n' && "num"@[1] == 'u' && "num"@[2] == 'm');
    assert("print"@.len() == 5 && "print"@[0] == 'p' && "print"@[1] == 'r' && "print"@[2] == 'i');
    assert("pause"@.len() == 5 && "pause"@[0] == 'p' && "pause"@[1] == 'a' && "pause"@[2] == 'u');
    assert("menu"@.len() == 4 && "menu"@[0] == 'm' && "menu"@[1] == 'e' && "menu"@[2] == 'n');
    assert("begin"@.len() == 5 && "begin"@[0] == 'b' && "begin"@[1] == 'e' && "begin"@[2] == 'g');
    let ba = a.modifiers.spec_bits();
    let bb = b.modifiers.spec_bits();
    assert(ba & 0b0011_1110u8 == 0u8) by (bit_vector)
        requires
            ba == 0u8,
    ;
    assert(bb & 0b0011_1110u8 == 0u8) by (bit_vector)
        requires
            bb == 0u8,
    ;
    let na = key_notation(a);
    let nb = key_notation(b);
    let (la, wa) = key_label(a.code);
    let (lb, wb) = key_label(b.code);
    if wa && wb {
        assert(na =~= seq!['<'] + la + seq!['>']);
        assert(nb =~= seq!['<'] + lb + seq!['>']);
        assert(la =~= na.subrange(1, na.len() - 1));
        assert(lb =~= nb.subrange(1, nb.len() - 1));
        assert(la == lb);
        if a.code is F && b.code is F {
            assert(la.subrange(1, la.len() as int) =~= decimal(a.code->F_0));
            assert(lb.subrange(1, lb.len() as int) =~= decimal(b.code->F_0));
            law_decimal_injective(a.code->F_0, b.code->F_0);
        } else {
            assert(la[0] == lb[0] && la.len() == lb.len());
            match a.code {
        KeyCode::Backspace => {},
        KeyCode::Enter => {},
        KeyCode::Left => {},
        KeyCode::Right => {},
        KeyCode::Up => {},
        KeyCode::Down => {},
        KeyCode::Home => {},
        KeyCode::End => {},
        KeyCode::PageUp => {},
        KeyCode::PageDown => {},
        KeyCode::Tab => {},
        KeyCode::BackTab => {},
        KeyCode::Delete => {},
        KeyCode::Insert => {},
        KeyCode::Null => {},
        KeyCode::Esc => {},
        KeyCode::CapsLock => {},
        KeyCode::ScrollLock => {},
        KeyCode::NumLock => {},
        KeyCode::PrintScreen => {},
        KeyCode::Pause => {},
        KeyCode::Menu => {},
        KeyCode::KeypadBegin => {},
                _ => {},
            }
        }
    } else if !wa && !wb {
        assert(na[0] == nb[0]);
    } else {
        assert(na.len() != nb.len());
    }
}

/// The char of the decimal digit `d`.
pub(crate) fn digit(d: u8) -> (c: char)
    requires
        d < 10,
    ensures
        c == digit_char(d as int),
{
    match d {
        0 => '0',
        1 => '1',
        2 => '2',
        3 => '3',
        4 => '4',
        5 => '5',
        6 => '6',
        7 => '7',
        8 => '8',
        _ => '9',
    }
}

/// `n` in decimal.
fn decimal_string(n: u8) -> (s: String)
    ensures
        s@ == decimal(n),
{
    let mut s = String::new();
    if n >= 100 {
        string_push(&mut s, digit(n / 100));
        string_push(&mut s, digit((n / 10) % 10));
    } else if n >= 10 {
        string_push(&mut s, digit(n / 10));
    }
    string_push(&mut s, digit(n % 10));
    assert(s@ =~= decimal(n));
    s
}

/// The name of a key, and whether it is always written between `<` and
/// `>`.
fn label(code: KeyCode) -> (r: (String, bool))
    ensures
        r.0@ == key_label(code).0,
        r.1 == key_label(code).1,
{
    match code {
        KeyCode::Char(c) => {
            let mut s = String::new();
            string_push(&mut s, c);
            assert(s@ =~= seq![c]);
            (s, false)
        },
        KeyCode::Backspace => ("bs".to_owned(), true),
        KeyCode::Enter => ("cr".to_owned(), true),
        KeyCode::Left => ("left".to_owned(), true),
        KeyCode::Right => ("right".to_owned(), true),
        KeyCode::Up => ("up".to_owned(), true),
        KeyCode::Down => ("down".to_owned(), true),
        KeyCode::Home => ("home".to_owned(), true),
        KeyCode::End => ("end".to_owned(), true),
        KeyCode::PageUp => ("pgup".to_owned(), true),
        KeyCode::PageDown => ("pgdn".to_owned(), true),
        KeyCode::Tab => ("tab".to_owned(), true),
        KeyCode::BackTab => ("btab".to_owned(), true),
        KeyCode::Delete => ("del".to_owned(), true),
        KeyCode::Insert => ("ins".to_owned(), true),
        KeyCode::F(n) => {
            let mut s = String::new();
            string_push(&mut s, 'f');
            let digits = decimal_string(n);
            string_push_str(&mut s, digits.as_str());
            assert(s@ =~= seq!['f'] + decimal(n));
            (s, true)
        },
        KeyCode::Null => ("null".to_owned(), true),
        KeyCode::Esc => ("esc".to_owned(), true),
        KeyCode::CapsLock => ("caps".to_owned(), true),
        KeyCode::ScrollLock => ("scroll".to_owned(), true),
        KeyCode::NumLock => ("num".to_owned(), true),
        KeyCode::PrintScreen => ("print".to_owned(), true),
        KeyCode::Pause => ("pause".to_owned(), true),
        KeyCode::Menu => ("menu".to_owned(), true),
        KeyCode::KeypadBegin => ("begin".to_owned(), true),
        KeyCode::Media(media) => {
            let name = match media {
                MediaKeyCode::Play => "play",
                MediaKeyCode::Pause => "pause",
                MediaKeyCode::PlayPause => "playpause",
                MediaKeyCode::Reverse => "reverse",
                MediaKeyCode::Stop => "stop",
                MediaKeyCode::FastForward => "ffwd",
                MediaKeyCode::Rewind => "rewind",
                MediaKeyCode::TrackNext => "next",
                MediaKeyCode::TrackPrevious => "prev",
                MediaKeyCode::Record => "record",
                MediaKeyCode::LowerVolume => "vol-down",
                MediaKeyCode::RaiseVolume => "vol-up",
                MediaKeyCode::MuteVolume => "mute",
            };
            (name.to_owned(), true)
        },
        KeyCode::Modifier(modifier) => {
            let name = match modifier {
                ModifierKeyCode::LeftShift | ModifierKeyCode::RightShift
                | ModifierKeyCode::IsoLevel3Shift | ModifierKeyCode::IsoLevel5Shift => "shift",
                ModifierKeyCode::LeftControl | ModifierKeyCode::RightControl => "ctrl",
                ModifierKeyCode::LeftAlt | ModifierKeyCode::RightAlt => "alt",
                ModifierKeyCode::LeftSuper | ModifierKeyCode::RightSuper => "super",
                ModifierKeyCode::LeftHyper | ModifierKeyCode::RightHyper => "hyper",
                ModifierKeyCode::LeftMeta | ModifierKeyCode::RightMeta => "meta",
            };
            (name.to_owned(), true)
        },
    }
}

impl KeyEvent {
    /// The notation of the event in keymaps, such as `j`, `<c-w>` or
    /// `<esc>`.
    pub fn to_string(&self) -> (r: String)
        ensures
            r@ == key_notation(*self),
    {
        let mut line = String::new();
        let has_any_modifier_but_shift = !self.modifiers.intersection(
            KeyModifiers::shift().complement(),
        ).is_empty();
        proof {
            let m = self.modifiers.spec_bits();
            assert(m & (!1u8 & 0b0011_1111u8) == m & 0b0011_1110u8) by (bit_vector);
        }
        if has_any_modifier_but_shift {
            string_push(&mut line, '<');
        }
        if self.modifiers.contains(KeyModifiers::control()) {
            string_push_str(&mut line, "c-");
        }
        if self.modifiers.contains(KeyModifiers::alt()) {
            string_push_str(&mut line, "a-");
        }
        if self.modifiers.contains(KeyModifiers::meta()) {
            string_push_str(&mut line, "a-");
        }
        let (base, always_wrap) = label(self.code);
        string_push_str(&mut line, base.as_str());
        proof {
            let m = self.modifiers.spec_bits();
            assert(!(m & 0b0011_1110u8 != 0) ==> !holds(m, 2) && !holds(m, 4) && !holds(m, 32))
                by (bit_vector);
        }
        if has_any_modifier_but_shift {
            string_push(&mut line, '>');
        } else if always_wrap {
            let mut wrapped = String::new();
            string_push(&mut wrapped, '<');
            string_push_str(&mut wrapped, line.as_str());
            string_push(&mut wrapped, '>');
            line = wrapped;
        }
        proof {
            let m = self.modifiers.spec_bits();
            let mods = (if holds(m, 2) { "c-"@ } else { Seq::empty() }) + (if holds(m, 4) {
                "a-"@
            } else {
                Seq::empty()
            }) + (if holds(m, 32) { "a-"@ } else { Seq::empty() });
            if has_any_modifier_but_shift {
                assert(line@ =~= seq!['<'] + mods + key_label(self.code).0 + seq!['>']);
            } else {
                assert(mods =~= Seq::<char>::empty());
                if always_wrap {
                    assert(line@ =~= seq!['<'] + key_label(self.code).0 + seq!['>']);
                } else {
                    assert(line@ =~= key_label(self.code).0);
                }
            }
        }
        line
    }
}

} // verus!
