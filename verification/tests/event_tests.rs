use glyph::event::{Event, KeyCode, KeyEvent, KeyEventKind, KeyModifiers};
use glyph::key_mapper::keymappers::{Keymapper, KeymapperKind};
use glyph::key_mapper::vim_key_mapper::VimKeymapper;
use glyph::key_mapper::vsc_key_mapper::VSCodeKeymapper;
use glyph::key_mapper::Command;

fn key(code: KeyCode, modifiers: KeyModifiers) -> KeyEvent {
    KeyEvent { code, modifiers, kind: KeyEventKind::Press }
}

fn press(code: KeyCode) -> Option<Event> {
    Some(Event::Key(key(code, KeyModifiers::none())))
}

#[test]
fn key_event_plain_char() {
    assert_eq!(key(KeyCode::Char('j'), KeyModifiers::none()).to_string(), "j");
}

#[test]
fn key_event_shift_alone_is_not_wrapped() {
    assert_eq!(key(KeyCode::Char('J'), KeyModifiers::shift()).to_string(), "J");
}

#[test]
fn key_event_control_is_wrapped() {
    assert_eq!(key(KeyCode::Char('w'), KeyModifiers::control()).to_string(), "<c-w>");
    let both = KeyModifiers::control().union(KeyModifiers::alt());
    assert_eq!(key(KeyCode::Char('x'), both).to_string(), "<c-a-x>");
}

#[test]
fn key_event_named_keys_always_wrapped() {
    assert_eq!(key(KeyCode::Esc, KeyModifiers::none()).to_string(), "<esc>");
    assert_eq!(key(KeyCode::F(12), KeyModifiers::none()).to_string(), "<f12>");
    assert_eq!(key(KeyCode::Enter, KeyModifiers::control()).to_string(), "<c-cr>");
    assert_eq!(key(KeyCode::F(5), KeyModifiers::none()).to_string(), "<f5>");
}

#[test]
fn key_event_meta_writes_as_alt() {
    assert_eq!(key(KeyCode::Char('m'), KeyModifiers::meta()).to_string(), "<a-m>");
}

#[test]
fn key_event_super_opens_brackets_without_prefix() {
    assert_eq!(key(KeyCode::Char('s'), KeyModifiers::super_key()).to_string(), "<s>");
}

#[test]
fn key_event_bare_bracket_keys() {
    assert_eq!(key(KeyCode::Char('<'), KeyModifiers::none()).to_string(), "<");
    assert_eq!(key(KeyCode::Char('<'), KeyModifiers::control()).to_string(), "<c-<>");
}

#[test]
fn key_modifiers_set_algebra() {
    let a = KeyModifiers::control().union(KeyModifiers::shift());
    assert!(a.contains(KeyModifiers::control()));
    assert!(a.contains(KeyModifiers::shift()));
    assert!(!a.contains(KeyModifiers::alt()));
    assert_eq!(a.bits(), 3);
    assert_eq!(a.complement().bits(), 0b0011_1100);
    assert_eq!(a.complement().complement(), a);
    assert_eq!(a.intersection(KeyModifiers::shift()), KeyModifiers::shift());
    assert_eq!(KeyModifiers::from_bits_truncate(0xff).bits(), 0b0011_1111);
    assert_eq!(KeyModifiers::from_bits_truncate(a.bits()), a);
    assert!(KeyModifiers::empty().is_empty());
    assert!(!KeyModifiers::hyper().is_empty());
}

#[test]
fn vim_keymapper_moves_in_normal_mode() {
    let mut mapper = VimKeymapper::new();
    assert_eq!(mapper.parse_event(press(KeyCode::Char('j'))), Some(vec![Command::MoveCursorDown]));
    assert_eq!(mapper.parse_event(press(KeyCode::Char('q'))), Some(vec![Command::Quit]));
    assert_eq!(mapper.parse_event(press(KeyCode::Char('x'))), None);
    assert_eq!(mapper.parse_event(None), None);
}

#[test]
fn vim_keymapper_switches_modes() {
    let mut mapper = VimKeymapper::new();
    assert_eq!(mapper.parse_event(press(KeyCode::Char('i'))), Some(vec![]));
    assert_eq!(mapper.parse_event(press(KeyCode::Char('j'))), None);
    assert_eq!(mapper.parse_event(press(KeyCode::Esc)), Some(vec![]));
    assert_eq!(mapper.parse_event(press(KeyCode::Char('h'))), Some(vec![Command::MoveCursorLeft]));
}

#[test]
fn vsc_keymapper_arrows_move() {
    let mut mapper = VSCodeKeymapper::new();
    assert_eq!(mapper.parse_event(press(KeyCode::Left)), Some(vec![Command::MoveCursorLeft]));
    assert_eq!(mapper.parse_event(press(KeyCode::Char('j'))), None);
    assert_eq!(mapper.parse_event(press(KeyCode::Char('q'))), Some(vec![Command::Quit]));
}

#[test]
fn keymapper_kind_forwards() {
    let mut kind: KeymapperKind = VimKeymapper::new().into();
    assert_eq!(kind.parse_event(press(KeyCode::Char('k'))), Some(vec![Command::MoveCursorUp]));
    let mut kind: KeymapperKind = VSCodeKeymapper::new().into();
    assert_eq!(kind.parse_event(press(KeyCode::Down)), Some(vec![Command::MoveCursorDown]));
}
