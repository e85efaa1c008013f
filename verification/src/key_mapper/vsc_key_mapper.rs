//! The keymaps of the VSCode editing style: single keys to commands.
use vstd::prelude::*;

use crate::event::{key_notation, Event, KeyCode, KeyEvent};
use crate::key_mapper::keymappers::Keymapper;
use crate::key_mapper::Command;
use crate::trie::Trie;

verus! {

/// A command of a keymap.
#[derive(Debug, PartialEq, Eq, Structural, PartialOrd, Ord, Clone, Copy)]
enum CommandWrapper {
    General(Command),
}

/// The commands a key runs.
#[derive(Debug)]
pub struct Keymap {
    commands: Vec<CommandWrapper>,
}

impl Keymap {
    fn new(commands: Vec<CommandWrapper>) -> (k: Self)
        ensures
            k.commands == commands,
    {
        Self { commands }
    }

    /// The commands the keymap runs.
    pub closed spec fn spec_commands(self) -> Seq<Command> {
        self.commands@.map_values(|w: CommandWrapper| match w {
            CommandWrapper::General(c) => c,
        })
    }
}

/// Resolves keys to commands by the VSCode keymaps.
pub struct VSCodeKeymapper {
    keymaps: Trie<Keymap>,
}

/// The VSCode keymaps: `q` quits and the arrows move the cursor. No other
/// key is bound.
pub open spec fn is_vsc_table(m: Map<Seq<char>, Keymap>) -> bool {
    &&& m.dom() == set!["q"@, "<left>"@, "<down>"@, "<up>"@, "<right>"@]
    &&& m["q"@].spec_commands() == seq![Command::Quit]
    &&& m["<left>"@].spec_commands() == seq![Command::MoveCursorLeft]
    &&& m["<down>"@].spec_commands() == seq![Command::MoveCursorDown]
    &&& m["<up>"@].spec_commands() == seq![Command::MoveCursorUp]
    &&& m["<right>"@].spec_commands() == seq![Command::MoveCursorRight]
}

impl VSCodeKeymapper {
    #[verifier::type_invariant]
    closed spec fn inv(self) -> bool {
        self.keymaps.wf()
    }

    /// The keymaps, by key notation.
    pub closed spec fn spec_keymaps(self) -> Map<Seq<char>, Keymap> {
        self.keymaps.view()
    }

    /// A keymapper with the VSCode keymaps.
    pub fn new() -> (k: Self)
        ensures
            is_vsc_table(k.spec_keymaps()),
    {
        let keymaps = load_vsc_keymaps();
        Self { keymaps }
    }

    /// What `parse_event` does: from this keymapper to `after`, handed
    /// `event`, returning `r`: the commands of the keymap of the event's key
    /// notation, if there is one; the keymaps stay.
    pub open spec fn parses(self, after: Self, event: Option<Event>, r: Option<Vec<Command>>) -> bool {
        &&& (after.spec_keymaps() == self.spec_keymaps())
        &&& (match event {
                None => r is None,
                Some(Event::Key(key)) => {
                    let s = key_notation(key);
                    if s.len() > 0 && self.spec_keymaps().contains_key(s) {
                        r is Some && r->0@ == self.spec_keymaps()[s].spec_commands()
                    } else {
                        r is None
                    }
                },
            })
    }

    /// The commands of the keymap of a key event, if there is one.
    pub fn parse_event(&mut self, event: Option<Event>) -> (r: Option<Vec<Command>>)
        ensures
            old(self).parses(*final(self), event, r),
    {
        proof {
            use_type_invariant(&*self);
        }
        let key = match event {
            None => return None,
            Some(Event::Key(key)) => key,
        };
        let key_str = key.to_string();
        let query = match self.keymaps.get(key_str.as_str()) {
            Some(query) => query,
            None => return None,
        };
        let keymap = match query.value {
            Some(keymap) => keymap,
            None => return None,
        };
        let mut commands: Vec<Command> = Vec::new();
        let mut i: usize = 0;
        while i < keymap.commands.len()
            invariant
                i <= keymap.commands@.len(),
                commands@ == keymap.spec_commands().subrange(0, i as int),
            decreases keymap.commands@.len() - i,
        {
            match keymap.commands[i] {
                CommandWrapper::General(command) => commands.push(command),
            }
            assert(keymap.spec_commands().subrange(0, i + 1) =~= keymap.spec_commands().subrange(
                0,
                i as int,
            ).push(keymap.spec_commands()[i as int]));
            i += 1;
        }
        assert(keymap.spec_commands().subrange(0, i as int) =~= keymap.spec_commands());
        Some(commands)
    }
}

impl Keymapper for VSCodeKeymapper {
    fn parse_event(&mut self, event: Option<Event>) -> (r: Option<Vec<Command>>)
        ensures
            old(self).parses(*final(self), event, r),
    {
        VSCodeKeymapper::parse_event(self, event)
    }
}

/// The VSCode keymaps.
fn load_vsc_keymaps() -> (keymaps: Trie<Keymap>)
    ensures
        keymaps.wf(),
        is_vsc_table(keymaps.view()),
{
    let mut keymaps = Trie::new();
    let move_cursor_left = CommandWrapper::General(Command::MoveCursorLeft);
    let move_cursor_down = CommandWrapper::General(Command::MoveCursorDown);
    let move_cursor_up = CommandWrapper::General(Command::MoveCursorUp);
    let move_cursor_right = CommandWrapper::General(Command::MoveCursorRight);
    let quit = CommandWrapper::General(Command::Quit);
    keymaps.insert("q", Keymap::new(vec![quit]));
    keymaps.insert("<left>", Keymap::new(vec![move_cursor_left]));
    keymaps.insert("<down>", Keymap::new(vec![move_cursor_down]));
    keymaps.insert("<up>", Keymap::new(vec![move_cursor_up]));
    keymaps.insert("<right>", Keymap::new(vec![move_cursor_right]));
    proof {
        reveal_strlit("q");
        reveal_strlit("<left>");
        reveal_strlit("<down>");
        reveal_strlit("<up>");
        reveal_strlit("<right>");
        let m = keymaps.view();
        assert("<left>"@[1] != "<down>"@[1]);
        assert("<left>"@ != "<down>"@);
        assert(m.dom() =~= set!["q"@, "<left>"@, "<down>"@, "<up>"@, "<right>"@]);
        assert(m["q"@].spec_commands() =~= seq![Command::Quit]);
        assert(m["<left>"@].spec_commands() =~= seq![Command::MoveCursorLeft]);
        assert(m["<down>"@].spec_commands() =~= seq![Command::MoveCursorDown]);
        assert(m["<up>"@].spec_commands() =~= seq![Command::MoveCursorUp]);
        assert(m["<right>"@].spec_commands() =~= seq![Command::MoveCursorRight]);
    }
    keymaps
}

/// A keymapper with the VSCode keymaps, handed an arrow key pressed with
/// no modifier, moves the cursor the way the arrow points; `q` quits.
pub proof fn law_vsc_arrows_move_their_way(
    k: VSCodeKeymapper,
    after: VSCodeKeymapper,
    key: KeyEvent,
    r: Option<Vec<Command>>,
)
    requires
        is_vsc_table(k.spec_keymaps()),
        key.modifiers.spec_bits() == 0,
        k.parses(after, Some(Event::Key(key)), r),
    ensures
        key.code == KeyCode::Left ==> r is Some && r->0@ == seq![Command::MoveCursorLeft],
        key.code == KeyCode::Right ==> r is Some && r->0@ == seq![Command::MoveCursorRight],
        key.code == KeyCode::Up ==> r is Some && r->0@ == seq![Command::MoveCursorUp],
        key.code == KeyCode::Down ==> r is Some && r->0@ == seq![Command::MoveCursorDown],
        key.code == KeyCode::Char('q') ==> r is Some && r->0@ == seq![Command::Quit],
{
    reveal_strlit("q");
    reveal_strlit("<left>");
    reveal_strlit("<right>");
    reveal_strlit("<up>");
    reveal_strlit("<down>");
    reveal_strlit("left");
    reveal_strlit("right");
    reveal_strlit("up");
    reveal_strlit("down");
    let bits = key.modifiers.spec_bits();
    assert(bits & 0b0011_1110u8 == 0u8) by (bit_vector)
        requires
            bits == 0u8,
    ;
    let n = key_notation(key);
    match key.code {
        KeyCode::Left => assert(n =~= "<left>"@),
        KeyCode::Right => assert(n =~= "<right>"@),
        KeyCode::Up => assert(n =~= "<up>"@),
        KeyCode::Down => assert(n =~= "<down>"@),
        KeyCode::Char(c) => if c == 'q' {
            assert(n =~= "q"@);
        },
        _ => {},
    }
}

} // verus!
