//! The keymaps of the vim editing style: key sequences to commands, by mode.
use vstd::prelude::*;

use crate::event::{key_notation, Event, KeyCode, KeyEvent};
use crate::key_mapper::keymappers::Keymapper;
use crate::key_mapper::Command;
use crate::text::string_push_str;
use crate::trie::{is_continued, is_key_prefix, Trie};

verus! {

/// The vim modes the keymaps know.
#[derive(Debug, PartialEq, Eq, Structural, PartialOrd, Ord, Hash, Clone, Copy)]
pub enum EditorMode {
    Normal,
    Insert,
}

impl Default for EditorMode {
    fn default() -> (r: EditorMode)
        ensures
            r == EditorMode::Normal,
    {
        EditorMode::Normal
    }
}

/// A command of a keymap: one for the editor, or a switch of vim mode.
#[derive(Debug, PartialEq, Eq, Structural, PartialOrd, Ord, Clone, Copy)]
enum CommandWrapper {
    General(Command),
    Vim(VimCommand),
}

/// A switch of vim mode.
#[derive(Debug, PartialEq, Eq, Structural, PartialOrd, Ord, Clone, Copy)]
pub enum VimCommand {
    InsertMode,
    NormalMode,
}

/// The commands a key sequence runs, and the mode it works in.
#[derive(Debug)]
pub struct Keymap {
    mode: EditorMode,
    commands: Vec<CommandWrapper>,
}

/// The editor commands among `ws`, in order.
spec fn general_commands(ws: Seq<CommandWrapper>) -> Seq<Command>
    decreases ws.len(),
{
    if ws.len() == 0 {
        Seq::empty()
    } else {
        let rest = general_commands(ws.drop_last());
        match ws.last() {
            CommandWrapper::General(c) => rest.push(c),
            CommandWrapper::Vim(_) => rest,
        }
    }
}

/// The mode once the mode switches among `ws` ran, from `mode`.
spec fn mode_after(mode: EditorMode, ws: Seq<CommandWrapper>) -> EditorMode
    decreases ws.len(),
{
    if ws.len() == 0 {
        mode
    } else {
        match ws.last() {
            CommandWrapper::Vim(VimCommand::InsertMode) => EditorMode::Insert,
            CommandWrapper::Vim(VimCommand::NormalMode) => EditorMode::Normal,
            CommandWrapper::General(_) => mode_after(mode, ws.drop_last()),
        }
    }
}

impl Keymap {
    fn new(mode: EditorMode, commands: Vec<CommandWrapper>) -> (k: Self)
        ensures
            k.mode == mode,
            k.commands == commands,
    {
        Self { mode, commands }
    }

    /// The mode the keymap works in.
    pub closed spec fn spec_mode(self) -> EditorMode {
        self.mode
    }

    /// The editor commands the keymap runs.
    pub closed spec fn spec_commands(self) -> Seq<Command> {
        general_commands(self.commands@)
    }

    /// The mode once the keymap ran in mode `mode`.
    pub closed spec fn mode_after(self, mode: EditorMode) -> EditorMode {
        mode_after(mode, self.commands@)
    }
}

/// Resolves key sequences to commands by the vim keymaps, keeping the keys
/// of a sequence under way and the mode.
pub struct VimKeymapper {
    buffered_key: String,
    keymaps: Trie<Keymap>,
    editor_mode: EditorMode,
}

/// `m` binds `keys` to a keymap of mode `mode` that runs the editor
/// commands `commands` and leaves the editor in mode `after`.
pub open spec fn binds(
    m: Map<Seq<char>, Keymap>,
    keys: Seq<char>,
    mode: EditorMode,
    commands: Seq<Command>,
    after: EditorMode,
) -> bool {
    &&& m[keys].spec_mode() == mode
    &&& m[keys].spec_commands() == commands
    &&& m[keys].mode_after(mode) == after
}

/// The vim keymaps: in normal mode `i` enters insert mode, `q` quits and
/// `h`, `j`, `k`, `l` move the cursor; in insert mode `<esc>` enters normal
/// mode. No other key sequence is bound.
pub open spec fn is_vim_table(m: Map<Seq<char>, Keymap>) -> bool {
    &&& m.dom() == set!["i"@, "q"@, "h"@, "j"@, "k"@, "l"@, "<esc>"@]
    &&& binds(m, "i"@, EditorMode::Normal, Seq::empty(), EditorMode::Insert)
    &&& binds(m, "q"@, EditorMode::Normal, seq![Command::Quit], EditorMode::Normal)
    &&& binds(m, "h"@, EditorMode::Normal, seq![Command::MoveCursorLeft], EditorMode::Normal)
    &&& binds(m, "j"@, EditorMode::Normal, seq![Command::MoveCursorDown], EditorMode::Normal)
    &&& binds(m, "k"@, EditorMode::Normal, seq![Command::MoveCursorUp], EditorMode::Normal)
    &&& binds(m, "l"@, EditorMode::Normal, seq![Command::MoveCursorRight], EditorMode::Normal)
    &&& binds(m, "<esc>"@, EditorMode::Insert, Seq::empty(), EditorMode::Normal)
}

/// A keymap of one command runs that command if it is an editor command,
/// and switches to the mode it names if it is a mode switch.
proof fn lemma_one_command(w: CommandWrapper, mode: EditorMode)
    ensures
        general_commands(seq![w]) == (match w {
            CommandWrapper::General(c) => seq![c],
            CommandWrapper::Vim(_) => Seq::<Command>::empty(),
        }),
        mode_after(mode, seq![w]) == (match w {
            CommandWrapper::Vim(VimCommand::InsertMode) => EditorMode::Insert,
            CommandWrapper::Vim(VimCommand::NormalMode) => EditorMode::Normal,
            CommandWrapper::General(_) => mode,
        }),
{
    assert(seq![w].drop_last() =~= Seq::<CommandWrapper>::empty());
    reveal_with_fuel(general_commands, 2);
    reveal_with_fuel(mode_after, 2);
}

impl VimKeymapper {
    #[verifier::type_invariant]
    closed spec fn inv(self) -> bool {
        self.keymaps.wf()
    }

    /// The keys of the sequence under way.
    pub closed spec fn spec_buffered_key(self) -> Seq<char> {
        self.buffered_key@
    }

    /// The keymaps, by key notation.
    pub closed spec fn spec_keymaps(self) -> Map<Seq<char>, Keymap> {
        self.keymaps.view()
    }

    /// The mode.
    pub closed spec fn spec_mode(self) -> EditorMode {
        self.editor_mode
    }

    /// A keymapper in normal mode with the vim keymaps and no key under way.
    pub fn new() -> (k: Self)
        ensures
            is_vim_table(k.spec_keymaps()),
            k.spec_buffered_key() == Seq::<char>::empty(),
            k.spec_mode() == EditorMode::Normal,
    {
        let keymaps = load_vim_keymaps();
        Self { keymaps, buffered_key: String::new(), editor_mode: EditorMode::Normal }
    }

    /// What `parse_event` does: from this keymapper to `after`, handed
    /// `event`, returning `r`. A sequence that no keymap starts with is
    /// dropped. One that is a keymap's, in the current mode, runs its
    /// commands: the mode switches take effect and the editor commands are
    /// returned. The keys stay under way while longer keymaps start with
    /// them.
    pub open spec fn parses(self, after: Self, event: Option<Event>, r: Option<Vec<Command>>) -> bool {
        &&& (after.spec_keymaps() == self.spec_keymaps())
        &&& (match event {
                None => r is None && after.spec_buffered_key() == self.spec_buffered_key() && after.spec_mode() == self.spec_mode(),
                Some(Event::Key(key)) => {
                    let keymaps = self.spec_keymaps();
                    let full = self.spec_buffered_key() + key_notation(key);
                    let kept = if is_continued(keymaps, full) {
                        full
                    } else {
                        self.spec_buffered_key()
                    };
                    if full.len() == 0 || !is_key_prefix(keymaps, full) || !keymaps.contains_key(
                        full,
                    ) {
                        &&& r is None
                        &&& after.spec_buffered_key() == Seq::<char>::empty()
                        &&& after.spec_mode() == self.spec_mode()
                    } else if keymaps[full].spec_mode() != self.spec_mode() {
                        &&& r is None
                        &&& after.spec_buffered_key() == kept
                        &&& after.spec_mode() == self.spec_mode()
                    } else {
                        &&& r is Some
                        &&& r->0@ == keymaps[full].spec_commands()
                        &&& after.spec_buffered_key() == kept
                        &&& after.spec_mode() == keymaps[full].mode_after(
                            self.spec_mode(),
                        )
                    }
                },
            })
    }

    /// Adds a key event to the sequence under way. A sequence that no keymap
    /// starts with is dropped. One that is a keymap's, in the current mode,
    /// runs its commands: the mode switches take effect and the editor
    /// commands are returned. The keys stay under way while longer keymaps
    /// start with them.
    #[verifier::loop_isolation(false)]
    pub fn parse_event(&mut self, event: Option<Event>) -> (r: Option<Vec<Command>>)
        ensures
            old(self).parses(*final(self), event, r),
    {
        proof {
            use_type_invariant(&*self);
        }
        let key = match event {
            None => return None,
            Some(Event::Key(key)) => key,
        };
        let key_str = key.to_string();
        let mut full_key = String::new();
        string_push_str(&mut full_key, self.buffered_key.as_str());
        string_push_str(&mut full_key, key_str.as_str());
        let query = match self.keymaps.get(full_key.as_str()) {
            Some(query) => query,
            None => {
                self.buffered_key = String::new();
                return None;
            },
        };
        if query.continues {
            let mut buffered = String::new();
            string_push_str(&mut buffered, self.buffered_key.as_str());
            string_push_str(&mut buffered, key_str.as_str());
            self.buffered_key = buffered;
        }
        let keymap = match query.value {
            Some(keymap) => keymap,
            None => {
                self.buffered_key = String::new();
                return None;
            },
        };
        if keymap.mode != self.editor_mode {
            return None;
        }
        let ghost mode0 = self.editor_mode;
        let ghost trie0 = self.keymaps;
        let ghost buffered0 = self.buffered_key;
        let mut commands: Vec<Command> = Vec::new();
        let mut i: usize = 0;
        while i < keymap.commands.len()
            invariant
                i <= keymap.commands@.len(),
                commands@ == general_commands(keymap.commands@.subrange(0, i as int)),
                self.editor_mode == mode_after(mode0, keymap.commands@.subrange(0, i as int)),
                self.keymaps == trie0,
                self.buffered_key == buffered0,
            decreases keymap.commands@.len() - i,
        {
            let ghost pre = keymap.commands@.subrange(0, i as int);
            assert(keymap.commands@.subrange(0, i + 1).drop_last() =~= pre);
            match keymap.commands[i] {
                CommandWrapper::General(command) => commands.push(command),
                CommandWrapper::Vim(command) => match command {
                    VimCommand::InsertMode => self.editor_mode = EditorMode::Insert,
                    VimCommand::NormalMode => self.editor_mode = EditorMode::Normal,
                },
            }
            i += 1;
        }
        assert(keymap.commands@.subrange(0, i as int) =~= keymap.commands@);
        Some(commands)
    }
}

impl Keymapper for VimKeymapper {
    fn parse_event(&mut self, event: Option<Event>) -> (r: Option<Vec<Command>>)
        ensures
            old(self).parses(*final(self), event, r),
    {
        VimKeymapper::parse_event(self, event)
    }
}

/// The vim keymaps.
fn load_vim_keymaps() -> (keymaps: Trie<Keymap>)
    ensures
        keymaps.wf(),
        is_vim_table(keymaps.view()),
{
    let mut keymaps = Trie::new();
    let normal_mode = EditorMode::Normal;
    let insert_mode = EditorMode::Insert;
    let move_cursor_left = CommandWrapper::General(Command::MoveCursorLeft);
    let move_cursor_down = CommandWrapper::General(Command::MoveCursorDown);
    let move_cursor_up = CommandWrapper::General(Command::MoveCursorUp);
    let move_cursor_right = CommandWrapper::General(Command::MoveCursorRight);
    let quit = CommandWrapper::General(Command::Quit);
    let enter_insert_mode = CommandWrapper::Vim(VimCommand::InsertMode);
    let enter_normal_mode = CommandWrapper::Vim(VimCommand::NormalMode);
    keymaps.insert("i", Keymap::new(normal_mode, vec![enter_insert_mode]));
    keymaps.insert("q", Keymap::new(normal_mode, vec![quit]));
    keymaps.insert("h", Keymap::new(normal_mode, vec![move_cursor_left]));
    keymaps.insert("j", Keymap::new(normal_mode, vec![move_cursor_down]));
    keymaps.insert("k", Keymap::new(normal_mode, vec![move_cursor_up]));
    keymaps.insert("l", Keymap::new(normal_mode, vec![move_cursor_right]));
    keymaps.insert("<esc>", Keymap::new(insert_mode, vec![enter_normal_mode]));
    proof {
        reveal_strlit("i");
        reveal_strlit("q");
        reveal_strlit("h");
        reveal_strlit("j");
        reveal_strlit("k");
        reveal_strlit("l");
        reveal_strlit("<esc>");
        let m = keymaps.view();
        let keys = seq!["i"@, "q"@, "h"@, "j"@, "k"@, "l"@, "<esc>"@];
        assert forall|a: int, b: int| 0 <= a < b < 7 implies keys[a] != keys[b] by {
            assert(keys[a][0] != keys[b][0] || keys[a].len() != keys[b].len());
        }
        assert(m.dom() =~= set!["i"@, "q"@, "h"@, "j"@, "k"@, "l"@, "<esc>"@]);
        assert(m["i"@].commands@ =~= seq![CommandWrapper::Vim(VimCommand::InsertMode)]);
        assert(m["q"@].commands@ =~= seq![CommandWrapper::General(Command::Quit)]);
        assert(m["h"@].commands@ =~= seq![CommandWrapper::General(Command::MoveCursorLeft)]);
        assert(m["j"@].commands@ =~= seq![CommandWrapper::General(Command::MoveCursorDown)]);
        assert(m["k"@].commands@ =~= seq![CommandWrapper::General(Command::MoveCursorUp)]);
        assert(m["l"@].commands@ =~= seq![CommandWrapper::General(Command::MoveCursorRight)]);
        assert(m["<esc>"@].commands@ =~= seq![CommandWrapper::Vim(VimCommand::NormalMode)]);
        lemma_one_command(CommandWrapper::Vim(VimCommand::InsertMode), EditorMode::Normal);
        lemma_one_command(CommandWrapper::General(Command::Quit), EditorMode::Normal);
        lemma_one_command(CommandWrapper::General(Command::MoveCursorLeft), EditorMode::Normal);
        lemma_one_command(CommandWrapper::General(Command::MoveCursorDown), EditorMode::Normal);
        lemma_one_command(CommandWrapper::General(Command::MoveCursorUp), EditorMode::Normal);
        lemma_one_command(CommandWrapper::General(Command::MoveCursorRight), EditorMode::Normal);
        lemma_one_command(CommandWrapper::Vim(VimCommand::NormalMode), EditorMode::Insert);
    }
    keymaps
}

/// The keys of the vim keymaps, each given once.
spec fn vim_keys() -> Seq<Seq<char>> {
    seq!["i"@, "q"@, "h"@, "j"@, "k"@, "l"@, "<esc>"@]
}

/// A key sequence of the vim keymaps is a prefix of one of them (its own)
/// and no longer one begins with it.
proof fn lemma_vim_key_complete(m: Map<Seq<char>, Keymap>, s: Seq<char>)
    requires
        is_vim_table(m),
        m.contains_key(s),
    ensures
        is_key_prefix(m, s),
        !is_continued(m, s),
{
    reveal_strlit("i");
    reveal_strlit("q");
    reveal_strlit("h");
    reveal_strlit("j");
    reveal_strlit("k");
    reveal_strlit("l");
    reveal_strlit("<esc>");
    assert(s.is_prefix_of(s));
    if is_continued(m, s) {
        let k = choose|k: Seq<char>| #[trigger] m.contains_key(k) && s.is_prefix_of(k) && k.len() > s.len();
        assert(m.dom().contains(k));
        assert(k == "<esc>"@);
        assert(s.len() == 1);
        assert(s[0] == k[0]);
        assert(false);
    }
}

/// What the vim keymaps answer to the key `code`, pressed alone in mode
/// `mode` with no keys under way: in normal mode `h`, `j`, `k`, `l` move
/// the cursor and `q` quits; `i` runs no command and enters insert mode; in
/// insert mode `<esc>` runs no command and enters normal mode; any other
/// char, and `<esc>` in normal mode, gives nothing and keeps the mode.
pub open spec fn vim_answer(mode: EditorMode, code: KeyCode, r: Option<Vec<Command>>, after: EditorMode) -> bool {
    let normal = mode == EditorMode::Normal;
    match code {
        KeyCode::Char(c) => if normal && c == 'h' {
            r is Some && r->0@ == seq![Command::MoveCursorLeft] && after == EditorMode::Normal
        } else if normal && c == 'j' {
            r is Some && r->0@ == seq![Command::MoveCursorDown] && after == EditorMode::Normal
        } else if normal && c == 'k' {
            r is Some && r->0@ == seq![Command::MoveCursorUp] && after == EditorMode::Normal
        } else if normal && c == 'l' {
            r is Some && r->0@ == seq![Command::MoveCursorRight] && after == EditorMode::Normal
        } else if normal && c == 'q' {
            r is Some && r->0@ == seq![Command::Quit] && after == EditorMode::Normal
        } else if normal && c == 'i' {
            r is Some && r->0@ == Seq::<Command>::empty() && after == EditorMode::Insert
        } else {
            r is None && after == mode
        },
        KeyCode::Esc => if mode == EditorMode::Insert {
            r is Some && r->0@ == Seq::<Command>::empty() && after == EditorMode::Normal
        } else {
            r is None && after == mode
        },
        _ => true,
    }
}

/// A keymapper with the vim keymaps and no keys under way, handed a key
/// pressed with no modifier, answers as `vim_answer` says and has no keys
/// under way after.
pub proof fn law_vim_keys(k: VimKeymapper, after: VimKeymapper, key: KeyEvent, r: Option<Vec<Command>>)
    requires
        is_vim_table(k.spec_keymaps()),
        k.spec_buffered_key() == Seq::<char>::empty(),
        key.modifiers.spec_bits() == 0,
        k.parses(after, Some(Event::Key(key)), r),
    ensures
        (key.code is Char || key.code is Esc) ==> after.spec_buffered_key() == Seq::<char>::empty(),
        vim_answer(k.spec_mode(), key.code, r, after.spec_mode()),
{
    reveal_strlit("i");
    reveal_strlit("q");
    reveal_strlit("h");
    reveal_strlit("j");
    reveal_strlit("k");
    reveal_strlit("l");
    reveal_strlit("<esc>");
    reveal_strlit("esc");
    let m = k.spec_keymaps();
    let bits = key.modifiers.spec_bits();
    assert(bits & 0b0011_1110u8 == 0u8) by (bit_vector)
        requires
            bits == 0u8,
    ;
    let full = Seq::<char>::empty() + key_notation(key);
    assert(full =~= key_notation(key));
    match key.code {
        KeyCode::Char(c) => {
            assert(key_notation(key) =~= seq![c]);
            if c == 'h' {
                assert(full =~= "h"@);
                assert(m.dom().contains("h"@));
            } else if c == 'j' {
                assert(full =~= "j"@);
                assert(m.dom().contains("j"@));
            } else if c == 'k' {
                assert(full =~= "k"@);
                assert(m.dom().contains("k"@));
            } else if c == 'l' {
                assert(full =~= "l"@);
                assert(m.dom().contains("l"@));
            } else if c == 'q' {
                assert(full =~= "q"@);
                assert(m.dom().contains("q"@));
            } else if c == 'i' {
                assert(full =~= "i"@);
                assert(m.dom().contains("i"@));
            }
            if m.contains_key(full) {
                lemma_vim_key_complete(m, full);
                assert(m.dom().contains(full));
                assert(full != "<esc>"@);
                if c == 'h' {
                    assert(full =~= "h"@);
                } else if c == 'j' {
                    assert(full =~= "j"@);
                } else if c == 'k' {
                    assert(full =~= "k"@);
                } else if c == 'l' {
                    assert(full =~= "l"@);
                } else if c == 'q' {
                    assert(full =~= "q"@);
                } else if c == 'i' {
                    assert(full =~= "i"@);
                } else {
                    assert(full[0] == c);
                    assert(false);
                }
            }
        },
        KeyCode::Esc => {
            assert(key_notation(key) =~= "<esc>"@);
            lemma_vim_key_complete(m, full);
        },
        _ => {},
    }
}

} // verus!
