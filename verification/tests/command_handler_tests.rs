use std::collections::BTreeMap;

use glyph::buffer_manager::{Buffer, BufferId};
use glyph::command_handler::{
    BufferCommandHandler, CommandContext, CommandHandler, CommandHandlerChain, CommandHandlerResult,
    FileCommandHandler,
};
use glyph::geometry::{Point, Size};
use glyph::key_mapper::{Command, ResolvedKeymap};
use glyph::view_manager::ViewManager;

fn run(chain: &mut CommandHandlerChain, commands: Vec<Command>) -> (CommandHandlerResult, Point<usize>, bool) {
    let keymap = ResolvedKeymap { commands, mode: None };
    let mut buffers: BTreeMap<u64, Buffer> = BTreeMap::new();
    let mut views = ViewManager::new(BufferId::new(0), Size { width: 10, height: 10 });
    let mut should_quit = false;
    let r = chain.handle_commands(&mut CommandContext {
        resolved_keymap: &keymap,
        buffers: &mut buffers,
        views: &mut views,
        should_quit: &mut should_quit,
    });
    (r, views.get_active_view().cursors[0], should_quit)
}

#[test]
fn empty_chain_consumes_nothing_and_changes_nothing() {
    let mut chain = CommandHandlerChain::new();
    let (r, cursor, quit) = run(&mut chain, vec![Command::MoveCursorDown, Command::Quit]);
    assert_eq!(r, CommandHandlerResult::NotConsumed);
    assert_eq!(cursor, Point { x: 0, y: 0 });
    assert!(!quit);
}

#[test]
fn newest_handler_runs_first_and_stops_the_chain() {
    let mut chain = CommandHandlerChain::new();
    chain.add_handler(Box::new(BufferCommandHandler {}));
    chain.add_handler(Box::new(FileCommandHandler));
    // the file handler, added last, consumes: the cursor does not move
    let (r, cursor, quit) = run(&mut chain, vec![Command::MoveCursorDown, Command::Quit]);
    assert_eq!(r, CommandHandlerResult::Consumed);
    assert_eq!(cursor, Point { x: 0, y: 0 });
    assert!(quit);

    let mut chain = CommandHandlerChain::new();
    chain.add_handler(Box::new(FileCommandHandler));
    chain.add_handler(Box::new(BufferCommandHandler {}));
    let (r, cursor, quit) = run(&mut chain, vec![Command::MoveCursorDown, Command::MoveCursorRight]);
    assert_eq!(r, CommandHandlerResult::Consumed);
    assert_eq!(cursor, Point { x: 1, y: 1 });
    assert!(!quit);
}
