//! Handlers of the commands a key resolved to, tried in turn.
use std::collections::BTreeMap;

use vstd::prelude::*;
use vstd::view::View as _;

use crate::buffer_manager::Buffer;
use crate::key_mapper::{Command, ResolvedKeymap};
use crate::geometry::Point;
use crate::view_manager::{View, ViewManager};

verus! {

/// Whether a handler took the commands.
#[derive(Debug, PartialEq, Eq, Structural, Clone, Copy)]
pub enum CommandHandlerResult {
    Consumed,
    NotConsumed,
}

/// What handlers work on: the commands, the buffers, the views, and
/// whether the editor should quit.
pub struct CommandContext<'ctx> {
    pub resolved_keymap: &'ctx ResolvedKeymap,
    pub buffers: &'ctx mut BTreeMap<u64, Buffer>,
    pub views: &'ctx mut ViewManager,
    pub should_quit: &'ctx mut bool,
}

/// The values a context gives its handlers, as they stand at one moment.
pub struct ContextState {
    pub resolved_keymap: ResolvedKeymap,
    pub buffers: BTreeMap<u64, Buffer>,
    pub views: ViewManager,
    pub should_quit: bool,
}

/// What `ctx` refers to.
pub open spec fn state_of(ctx: CommandContext<'_>) -> ContextState {
    ContextState {
        resolved_keymap: *ctx.resolved_keymap,
        buffers: *ctx.buffers,
        views: *ctx.views,
        should_quit: *ctx.should_quit,
    }
}

/// What handles commands.
pub trait CommandHandler {
    /// A handler may, handed a context in state `before`, leave it in
    /// state `after` and answer `r`.
    spec fn handles(&self, before: ContextState, after: ContextState, r: CommandHandlerResult) -> bool;

    fn handle_commands(&mut self, ctx: &mut CommandContext<'_>) -> (r: CommandHandlerResult)
        ensures
            old(self).handles(state_of(*old(ctx)), state_of(*final(ctx)), r),
    ;
}

/// What the handlers `hs` from the `i`-th on may do to a context in state
/// `before`: each is handed the context as the one before it left it,
/// until one answers `Consumed`, which is then the answer; when none does,
/// the answer is `NotConsumed`, and past the last handler the context is
/// left as it is.
pub open spec fn chain_handles(
    hs: Seq<Box<dyn CommandHandler>>,
    i: int,
    before: ContextState,
    after: ContextState,
    r: CommandHandlerResult,
) -> bool
    decreases hs.len() - i,
{
    if i < 0 || i >= hs.len() {
        after == before && r == CommandHandlerResult::NotConsumed
    } else {
        exists|mid: ContextState, ri: CommandHandlerResult|
            #[trigger] hs[i].handles(before, mid, ri) && if ri == CommandHandlerResult::Consumed {
                after == mid && r == CommandHandlerResult::Consumed
            } else {
                chain_handles(hs, i + 1, mid, after, r)
            }
    }
}

/// Handlers tried in turn, the last added first, until one takes the
/// commands.
pub struct CommandHandlerChain {
    handlers: Vec<Box<dyn CommandHandler>>,
}

impl CommandHandlerChain {
    /// The handlers, in the order they are tried.
    pub closed spec fn spec_handlers(&self) -> Seq<Box<dyn CommandHandler>> {
        self.handlers@
    }

    /// The number of handlers.
    pub open spec fn spec_len(&self) -> nat {
        self.spec_handlers().len()
    }

    /// A chain of no handlers.
    pub fn new() -> (r: Self)
        ensures
            r.spec_handlers() == Seq::<Box<dyn CommandHandler>>::empty(),
    {
        Self { handlers: Vec::new() }
    }

    /// Puts `handler` first in the chain.
    pub fn add_handler(&mut self, handler: Box<dyn CommandHandler>)
        ensures
            final(self).spec_handlers() == old(self).spec_handlers().insert(0, handler),
            final(self).spec_handlers().drop_first() == old(self).spec_handlers(),
            final(self).spec_len() == old(self).spec_len() + 1,
    {
        let ghost before = self.handlers@;
        self.handlers.insert(0, handler);
        proof {
            before.insert_ensures(0, handler);
            assert(self.handlers@.drop_first() =~= before);
        }
    }
}

impl CommandHandler for CommandHandlerChain {
    /// The handlers, newest first, each on the context as the one before
    /// left it, until one answers `Consumed`.
    open spec fn handles(&self, before: ContextState, after: ContextState, r: CommandHandlerResult) -> bool {
        chain_handles(self.spec_handlers(), 0, before, after, r)
    }

    /// Hands the commands to each handler in turn, newest first, until one
    /// takes them; the chain keeps its number of handlers.
    fn handle_commands(&mut self, ctx: &mut CommandContext<'_>) -> (r: CommandHandlerResult)
        ensures
            final(self).spec_len() == old(self).spec_len(),
    {
        let ghost hs = self.handlers@;
        let ghost s0 = state_of(*ctx);
        let n = self.handlers.len();
        let mut i: usize = 0;
        while i < n
            invariant
                n == self.handlers@.len(),
                n == hs.len(),
                hs == old(self).handlers@,
                s0 == state_of(*old(ctx)),
                i <= n,
                forall|j: int| i <= j < n ==> self.handlers@[j] == hs[j],
                forall|after: ContextState, r: CommandHandlerResult|
                    #[trigger] chain_handles(hs, i as int, state_of(*ctx), after, r) ==> chain_handles(
                        hs,
                        0,
                        s0,
                        after,
                        r,
                    ),
            decreases n - i,
        {
            let ghost before = state_of(*ctx);
            let res = self.handlers[i].handle_commands(ctx);
            let ghost mid = state_of(*ctx);
            proof {
                assert(hs[i as int].handles(before, mid, res));
            }
            if let CommandHandlerResult::Consumed = res {
                proof {
                    assert(chain_handles(hs, i as int, before, mid, CommandHandlerResult::Consumed));
                }
                return CommandHandlerResult::Consumed;
            }
            proof {
                assert forall|after: ContextState, r: CommandHandlerResult|
                    #[trigger] chain_handles(hs, i + 1, mid, after, r) implies chain_handles(
                        hs,
                        0,
                        s0,
                        after,
                        r,
                    ) by {
                    assert(chain_handles(hs, i as int, before, after, r));
                }
            }
            i += 1;
        }
        proof {
            assert(chain_handles(hs, n as int, state_of(*ctx), state_of(*ctx), CommandHandlerResult::NotConsumed));
        }
        CommandHandlerResult::NotConsumed
    }
}

/// A chain of no handlers answers `NotConsumed` and leaves the context as it
/// is.
pub proof fn law_empty_chain_changes_nothing(
    chain: CommandHandlerChain,
    before: ContextState,
    after: ContextState,
    r: CommandHandlerResult,
)
    requires
        chain.spec_handlers().len() == 0,
        chain.handles(before, after, r),
    ensures
        after == before,
        r == CommandHandlerResult::NotConsumed,
{
}

/// A chain answers as its first handler does when that one consumes, and
/// otherwise hands the context as that handler left it to the rest of the
/// chain.
pub proof fn law_first_handler_goes_first(
    hs: Seq<Box<dyn CommandHandler>>,
    before: ContextState,
    after: ContextState,
    r: CommandHandlerResult,
)
    requires
        hs.len() > 0,
    ensures
        chain_handles(hs, 0, before, after, r) <==> exists|
            mid: ContextState,
            rh: CommandHandlerResult,
        |
            #[trigger] hs[0].handles(before, mid, rh) && if rh == CommandHandlerResult::Consumed {
                after == mid && r == CommandHandlerResult::Consumed
            } else {
                chain_handles(hs.drop_first(), 0, mid, after, r)
            },
{
    let z = 0int;
    if chain_handles(hs, z, before, after, r) {
        let (mid, rh) = choose|mid: ContextState, rh: CommandHandlerResult|
            #[trigger] hs[z].handles(before, mid, rh) && if rh == CommandHandlerResult::Consumed {
                after == mid && r == CommandHandlerResult::Consumed
            } else {
                chain_handles(hs, z + 1, mid, after, r)
            };
        lemma_chain_tail(hs, z, mid, after, r);
        assert(hs[0].handles(before, mid, rh));
    }
    if exists|mid: ContextState, rh: CommandHandlerResult|
        #[trigger] hs[0].handles(before, mid, rh) && if rh == CommandHandlerResult::Consumed {
            after == mid && r == CommandHandlerResult::Consumed
        } else {
            chain_handles(hs.drop_first(), 0, mid, after, r)
        } {
        let (mid, rh) = choose|mid: ContextState, rh: CommandHandlerResult|
            #[trigger] hs[0].handles(before, mid, rh) && if rh == CommandHandlerResult::Consumed {
                after == mid && r == CommandHandlerResult::Consumed
            } else {
                chain_handles(hs.drop_first(), 0, mid, after, r)
            };
        lemma_chain_tail(hs, z, mid, after, r);
        assert(hs[z].handles(before, mid, rh));
    }
}

/// Once `add_handler` put a handler first (the handlers after it are
/// those from before), the chain hands the context to that handler first:
/// it answers `Consumed` with the context as that handler left it when the
/// handler consumes, and otherwise the chain as it was before takes the
/// context as that handler left it.
pub proof fn law_added_handler_goes_first(
    before_add: CommandHandlerChain,
    after_add: CommandHandlerChain,
    before: ContextState,
    after: ContextState,
    r: CommandHandlerResult,
)
    requires
        after_add.spec_handlers().len() > 0,
        after_add.spec_handlers().drop_first() == before_add.spec_handlers(),
    ensures
        after_add.handles(before, after, r) <==> exists|mid: ContextState, rh: CommandHandlerResult|
            #[trigger] after_add.spec_handlers()[0].handles(before, mid, rh) && if rh
                == CommandHandlerResult::Consumed {
                after == mid && r == CommandHandlerResult::Consumed
            } else {
                before_add.handles(mid, after, r)
            },
{
    law_first_handler_goes_first(after_add.spec_handlers(), before, after, r);
}

/// Handlers from the `i + 1`-th on of `hs` do as those from the `i`-th on
/// of `hs` without its first.
proof fn lemma_chain_tail(
    hs: Seq<Box<dyn CommandHandler>>,
    i: int,
    before: ContextState,
    after: ContextState,
    r: CommandHandlerResult,
)
    requires
        0 <= i,
        hs.len() > 0,
    ensures
        chain_handles(hs, i + 1, before, after, r) == chain_handles(hs.drop_first(), i, before, after, r),
    decreases hs.len() - i,
{
    let rest = hs.drop_first();
    let j = i + 1;
    if j < hs.len() {
        assert(hs[j] == rest[i]);
        if chain_handles(hs, j, before, after, r) {
            let (mid, ri) = choose|mid: ContextState, ri: CommandHandlerResult|
                #[trigger] hs[j].handles(before, mid, ri) && if ri == CommandHandlerResult::Consumed {
                    after == mid && r == CommandHandlerResult::Consumed
                } else {
                    chain_handles(hs, j + 1, mid, after, r)
                };
            lemma_chain_tail(hs, j, mid, after, r);
            assert(rest[i].handles(before, mid, ri));
        }
        if chain_handles(rest, i, before, after, r) {
            let (mid, ri) = choose|mid: ContextState, ri: CommandHandlerResult|
                #[trigger] rest[i].handles(before, mid, ri) && if ri == CommandHandlerResult::Consumed {
                    after == mid && r == CommandHandlerResult::Consumed
                } else {
                    chain_handles(rest, i + 1, mid, after, r)
                };
            lemma_chain_tail(hs, j, mid, after, r);
            assert(hs[j].handles(before, mid, ri));
        }
    }
}

/// Where the cursor at `p` is once the cursor moves among `commands` ran:
/// each moves one column or row, stopping at the edges of the numbers.
pub open spec fn moved_cursor(p: Point<usize>, commands: Seq<Command>) -> Point<usize>
    decreases commands.len(),
{
    if commands.len() == 0 {
        p
    } else {
        let q = moved_cursor(p, commands.drop_last());
        match commands.last() {
            Command::MoveCursorLeft => Point { x: (if q.x > 0 { q.x - 1 } else { 0 }) as usize, y: q.y },
            Command::MoveCursorDown => Point {
                x: q.x,
                y: (if q.y < usize::MAX { q.y + 1 } else { usize::MAX as int }) as usize,
            },
            Command::MoveCursorUp => Point { x: q.x, y: (if q.y > 0 { q.y - 1 } else { 0 }) as usize },
            Command::MoveCursorRight => Point {
                x: (if q.x < usize::MAX { q.x + 1 } else { usize::MAX as int }) as usize,
                y: q.y,
            },
            _ => q,
        }
    }
}

/// Runs the cursor moves and quit among `commands` on `cursor`.
pub fn apply_buffer_commands(cursor: &mut Point<usize>, commands: &Vec<Command>, should_quit: &mut bool)
    ensures
        *final(cursor) == moved_cursor(*old(cursor), commands@),
        *final(should_quit) == (*old(should_quit) || commands@.contains(Command::Quit)),
{
    let ghost start = *cursor;
    let ghost quit0 = *should_quit;
    let mut i: usize = 0;
    while i < commands.len()
        invariant
            i <= commands@.len(),
            *cursor == moved_cursor(start, commands@.subrange(0, i as int)),
            *should_quit == (quit0 || commands@.subrange(0, i as int).contains(Command::Quit)),
        decreases commands@.len() - i,
    {
        proof {
            assert(commands@.subrange(0, i + 1).drop_last() =~= commands@.subrange(0, i as int));
            assert(commands@.subrange(0, i + 1) =~= commands@.subrange(0, i as int).push(commands@[i as int]));
            vstd::seq_lib::lemma_seq_contains_after_push(commands@.subrange(0, i as int), commands@[i as int], Command::Quit);
        }
        match commands[i] {
            Command::MoveCursorLeft => cursor.x = cursor.x.saturating_sub(1),
            Command::MoveCursorDown => cursor.y = cursor.y.saturating_add(1),
            Command::MoveCursorUp => cursor.y = cursor.y.saturating_sub(1),
            Command::MoveCursorRight => cursor.x = cursor.x.saturating_add(1),
            Command::Quit => *should_quit = true,
            _ => {},
        }
        i += 1;
    }
    assert(commands@.subrange(0, i as int) =~= commands@);
}

/// Moves the active view's first cursor by the resolved commands, and quits
/// on `Quit`; it takes every command.
#[derive(Debug)]
pub struct BufferCommandHandler {}

impl CommandHandler for BufferCommandHandler {
    /// Moves the first cursor of the active view by the commands and sets
    /// `should_quit` on `Quit`, taking the commands; a view without cursors
    /// is left as it is, and so is `should_quit` then.
    open spec fn handles(&self, before: ContextState, after: ContextState, r: CommandHandlerResult) -> bool {
        let views0 = before.views;
        let views1 = after.views;
        let key = views0.spec_active_view().id();
        let v0 = views0.spec_views()[key];
        let v1 = views1.spec_views()[key];
        let commands = before.resolved_keymap.commands@;
        &&& r == CommandHandlerResult::Consumed
        &&& views1.spec_views() == views0.spec_views().insert(key, v1)
        &&& views1.spec_layout() == views0.spec_layout()
        &&& views1.spec_active_view() == views0.spec_active_view()
        &&& views1.spec_next_view_id() == views0.spec_next_view_id()
        &&& v1.id == v0.id
        &&& v1.buffer_id == v0.buffer_id
        &&& v1.scroll_offset == v0.scroll_offset
        &&& v1.cursors@ == (if v0.cursors@.len() > 0 {
            v0.cursors@.update(0, moved_cursor(v0.cursors@[0], commands))
        } else {
            v0.cursors@
        })
        &&& after.should_quit == (if v0.cursors@.len() > 0 {
            before.should_quit || commands.contains(Command::Quit)
        } else {
            before.should_quit
        })
        &&& after.buffers == before.buffers
        &&& after.resolved_keymap == before.resolved_keymap
    }

    fn handle_commands(&mut self, ctx: &mut CommandContext<'_>) -> (r: CommandHandlerResult) {
        let view = ctx.views.get_mut_active_view();
        if view.cursors.len() > 0 {
            apply_buffer_commands(&mut view.cursors[0], &ctx.resolved_keymap.commands, ctx.should_quit);
        }
        CommandHandlerResult::Consumed
    }
}

/// Sets `should_quit` on `Quit`; the commands that save files are not
/// handled yet.
#[derive(Debug)]
pub struct FileCommandHandler;

/// Runs the quit among `commands`.
pub fn apply_file_commands(commands: &Vec<Command>, should_quit: &mut bool)
    ensures
        *final(should_quit) == (*old(should_quit) || commands@.contains(Command::Quit)),
{
    let ghost quit0 = *should_quit;
    let mut i: usize = 0;
    while i < commands.len()
        invariant
            i <= commands@.len(),
            *should_quit == (quit0 || commands@.subrange(0, i as int).contains(Command::Quit)),
        decreases commands@.len() - i,
    {
        proof {
            assert(commands@.subrange(0, i + 1) =~= commands@.subrange(0, i as int).push(commands@[i as int]));
            vstd::seq_lib::lemma_seq_contains_after_push(commands@.subrange(0, i as int), commands@[i as int], Command::Quit);
        }
        if let Command::Quit = commands[i] {
            *should_quit = true;
        }
        i += 1;
    }
    assert(commands@.subrange(0, i as int) =~= commands@);
}

impl CommandHandler for FileCommandHandler {
    /// Sets `should_quit` on `Quit`, leaving the views and buffers alone,
    /// and takes the commands.
    open spec fn handles(&self, before: ContextState, after: ContextState, r: CommandHandlerResult) -> bool {
        &&& r == CommandHandlerResult::Consumed
        &&& after.should_quit == (before.should_quit || before.resolved_keymap.commands@.contains(
            Command::Quit,
        ))
        &&& after.views == before.views
        &&& after.buffers == before.buffers
        &&& after.resolved_keymap == before.resolved_keymap
    }

    fn handle_commands(&mut self, ctx: &mut CommandContext<'_>) -> (r: CommandHandlerResult) {
        apply_file_commands(&ctx.resolved_keymap.commands, ctx.should_quit);
        CommandHandlerResult::Consumed
    }
}

} // verus!
