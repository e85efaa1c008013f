//! What can go wrong while the editor runs: reading events, drawing, and
//! resolving paths.
use vstd::prelude::*;

use crate::event::Event;

verus! {

/// `std::io::Error`, declared so that errors can carry one; nothing is
/// read from it.
#[verifier::external_type_specification]
#[verifier::external_body]
pub struct ExIoError(std::io::Error);

/// Reading events failed.
#[derive(Debug)]
pub enum EventLoopError {
    /// Polling for events failed.
    FailedToPool,
    /// Reading an event failed.
    FailedToReadEvent(std::io::Error),
}

impl From<std::io::Error> for EventLoopError {
    fn from(e: std::io::Error) -> (r: EventLoopError) {
        EventLoopError::FailedToReadEvent(e)
    }
}

impl vstd::std_specs::convert::FromSpecImpl<std::io::Error> for EventLoopError {
    open spec fn obeys_from_spec() -> bool {
        true
    }

    open spec fn from_spec(e: std::io::Error) -> EventLoopError {
        EventLoopError::FailedToReadEvent(e)
    }
}

/// Drawing failed.
#[derive(Debug, PartialEq, Eq, Structural, Clone, Copy)]
pub enum RendererError {
    FailedToGetEditorSize,
    FailedToSetupRenderer,
    FailedToShutdownRenderer,
}

/// What stops the editor.
#[derive(Debug)]
pub enum GlyphError {
    /// A path could not be made absolute.
    FailedToCanonicalizePath(std::io::Error),
    RendererError(RendererError),
    EventLoopError(EventLoopError),
}

impl From<std::io::Error> for GlyphError {
    fn from(e: std::io::Error) -> (r: GlyphError) {
        GlyphError::FailedToCanonicalizePath(e)
    }
}

impl vstd::std_specs::convert::FromSpecImpl<std::io::Error> for GlyphError {
    open spec fn obeys_from_spec() -> bool {
        true
    }

    open spec fn from_spec(e: std::io::Error) -> GlyphError {
        GlyphError::FailedToCanonicalizePath(e)
    }
}

impl From<RendererError> for GlyphError {
    fn from(e: RendererError) -> (r: GlyphError) {
        GlyphError::RendererError(e)
    }
}

impl vstd::std_specs::convert::FromSpecImpl<RendererError> for GlyphError {
    open spec fn obeys_from_spec() -> bool {
        true
    }

    open spec fn from_spec(e: RendererError) -> GlyphError {
        GlyphError::RendererError(e)
    }
}

impl From<EventLoopError> for GlyphError {
    fn from(e: EventLoopError) -> (r: GlyphError) {
        GlyphError::EventLoopError(e)
    }
}

impl vstd::std_specs::convert::FromSpecImpl<EventLoopError> for GlyphError {
    open spec fn obeys_from_spec() -> bool {
        true
    }

    open spec fn from_spec(e: EventLoopError) -> GlyphError {
        GlyphError::EventLoopError(e)
    }
}

/// What gives the editor its events.
pub trait EventLoop {
    /// The next event, if one is ready.
    fn maybe_event(&self) -> Result<Option<Event>, EventLoopError>;
}

} // verus!
