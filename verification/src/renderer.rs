//! What draws the editor, and what it draws from.
use vstd::prelude::*;

use crate::buffer_manager::Buffer;
use crate::editing_plugin::EditingPlugin;
use crate::error::RendererError;
use crate::geometry::Size;
use crate::key_mapper::EditorMode;
use crate::view_manager::{LayoutTreeNode, ViewManager};

verus! {

/// What a frame is drawn from.
pub struct RenderContext<'ctx, P: EditingPlugin> {
    pub mode: EditorMode,
    pub views: &'ctx ViewManager,
    pub layout: &'ctx LayoutTreeNode,
    pub buffers: &'ctx [&'ctx Buffer],
    pub editing_plugin: &'ctx P,
}

/// What draws frames.
pub trait Renderer {
    fn render<P: EditingPlugin>(&mut self, ctx: &mut RenderContext<'_, P>) -> Result<(), RendererError>;

    fn get_size(&self, dock_height: u16) -> Result<Size, RendererError>;

    fn resize(&mut self, size: Size) -> Result<(), RendererError>;

    fn setup(&self) -> Result<(), RendererError>;

    fn shutdown(&self) -> Result<(), RendererError>;
}

} // verus!
