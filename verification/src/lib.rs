//! Glyph: the data structures and editing logic of a modal text editor.
pub mod slab;
pub mod trie;
pub mod text;
pub mod geometry;
pub mod text_object;
pub mod buffer_manager;
pub mod cursor;
pub mod command;
pub mod rect;
pub mod window;
pub mod document;
pub mod tree;
pub mod view_manager;
pub mod color;
pub mod highlights;
pub mod backend;
pub mod buffer;
pub mod event;
pub mod key_mapper;
pub mod config;
pub mod editor;
pub mod tab;
pub mod error;
pub mod command_handler;
pub mod status_provider;
pub mod editing_plugin;
pub mod renderer;
pub mod lua_config;
pub mod editor_layer;
pub mod line_number;
pub mod startup_options;
pub mod syntax;
pub mod runtime_api;
pub mod terminal;
