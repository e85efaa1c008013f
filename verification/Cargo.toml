[package]
name = "glyph"
version = "0.1.0"
edition = "2021"
publish = false

[dependencies]
ropey = "=1.6.1"
serde = { version = "=1.0.229", features = ["derive"] }
thiserror = "=2.0.21"
parking_lot = "=0.12.5"
tokio = { version = "=1.54.1", features = ["sync"] }
clap = { version = "=4.6.7", features = ["derive"] }
mlua = { version = "=0.10.5", features = ["lua54", "vendored", "serialize"] }
tree-sitter = "=0.27.1"
streaming-iterator = "=0.1.9"
tree-sitter-rust = "=0.24.2"
tree-sitter-lua = "=0.5.0"
tree-sitter-md = "=0.5.4"
tree-sitter-c = "=0.24.2"
tree-sitter-cpp = "=0.23.4"
tree-sitter-zig = "=1.1.2"
tree-sitter-ocaml = "=0.26.0"
crossterm = "0.28"
