# glyph

The data structures and editing logic of a modal text editor, with their
behaviour stated as contracts and proved.

- `src/` is the library: the slab and trie behind the keymaps, the text
  model over ropey ropes, cursor motions and editing commands, the window
  layout tree, the screen buffers and their diffing, the statusline, line
  numbers and document drawing, key notation and the vim and VSCode
  keymappers, the chain of command handlers, syntax highlighting over
  tree-sitter, colors and configuration values, and the editor's documents
  and tabs. Laws that relate several operations stand beside them as proof
  functions (`law_*`).
- `tests/` exercises the library on concrete values.
- `app/` holds what cannot be proved: the command line, files on disk, the
  terminal backend, error messages, Lua configuration decoding, and the
  main loop.
