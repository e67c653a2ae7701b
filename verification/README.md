# nib

A minimal modal terminal text editor for Linux, with its editing core verified by
Verus.

- `src/` is the library, each function with its contract:
  - `buffer`: rope-backed text with a grapheme-cluster cursor and undo/redo;
  - `keymap`: chord parsing (`h`, `<C-x>`, `<Esc>`) and the per-mode chord trie;
  - `command`: the named commands and their registry;
  - `config`: colours, behaviour knobs and keymaps from KDL, layered over the
    built-in defaults, with a refused user file falling back to them;
  - `editor`: what a key press does, the command line (`:w`, `:q`, `:q!`, `:wq`,
    `:x`), chord timeouts, and what a frame shows;
  - `term`: key-event decoding, the cell-diff renderer and its escape sequences,
    and the terminal size;
  - `rope`, `unicode`: ropey, unicode-segmentation and unicode-width, seen through
    the contracts that the rest relies on.
- `app/` is the program around it: arguments, files, raw mode, reading stdin through
  `vte`, `SIGWINCH`, and the main loop.
- `tests/` exercises the library with the real outside crates linked.
