//! nib: a minimal modal text editor, as a verified library.
//!
//! The editing model (rope-backed buffer with a grapheme cursor and undo), the
//! keymap trie and chord parser, the configuration layering, the key-event
//! decoding and the cell-diff renderer live here with their contracts. The
//! terminal, the file system and the main loop live in the application crate.
mod text;
pub mod rope;
pub mod unicode;
pub mod mode;
pub mod term;
pub mod keymap;
pub mod buffer;
pub mod config;
pub mod command;
pub mod editor;
