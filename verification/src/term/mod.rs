//! The terminal-facing logic: key decoding, the cell renderer, the resize flag.
//!
//! Only the parts that decide or compute live here; the raw-mode switch, the reads
//! from stdin and the writes to stdout are the application's.
pub mod input;
pub mod output;
pub mod size;
