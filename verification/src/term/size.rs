//! The terminal's size, and the flag that tells the main loop it changed.
use std::sync::Arc;
use std::sync::atomic::{AtomicBool, Ordering};

use vstd::prelude::*;

verus! {

/// A terminal size in character cells.
#[derive(Debug, Clone, Copy, PartialEq, Eq, Structural)]
pub struct Size {
    pub cols: u16,
    pub rows: u16,
}

/// Watches for terminal resizes: a signal handler (installed by the caller) raises the
/// flag, and [`Self::poll`] lowers it again. Call `poll` once per main-loop tick.
#[derive(Debug)]
pub struct SizeWatcher {
    flag: Arc<AtomicBool>,
}

impl SizeWatcher {
    /// The flag that the watcher lowers.
    pub closed spec fn watched(&self) -> Arc<AtomicBool> {
        self.flag
    }

    /// A watcher of the given flag, which the `SIGWINCH` handler sets.
    pub fn with_flag(flag: Arc<AtomicBool>) -> (w: SizeWatcher)
        ensures
            w.watched() == flag,
    {
        SizeWatcher { flag }
    }

    /// Whether the terminal was resized since the last call; lowers the flag. What it
    /// returns depends on signals delivered meanwhile, so nothing is promised of it.
    pub fn poll(&self) -> bool {
        self.flag.swap(false, Ordering::Relaxed)
    }
}

} // verus!
