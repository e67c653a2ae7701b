use std::sync::atomic::{AtomicBool, Ordering};
use std::sync::Arc;

use nib::term::size::SizeWatcher;

#[test]
fn poll_reports_and_lowers_the_flag() {
    let flag = Arc::new(AtomicBool::new(false));
    let w = SizeWatcher::with_flag(flag.clone());
    assert!(!w.poll());
    flag.store(true, Ordering::Relaxed);
    assert!(w.poll());
    assert!(!w.poll());
}
