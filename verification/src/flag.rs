use std::sync::atomic::{AtomicBool, Ordering};
use std::sync::Arc;
use vstd::prelude::*;

verus! {

/// A signal that one thread raises and another one reads. Whoever holds a
/// clone holds the same signal, so nothing can be said of what `is_set` returns.
#[derive(Clone, Debug)]
pub struct AtomicFlag {
    flag: Arc<AtomicBool>,
}

impl AtomicFlag {
    /// A signal that is not raised.
    pub fn new() -> AtomicFlag {
        AtomicFlag { flag: Arc::new(AtomicBool::new(false)) }
    }

    /// Raises the signal.
    pub fn set(&self) {
        self.flag.store(true, Ordering::Release);
    }

    /// Lowers the signal.
    pub fn clear(&self) {
        self.flag.store(false, Ordering::Release);
    }

    /// Whether the signal is raised at this moment.
    pub fn is_set(&self) -> bool {
        self.flag.load(Ordering::Acquire)
    }
}

} // verus!
