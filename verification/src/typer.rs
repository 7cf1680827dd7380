use vstd::prelude::*;
use core::sync::atomic::{AtomicBool, Ordering};

verus! {

/// A lock word for mutual exclusion between contexts that share the text
/// writer.
///
/// The flag is an atomic shared with other contexts, so no contract below can
/// say what it holds: its value is changed by whoever else holds a reference.
pub struct Spinlock {
    locked: AtomicBool,
}

impl Spinlock {
    /// A lock that nobody holds.
    pub fn new() -> (l: Self) {
        Self { locked: AtomicBool::new(false) }
    }

    /// One acquisition attempt: sets the flag and reports whether it was clear
    /// before, that is whether the caller now holds the lock.
    pub fn try_lock(&self) -> (acquired: bool) {
        !self.locked.swap(true, Ordering::Acquire)
    }

    /// Releases the lock by clearing the flag.
    pub fn unlock(&self) {
        self.locked.store(false, Ordering::Release);
    }
}

} // verus!
