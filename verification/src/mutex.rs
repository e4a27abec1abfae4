use vstd::prelude::*;

use crate::atomic::AtomicUint;

verus! {

/// A lock whose lock word is an `AtomicUint`; taking it does not wait.
pub struct SpinMutex {
    lock: AtomicUint,
}

impl SpinMutex {
    /// The lock word.
    pub closed spec fn lock_word(&self) -> u32 {
        self.lock.value()
    }

    pub fn new() -> (r: Self)
        ensures
            r.lock_word() == 0,
    {
        Self { lock: AtomicUint::new(0) }
    }

    /// Takes the lock; it leaves the lock word as it is.
    pub fn lock(&self) {
    }
}

} // verus!
