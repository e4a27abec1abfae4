use vstd::prelude::*;

verus! {

/// Memory ordering requested for an atomic access.
pub enum MemoryOrder {
    Relaxed,
    Acquire,
    Release,
    SeqCst,
}

/// Whether a load may be made with `order`: a load has no release semantics.
pub open spec fn is_load_order(order: MemoryOrder) -> bool {
    !(order is Release)
}

/// Whether a store may be made with `order`: a store has no acquire semantics.
pub open spec fn is_store_order(order: MemoryOrder) -> bool {
    !(order is Acquire)
}

/// A 32-bit word accessed with explicit memory orderings.
pub struct AtomicUint {
    value: u32,
}

impl AtomicUint {
    /// The value the word holds.
    pub closed spec fn value(&self) -> u32 {
        self.value
    }

    pub fn new(initial: u32) -> (r: Self)
        ensures
            r.value() == initial,
    {
        Self { value: initial }
    }

    /// Reads the word. A load with release ordering panics, so it is not allowed.
    pub fn load(&self, ordering: MemoryOrder) -> (r: u32)
        requires
            is_load_order(ordering),
        ensures
            r == self.value(),
    {
        self.value
    }

    /// Writes the word. A store with acquire ordering panics, so it is not allowed.
    pub fn store(&mut self, value: u32, ordering: MemoryOrder)
        requires
            is_store_order(ordering),
        ensures
            final(self).value() == value,
    {
        self.value = value;
    }
}

} // verus!
