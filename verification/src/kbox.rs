use vstd::prelude::*;
use core::mem::ManuallyDrop;
use core::ops::DerefMut;

verus! {

/// `<ManuallyDrop<T> as DerefMut>::deref_mut`: as std documents it, exclusive
/// access to the value the `ManuallyDrop` holds; what is written through it is
/// what the `ManuallyDrop` then holds.
#[verifier::external_body]
fn manually_drop_deref_mut<T>(m: &mut ManuallyDrop<T>) -> (r: &mut T)
    ensures
        *r == old(m)@,
        final(m)@ == *final(r),
{
    m.deref_mut()
}

/// An owned value on the heap. Dropping the box frees its memory but never
/// runs the value's destructor.
pub struct KBox<T> {
    ptr: Box<ManuallyDrop<T>>,
}

impl<T> KBox<T> {
    /// The boxed value.
    pub closed spec fn value(&self) -> T {
        (*self.ptr)@
    }

    /// Moves `value` onto the heap.
    pub fn new(value: T) -> (r: Self)
        ensures
            r.value() == value,
    {
        Self { ptr: Box::new(ManuallyDrop::new(value)) }
    }

    /// Shared access to the boxed value.
    pub fn deref(&self) -> (r: &T)
        ensures
            *r == self.value(),
    {
        let inner: &ManuallyDrop<T> = &self.ptr;
        inner
    }

    /// Exclusive access to the boxed value.
    pub fn deref_mut(&mut self) -> (r: &mut T)
        ensures
            *r == old(self).value(),
            final(self).value() == *final(r),
    {
        manually_drop_deref_mut(&mut self.ptr)
    }
}

} // verus!
