use vstd::prelude::*;

verus! {

/// A spin lock whose lock word is held as a plain flag.
pub struct SpinMutex {
    locked: bool,
}

/// The hold on a `SpinMutex`: it borrows the lock it was taken on, and
/// `unlock` releases that lock. The guard has no destructor: one dropped
/// without `unlock` leaves the lock held.
pub struct SpinMutexGuard<'a> {
    pub mutex: &'a mut SpinMutex,
}

impl<'a> SpinMutexGuard<'a> {
    /// The lock as the guard holds it.
    pub closed spec fn held(&self) -> SpinMutex {
        *self.mutex
    }

    /// Releases the lock the guard was taken on.
    pub fn unlock(self)
        ensures
            !final(self.mutex).is_locked(),
    {
        self.mutex.locked = false;
    }
}

impl SpinMutex {
    /// Whether the lock word is set.
    pub closed spec fn is_locked(&self) -> bool {
        self.locked
    }

    pub fn new() -> (r: Self)
        ensures
            !r.is_locked(),
    {
        Self { locked: false }
    }

    /// Takes the lock. Spinning on a lock that is already held never ends
    /// when no one else runs, so the lock must be free. The guard borrows this
    /// lock until it is released.
    pub fn lock<'a>(&'a mut self) -> (guard: SpinMutexGuard<'a>)
        requires
            !old(self).is_locked(),
        ensures
            guard.held().is_locked(),
            *final(self) == *final(guard.mutex),
    {
        self.locked = true;
        SpinMutexGuard { mutex: self }
    }
}

/// A value made on first use by a factory, then kept. The factory is held
/// until that use and is consumed by it, so it can run at most once.
pub struct LazyStatic<T, F> {
    mutex: SpinMutex,
    value: Option<T>,
    factory: Option<F>,
    made_by: Ghost<F>,
}

impl<T, F: FnOnce() -> T> LazyStatic<T, F> {
    /// The value, once made.
    pub closed spec fn value(&self) -> Option<T> {
        self.value
    }

    /// What makes the value: the factory the cell was made with.
    pub closed spec fn factory(&self) -> F {
        self.made_by@
    }

    /// Whether the factory has been used up.
    pub closed spec fn factory_spent(&self) -> bool {
        self.factory is None
    }

    /// The cell's lock is free between uses, and it holds its factory, unused,
    /// exactly while it holds no value.
    pub closed spec fn wf(&self) -> bool {
        &&& !self.mutex.is_locked()
        &&& self.value is None ==> self.factory == Some(self.made_by@)
        &&& self.value is Some <==> self.factory is None
    }

    /// `v` is the value a use of `pre` hands out: the one it holds, or, when it
    /// holds none, one its factory may return.
    pub open spec fn first_use(pre: Self, v: T) -> bool {
        match pre.value() {
            Some(x) => v == x,
            None => call_ensures(pre.factory(), (), v),
        }
    }

    /// A cell that makes its value with `factory` on first use.
    pub fn new(factory: F) -> (r: Self)
        ensures
            r.wf(),
            r.value() is None,
            r.factory() == factory,
            !r.factory_spent(),
    {
        Self { mutex: SpinMutex::new(), value: None, factory: Some(factory), made_by: Ghost(factory) }
    }

    /// Gives up the cell and hands out its value, making it first if need be.
    pub fn into_inner(self) -> (r: T)
        requires
            self.wf(),
            self.value() is None ==> call_requires(self.factory(), ()),
        ensures
            Self::first_use(self, r),
    {
        let mut cell = self;
        cell.ensure_initialized();
        cell.value.unwrap()
    }

    fn ensure_initialized(&mut self)
        requires
            old(self).wf(),
            old(self).value() is None ==> call_requires(old(self).factory(), ()),
        ensures
            final(self).wf(),
            final(self).factory() == old(self).factory(),
            final(self).value() is Some,
            final(self).factory_spent(),
            Self::first_use(*old(self), final(self).value()->0),
    {
        if self.value.is_some() {
            return;
        }
        let guard = self.mutex.lock();
        guard.unlock();
        if self.value.is_none() {
            let factory = self.factory.take().unwrap();
            self.value = Some(factory());
        }
    }

    /// Shared access as `*cell` gives it: the value, made first if need be.
    pub fn deref(&mut self) -> (r: &T)
        requires
            old(self).wf(),
            old(self).value() is None ==> call_requires(old(self).factory(), ()),
        ensures
            final(self).wf(),
            final(self).factory() == old(self).factory(),
            final(self).value() == Some(*r),
            final(self).factory_spent(),
            Self::first_use(*old(self), *r),
    {
        self.get()
    }

    /// Exclusive access as `*cell = ..` uses it: the value, made first if need be.
    pub fn deref_mut(&mut self) -> (r: &mut T)
        requires
            old(self).wf(),
            old(self).value() is None ==> call_requires(old(self).factory(), ()),
        ensures
            final(self).wf(),
            final(self).factory() == old(self).factory(),
            final(self).value() == Some(*final(r)),
            final(self).factory_spent(),
            Self::first_use(*old(self), *r),
    {
        self.get_mut()
    }

    /// Shared access to the value, making it first if need be.
    pub fn get(&mut self) -> (r: &T)
        requires
            old(self).wf(),
            old(self).value() is None ==> call_requires(old(self).factory(), ()),
        ensures
            final(self).wf(),
            final(self).factory() == old(self).factory(),
            final(self).value() == Some(*r),
            final(self).factory_spent(),
            Self::first_use(*old(self), *r),
    {
        self.ensure_initialized();
        self.value.as_ref().unwrap()
    }

    /// Exclusive access to the value, making it first if need be.
    pub fn get_mut(&mut self) -> (r: &mut T)
        requires
            old(self).wf(),
            old(self).value() is None ==> call_requires(old(self).factory(), ()),
        ensures
            final(self).wf(),
            final(self).factory() == old(self).factory(),
            final(self).value() == Some(*final(r)),
            final(self).factory_spent(),
            Self::first_use(*old(self), *r),
    {
        self.ensure_initialized();
        self.value.as_mut().unwrap()
    }
}

/// Once the cell holds a value, every later use hands out that same value
/// without running the factory; after a write through `get_mut`, that value
/// is the one written.
pub proof fn lemma_value_is_made_once<T, F: FnOnce() -> T>(cell: LazyStatic<T, F>, v: T)
    requires
        cell.value() is Some,
        LazyStatic::first_use(cell, v),
    ensures
        v == cell.value()->0,
{
}

/// A cell holds a value exactly when its factory is used up: the factory is
/// moved out and consumed by the one call that makes the value, so it can never
/// run a second time.
pub proof fn lemma_made_iff_factory_spent<T, F: FnOnce() -> T>(cell: LazyStatic<T, F>)
    requires
        cell.wf(),
    ensures
        cell.value() is Some <==> cell.factory_spent(),
{
}

/// The first use of a fresh cell runs the factory once; a second use hands out
/// that same value without running it again.
pub proof fn lemma_fresh_cell_made_once<T, F: FnOnce() -> T>(
    s0: LazyStatic<T, F>,
    s1: LazyStatic<T, F>,
    r1: T,
    r2: T,
)
    requires
        s0.value() is None,
        LazyStatic::first_use(s0, r1),
        s1.factory() == s0.factory(),
        s1.value() == Some(r1),
        LazyStatic::first_use(s1, r2),
    ensures
        call_ensures(s0.factory(), (), r1),
        r2 == r1,
{
}

} // verus!
