use std::cell::Cell;

use minikernel::sync::{LazyStatic, SpinMutex};

#[test]
fn spin_mutex_locks_and_unlocks() {
    let mut m = SpinMutex::new();
    let g = m.lock();
    g.unlock();
    let g = m.lock();
    g.unlock();
}

#[test]
fn lazy_static_runs_factory_once() {
    let calls = Cell::new(0u32);
    let mut cell = LazyStatic::new(|| {
        calls.set(calls.get() + 1);
        41u32
    });
    assert_eq!(calls.get(), 0);
    assert_eq!(*cell.get(), 41);
    assert_eq!(*cell.get(), 41);
    assert_eq!(calls.get(), 1);
}

#[test]
fn lazy_static_keeps_changes_made_through_get_mut() {
    let calls = Cell::new(0u32);
    let mut cell = LazyStatic::new(|| {
        calls.set(calls.get() + 1);
        vec![1u8]
    });
    cell.get_mut().push(2);
    assert_eq!(cell.get(), &vec![1u8, 2]);
    assert_eq!(calls.get(), 1);
    assert_eq!(cell.into_inner(), vec![1u8, 2]);
    assert_eq!(calls.get(), 1);
}

#[test]
fn lazy_static_into_inner_makes_the_value() {
    let cell = LazyStatic::new(|| 7u64);
    assert_eq!(cell.into_inner(), 7);
}

#[test]
fn lazy_static_deref_sees_writes_through_deref_mut() {
    let calls = Cell::new(0u32);
    let mut cell = LazyStatic::new(|| {
        calls.set(calls.get() + 1);
        5i32
    });
    assert_eq!(*cell.deref(), 5);
    assert_eq!(*cell.deref(), 5);
    *cell.deref_mut() = 9;
    assert_eq!(*cell.deref(), 9);
    assert_eq!(calls.get(), 1);
}
