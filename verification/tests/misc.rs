use minikernel::atomic::{AtomicUint, MemoryOrder};
use minikernel::boot::copy;
use minikernel::io::stdio::{StdIn, StdOut};
use minikernel::io::{Read, Write};
use minikernel::kbox::KBox;
use minikernel::kmalloc::SlabAllocator as EmptySlab;
use minikernel::mutex::SpinMutex as WordMutex;

#[test]
fn atomic_load_sees_last_store() {
    let mut a = AtomicUint::new(5);
    assert_eq!(a.load(MemoryOrder::Relaxed), 5);
    a.store(7, MemoryOrder::Release);
    assert_eq!(a.load(MemoryOrder::Acquire), 7);
    a.store(9, MemoryOrder::SeqCst);
    assert_eq!(a.load(MemoryOrder::SeqCst), 9);
    a.store(11, MemoryOrder::Relaxed);
    assert_eq!(a.load(MemoryOrder::Relaxed), 11);
}

#[test]
fn word_mutex_lock_does_nothing() {
    let m = WordMutex::new();
    m.lock();
    m.lock();
}

#[test]
fn empty_slab_hands_out_null() {
    let s = EmptySlab::new();
    assert_eq!(s.allocate(16), 0);
    assert_eq!(s.allocate(1), 0);
    s.deallocate(0x1000, 16);
    assert_eq!(s.allocate(128), 0);
}

#[test]
fn kbox_holds_its_value() {
    let mut b = KBox::new(5u32);
    assert_eq!(*b.deref(), 5);
    *b.deref_mut() = 6;
    assert_eq!(*b.deref(), 6);
}

#[test]
fn copy_moves_a_prefix() {
    let src = [1u8, 2, 3, 4, 5];
    let mut dst = [9u8; 7];
    copy(&src, &mut dst, 3);
    assert_eq!(dst, [1, 2, 3, 9, 9, 9, 9]);
    copy(&src, &mut dst, 0);
    assert_eq!(dst, [1, 2, 3, 9, 9, 9, 9]);
    copy(&src, &mut dst, 5);
    assert_eq!(dst, [1, 2, 3, 4, 5, 9, 9]);
}

#[test]
fn std_streams_move_no_bytes() {
    let mut out = StdOut;
    assert!(matches!(out.write(b"abc"), Ok(0)));
    assert!(matches!(out.flush(), Ok(())));
    let mut inp = StdIn;
    let mut buf = [3u8; 4];
    assert!(matches!(inp.read(&mut buf), Ok(0)));
    assert_eq!(buf, [3u8; 4]);
}

#[test]
fn dropping_kbox_does_not_drop_its_value() {
    let shared = std::rc::Rc::new(3u8);
    let b = KBox::new(shared.clone());
    assert_eq!(std::rc::Rc::strong_count(&shared), 2);
    drop(b);
    assert_eq!(std::rc::Rc::strong_count(&shared), 2);
}
