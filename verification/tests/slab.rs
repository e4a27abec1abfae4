use minikernel::kalloc::slab::{KAllocator, SlabAllocator};

const START: usize = 4096;
// Eight regions of 2048 bytes.
const CAPACITY: usize = 8 * 2048;

fn heap() -> SlabAllocator {
    let mut heap = SlabAllocator::new();
    heap.init(START, CAPACITY);
    heap
}

#[test]
fn fresh_heap_serves_nothing() {
    let mut heap = SlabAllocator::new();
    assert_eq!(heap.allocate(0), 0);
    assert_eq!(heap.allocate(1), 0);
    assert_eq!(heap.allocate(16), 0);
}

#[test]
fn first_blocks_come_lowest_address_first() {
    let mut heap = heap();
    assert_eq!(heap.allocate(1), START);
    assert_eq!(heap.allocate(16), START + 16);
    assert_eq!(heap.allocate(10), START + 32);
}

#[test]
fn each_size_goes_to_the_smallest_fitting_class() {
    let mut heap = heap();
    assert_eq!(heap.allocate(17), START + 2048);
    assert_eq!(heap.allocate(33), START + 2 * 2048);
    assert_eq!(heap.allocate(64), START + 2 * 2048 + 64);
    assert_eq!(heap.allocate(65), START + 3 * 2048);
    assert_eq!(heap.allocate(256), START + 4 * 2048);
    assert_eq!(heap.allocate(257), START + 5 * 2048);
    assert_eq!(heap.allocate(1024), START + 6 * 2048);
    assert_eq!(heap.allocate(2048), START + 7 * 2048);
}

#[test]
fn too_large_request_gets_null() {
    let mut heap = heap();
    assert_eq!(heap.allocate(2049), 0);
    assert_eq!(heap.allocate(usize::MAX), 0);
    // Nothing was taken.
    assert_eq!(heap.allocate(2048), START + 7 * 2048);
}

#[test]
fn exhausted_class_gets_null_without_falling_back() {
    let mut heap = heap();
    // The 1024-byte class holds two blocks in 2048 bytes.
    assert_eq!(heap.allocate(1000), START + 6 * 2048);
    assert_eq!(heap.allocate(1000), START + 6 * 2048 + 1024);
    assert_eq!(heap.allocate(1000), 0);
    // The larger class still has its block.
    assert_eq!(heap.allocate(1025), START + 7 * 2048);
    assert_eq!(heap.allocate(1025), 0);
}

#[test]
fn class_count_is_rounded_up() {
    // Regions of 2056 bytes: the 2048 class gets blocks at 0 and 2048.
    let mut heap = SlabAllocator::new();
    heap.init(START, 8 * 2056);
    assert_eq!(heap.allocate(2048), START + 7 * 2056);
    assert_eq!(heap.allocate(2048), START + 7 * 2056 + 2048);
    assert_eq!(heap.allocate(2048), 0);
}

#[test]
fn freed_block_is_handed_out_next() {
    let mut heap = heap();
    let a = heap.allocate(10);
    let b = heap.allocate(10);
    assert_ne!(a, b);
    heap.deallocate(a, 10);
    assert_eq!(heap.allocate(12), a);
    assert_eq!(heap.allocate(12), START + 32);
}

#[test]
fn allocate_then_deallocate_restores_the_heap() {
    let mut heap = heap();
    let before = heap.read(START);
    let a = heap.allocate(8);
    assert_eq!(a, START);
    heap.deallocate(a, 8);
    assert_eq!(heap.read(START), before);
    assert_eq!(heap.allocate(8), START);
    assert_eq!(heap.allocate(8), START + 16);
}

#[test]
fn links_are_threaded_through_the_blocks() {
    let heap = heap();
    assert_eq!(heap.read(START), START + 16);
    assert_eq!(heap.read(START + 16), START + 32);
    // The last 16-byte block ends the list.
    assert_eq!(heap.read(START + 2048 - 16), 0);
    // The single 2048-byte block was never written.
    assert_eq!(heap.read(START + 7 * 2048), 0);
}

#[test]
fn handed_out_block_has_its_first_word_zeroed() {
    let mut heap = heap();
    assert_eq!(heap.read(START), START + 16);
    let a = heap.allocate(16);
    assert_eq!(heap.read(a), 0);
}

#[test]
fn deallocate_links_block_to_former_head() {
    let mut heap = heap();
    let a = heap.allocate(16);
    let b = heap.allocate(16);
    heap.deallocate(a, 16);
    assert_eq!(heap.read(a), START + 32);
    heap.deallocate(b, 16);
    assert_eq!(heap.read(b), a);
    assert_eq!(heap.allocate(1), b);
    assert_eq!(heap.allocate(1), a);
}

#[test]
fn kallocator_reports_block_and_length() {
    let mut heap = heap();
    let k = KAllocator;
    match k.allocate(&mut heap, 24) {
        Ok((ptr, len)) => {
            assert_eq!(ptr, START + 2048);
            assert_eq!(len, 24);
        }
        Err(_) => panic!("allocation failed"),
    }
    assert!(k.allocate(&mut heap, 4096).is_err());
    k.deallocate(&mut heap, START + 2048, 24);
    assert!(matches!(k.allocate(&mut heap, 20), Ok((p, 20)) if p == START + 2048));
}

#[test]
fn kallocator_fails_on_fresh_heap() {
    let mut heap = SlabAllocator::new();
    assert!(KAllocator.allocate(&mut heap, 1).is_err());
}

#[test]
fn full_heap_drains_one_class_without_fallback() {
    let mut heap = SlabAllocator::new();
    heap.init(START, 2_097_152);
    let region = 2_097_152 / 8;
    for k in 0..region / 16 {
        assert_eq!(heap.allocate(16), START + k * 16);
    }
    assert_eq!(heap.allocate(16), 0);
    assert_eq!(heap.allocate(1), 0);
    assert_eq!(heap.allocate(32), START + region);
    assert_eq!(heap.allocate(2049), 0);
}

#[test]
fn live_blocks_never_overlap_and_stay_in_the_heap() {
    let mut heap = heap();
    let sizes = [1usize, 16, 17, 40, 64, 100, 200, 300, 600, 1024, 2000, 5, 33];
    let mut live: Vec<(usize, usize)> = Vec::new();
    for (i, &size) in sizes.iter().enumerate() {
        let p = heap.allocate(size);
        assert_ne!(p, 0);
        let block = [16usize, 32, 64, 128, 256, 512, 1024, 2048].iter().copied().find(|&b| size <= b).unwrap();
        live.push((p, block));
        if i == 4 {
            let (q, _) = live.remove(1);
            heap.deallocate(q, 16);
        }
    }
    for (i, &(p, b)) in live.iter().enumerate() {
        assert!(START <= p && p + b <= START + CAPACITY);
        for &(q, c) in live.iter().skip(i + 1) {
            assert!(p + b <= q || q + c <= p);
        }
    }
}
