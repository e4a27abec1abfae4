use vstd::prelude::*;

verus! {

/// Number of size classes.
pub const BLOCK_COUNT: usize = 4;

/// Block size of each size class, smallest first.
pub open spec fn spec_block_sizes() -> Seq<usize> {
    seq![16usize, 32usize, 64usize, 128usize]
}

/// A block of memory, by its address.
pub struct Block {
    data: usize,
}

/// Link to the first free block, if any.
pub struct FreeList {
    next: Option<Block>,
}

/// One size class.
pub struct Allocator {
    free_list: FreeList,
    size: usize,
}

/// A slab allocator with four size classes whose free lists start empty; it
/// hands out nothing yet.
pub struct SlabAllocator {
    allocators: Vec<Allocator>,
}

impl Allocator {
    fn new(size: usize) -> (r: Self)
        ensures
            r.size == size,
            r.free_list.next is None,
    {
        Self { free_list: FreeList { next: None }, size }
    }
}

impl SlabAllocator {
    /// Block size of each class.
    pub closed spec fn sizes(&self) -> Seq<usize> {
        self.allocators@.map_values(|a: Allocator| a.size)
    }

    /// Whether every class's free list is empty.
    pub closed spec fn all_free_lists_empty(&self) -> bool {
        forall|i: int| 0 <= i < self.allocators@.len() ==> (#[trigger] self.allocators@[i]).free_list.next is None
    }

    pub fn new() -> (r: Self)
        ensures
            r.sizes() == spec_block_sizes(),
            r.all_free_lists_empty(),
    {
        let sizes: [usize; BLOCK_COUNT] = [16, 32, 64, 128];
        let mut allocators: Vec<Allocator> = Vec::new();
        let mut i: usize = 0;
        while i < BLOCK_COUNT
            invariant
                i <= BLOCK_COUNT,
                sizes@ == spec_block_sizes(),
                allocators@.len() == i,
                forall|j: int| 0 <= j < i ==> (#[trigger] allocators@[j]).size == spec_block_sizes()[j],
                forall|j: int| 0 <= j < i ==> (#[trigger] allocators@[j]).free_list.next is None,
            decreases BLOCK_COUNT - i,
        {
            allocators.push(Allocator::new(sizes[i]));
            i = i + 1;
        }
        let r = Self { allocators };
        assert(r.sizes() =~= spec_block_sizes());
        r
    }

    /// Serves no request: every allocation comes back null (0).
    pub fn allocate(&self, size: usize) -> (r: usize)
        ensures
            r == 0,
    {
        0
    }

    /// Takes a block back; nothing is recorded.
    pub fn deallocate(&self, ptr: usize, size: usize) {
    }
}

} // verus!
