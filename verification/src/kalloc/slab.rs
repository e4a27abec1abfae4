use vstd::prelude::*;
use vstd::hash_map::HashMapWithView;

use crate::sync::SpinMutex;

verus! {

broadcast use vstd::std_specs::hash::group_hash_axioms;

/// Number of size classes.
pub const BLOCK_COUNT: usize = 8;

/// Block size of each size class, smallest first.
pub open spec fn spec_block_sizes() -> Seq<usize> {
    seq![16usize, 32usize, 64usize, 128usize, 256usize, 512usize, 1024usize, 2048usize]
}

/// The word at address `a`; a word never written holds zero (the heap lives in zeroed memory).
pub open spec fn word(memory: Map<usize, usize>, a: usize) -> usize {
    if memory.contains_key(a) {
        memory[a]
    } else {
        0
    }
}

/// `head` and the link words in `memory` thread exactly `blocks`, in order:
/// each block's first word points at the next one and the last holds null.
pub open spec fn threads(memory: Map<usize, usize>, head: usize, blocks: Seq<usize>) -> bool {
    &&& head == (if blocks.len() == 0 { 0usize } else { blocks[0] })
    &&& forall|j: int| 0 <= j < blocks.len() ==> #[trigger] blocks[j] != 0
    &&& forall|j: int|
        0 <= j < blocks.len() ==> word(memory, #[trigger] blocks[j]) == (if j + 1 < blocks.len() {
            blocks[j + 1]
        } else {
            0usize
        })
    &&& blocks.no_duplicates()
}

/// `blocks` start at `base` and follow each other every `size` bytes, as many as
/// start below `base + capacity`.
pub open spec fn is_class_layout(blocks: Seq<usize>, base: int, size: int, capacity: int) -> bool {
    &&& blocks.len() > 0
    &&& blocks[0] == base
    &&& forall|j: int| 0 < j < blocks.len() ==> #[trigger] blocks[j] == blocks[j - 1] + size
    &&& blocks.last() < base + capacity
    &&& blocks.last() + size >= base + capacity
}

/// The first class, from `i` on, whose blocks hold `size` bytes.
pub open spec fn first_fit_from(sizes: Seq<usize>, size: usize, i: int) -> Option<int>
    decreases sizes.len() - i,
{
    if i < 0 || i >= sizes.len() {
        None
    } else if size <= sizes[i] {
        Some(i)
    } else {
        first_fit_from(sizes, size, i + 1)
    }
}

/// The first class whose blocks hold `size` bytes.
pub open spec fn first_fit(sizes: Seq<usize>, size: usize) -> Option<int> {
    first_fit_from(sizes, size, 0)
}

fn block_size_of_class(class: usize) -> (r: usize)
    requires
        class < BLOCK_COUNT,
    ensures
        r == spec_block_sizes()[class as int],
{
    let sizes: [usize; BLOCK_COUNT] = [16, 32, 64, 128, 256, 512, 1024, 2048];
    assert(sizes@ =~= spec_block_sizes());
    sizes[class]
}

/// The class `first_fit_from` finds lies in range and holds `size` bytes, and no
/// class between `i` and it does.
pub proof fn lemma_first_fit_from(sizes: Seq<usize>, size: usize, i: int)
    requires
        0 <= i,
    ensures
        match first_fit_from(sizes, size, i) {
            Some(c) => i <= c < sizes.len() && size <= sizes[c] && forall|k: int| i <= k < c ==> size > #[trigger] sizes[k],
            None => forall|k: int| i <= k < sizes.len() ==> size > #[trigger] sizes[k],
        },
    decreases sizes.len() - i,
{
    if i < sizes.len() && size > sizes[i] {
        lemma_first_fit_from(sizes, size, i + 1);
    }
}

/// One size class: the head of its free list and the size of its blocks.
#[derive(Clone, Copy)]
pub struct Allocator {
    free_list: usize,
    block_size: usize,
}

fn read_word(memory: &HashMapWithView<usize, usize>, addr: usize) -> (r: usize)
    ensures
        r == word(memory@, addr),
{
    match memory.get(&addr) {
        Some(v) => *v,
        None => 0,
    }
}

impl Allocator {
    /// Threads a free list through the blocks of `size` bytes that start in
    /// `[offset_addr, offset_addr + capacity)`.
    fn new(memory: &mut HashMapWithView<usize, usize>, offset_addr: usize, size: usize, capacity: usize)
        -> (r: (Allocator, Ghost<Seq<usize>>))
        requires
            0 < size <= capacity,
            offset_addr > 0,
            offset_addr + capacity <= usize::MAX,
            forall|a: usize| a >= offset_addr ==> !old(memory)@.contains_key(a),
        ensures
            r.0.block_size == size,
            is_class_layout(r.1@, offset_addr as int, size as int, capacity as int),
            forall|j: int| 0 <= j < r.1@.len() ==> offset_addr <= #[trigger] r.1@[j] < offset_addr + capacity,
            threads(final(memory)@, r.0.free_list, r.1@),
            forall|a: usize| a < offset_addr ==> (#[trigger] final(memory)@.contains_key(a)
                == old(memory)@.contains_key(a) && word(final(memory)@, a) == word(old(memory)@, a)),
            forall|a: usize| a >= offset_addr + capacity ==> !(#[trigger] final(memory)@.contains_key(a)),
    {
        let mut list = offset_addr;
        let mut remaining = capacity;
        let ghost mut blocks: Seq<usize> = seq![offset_addr];
        while remaining > size
            invariant
                0 < size <= capacity,
                offset_addr > 0,
                offset_addr + capacity <= usize::MAX,
                0 < remaining,
                list + remaining == offset_addr + capacity,
                blocks.len() > 0,
                blocks[0] == offset_addr,
                blocks.last() == list,
                forall|j: int| 0 < j < blocks.len() ==> #[trigger] blocks[j] == blocks[j - 1] + size,
                forall|j: int| 0 <= j < blocks.len() ==> offset_addr <= #[trigger] blocks[j] <= list,
                forall|i: int, j: int| 0 <= i < j < blocks.len() ==> blocks[i] < blocks[j],
                forall|j: int| 0 <= j < blocks.len() - 1 ==> word(memory@, #[trigger] blocks[j]) == blocks[j + 1],
                word(memory@, list) == 0,
                forall|a: usize| a > list ==> !(#[trigger] memory@.contains_key(a)),
                forall|a: usize| a < offset_addr ==> (#[trigger] memory@.contains_key(a)
                    == old(memory)@.contains_key(a) && word(memory@, a) == word(old(memory)@, a)),
            decreases remaining,
        {
            let ptr = list + size;
            memory.insert(ptr, 0);
            memory.insert(list, ptr);
            proof {
                blocks = blocks.push(ptr);
            }
            list = ptr;
            remaining = remaining - size;
        }
        proof {
            assert forall|j: int| 0 <= j < blocks.len() implies word(memory@, #[trigger] blocks[j]) == (if j + 1 < blocks.len() {
                blocks[j + 1]
            } else {
                0usize
            }) by {}
            assert(blocks.no_duplicates()) by {
                assert forall|i: int, j: int| 0 <= i < blocks.len() && 0 <= j < blocks.len() && i != j
                    implies blocks[i] != blocks[j] by {
                    if i < j {} else {}
                }
            }
        }
        (Allocator { free_list: offset_addr, block_size: size }, Ghost(blocks))
    }
}

impl Allocator {
    /// Address of the first free block; null (0) when the list is empty.
    pub closed spec fn head(&self) -> usize {
        self.free_list
    }

    /// Size of the class's blocks.
    pub closed spec fn block_size(&self) -> usize {
        self.block_size
    }

    /// What `get_current_free_list` does: `current` is the head, and the head
    /// moves on to the block the head's first word links to.
    pub open spec fn pop_step(pre: Allocator, memory: Map<usize, usize>, post: Allocator, current: usize) -> bool {
        &&& current == pre.head()
        &&& post.head() == word(memory, pre.head())
        &&& post.block_size() == pre.block_size()
    }

    /// What `set_current_free_list` does: `new_current` becomes the head and its
    /// first word links to the former head.
    pub open spec fn push_step(
        pre: Allocator,
        memory: Map<usize, usize>,
        new_current: usize,
        post: Allocator,
        post_memory: Map<usize, usize>,
    ) -> bool {
        &&& post.head() == new_current
        &&& post.block_size() == pre.block_size()
        &&& post_memory == memory.insert(new_current, pre.head())
    }

    /// Takes the first block off the free list: the head moves on to the block
    /// that the first one links to.
    pub fn get_current_free_list(&mut self, memory: &HashMapWithView<usize, usize>) -> (current: usize)
        ensures
            Self::pop_step(*old(self), memory@, *final(self), current),
    {
        let next = read_word(memory, self.free_list);
        let current = self.free_list;
        self.free_list = next;
        current
    }

    /// Puts `new_current` in front of the free list, linking it to the old head.
    pub fn set_current_free_list(&mut self, memory: &mut HashMapWithView<usize, usize>, new_current: usize)
        ensures
            Self::push_step(*old(self), old(memory)@, new_current, *final(self), final(memory)@),
    {
        let next = self.free_list;
        self.free_list = new_current;
        memory.insert(new_current, next);
    }
}

/// Pushing back the block just taken off a class's free list restores the
/// class exactly, and every word of memory reads as before.
pub proof fn lemma_push_undoes_pop(
    a0: Allocator,
    a1: Allocator,
    a2: Allocator,
    memory: Map<usize, usize>,
    memory2: Map<usize, usize>,
    p: usize,
)
    requires
        Allocator::pop_step(a0, memory, a1, p),
        Allocator::push_step(a1, memory, p, a2, memory2),
    ensures
        a2 == a0,
        forall|x: usize| word(memory2, x) == word(memory, x),
{
    assert forall|x: usize| word(memory2, x) == word(memory, x) by {
        if x == p {
            if !memory.contains_key(p) {
                assert(word(memory, p) == 0);
            }
        }
    }
}

/// A heap split into `BLOCK_COUNT` regions, one per size class, each handing out
/// blocks of one size from a free list threaded through the free blocks themselves.
pub struct SlabAllocator {
    mutex: SpinMutex,
    allocators: Vec<Allocator>,
    memory: HashMapWithView<usize, usize>,
    free: Ghost<Seq<Seq<usize>>>,
    layout: Ghost<Seq<Seq<usize>>>,
}

impl SlabAllocator {
    /// Block size of each class.
    pub closed spec fn sizes(&self) -> Seq<usize> {
        self.allocators@.map_values(|a: Allocator| a.block_size)
    }

    /// Head of each class's free list: its first free block, or null (0).
    pub closed spec fn heads(&self) -> Seq<usize> {
        self.allocators@.map_values(|a: Allocator| a.free_list)
    }

    /// `p` is handed out: it is a block of some class and no free list holds it.
    pub open spec fn is_live(&self, p: usize) -> bool {
        &&& exists|c: int| 0 <= c < BLOCK_COUNT && #[trigger] self.class_blocks()[c].contains(p)
        &&& forall|d: int| 0 <= d < BLOCK_COUNT ==> !(#[trigger] self.free_lists()[d].contains(p))
    }

    /// Free blocks of each class, in the order they will be handed out.
    pub closed spec fn free_lists(&self) -> Seq<Seq<usize>> {
        self.free@
    }

    /// Every block of each class, free or handed out.
    pub closed spec fn class_blocks(&self) -> Seq<Seq<usize>> {
        self.layout@
    }

    /// The words the allocator has written, by address.
    pub closed spec fn memory(&self) -> Map<usize, usize> {
        self.memory@
    }

    /// Well-formedness: one entry per class in each view, and the internal invariant.
    pub open spec fn wf(&self) -> bool {
        &&& self.sizes().len() == BLOCK_COUNT
        &&& self.free_lists().len() == BLOCK_COUNT
        &&& self.class_blocks().len() == BLOCK_COUNT
        &&& self.inv()
    }

    /// Each class's head and the link words thread its free blocks; free blocks
    /// are blocks of their class; no block is null; no two classes share a block.
    pub closed spec fn inv(&self) -> bool {
        &&& self.allocators@.len() == BLOCK_COUNT
        &&& self.free@.len() == BLOCK_COUNT
        &&& self.layout@.len() == BLOCK_COUNT
        &&& !self.mutex.is_locked()
        &&& forall|c: int| 0 <= c < BLOCK_COUNT ==> threads(self.memory@, #[trigger] self.allocators@[c].free_list, self.free@[c])
        &&& forall|c: int, a: usize| 0 <= c < BLOCK_COUNT && #[trigger] self.free@[c].contains(a) ==> self.layout@[c].contains(a)
        &&& forall|c: int, a: usize| 0 <= c < BLOCK_COUNT && #[trigger] self.layout@[c].contains(a) ==> a != 0
        &&& forall|c1: int, c2: int, a: usize|
            0 <= c1 < BLOCK_COUNT && 0 <= c2 < BLOCK_COUNT && c1 != c2 && #[trigger] self.layout@[c1].contains(a)
                ==> !(#[trigger] self.layout@[c2].contains(a))
    }

    /// The state before `init`: every class empty, with block size zero, and nothing written.
    pub closed spec fn is_unset(&self) -> bool {
        &&& forall|c: int| 0 <= c < BLOCK_COUNT ==> #[trigger] self.allocators@[c] == (Allocator { free_list: 0, block_size: 0 })
        &&& forall|c: int| 0 <= c < BLOCK_COUNT ==> #[trigger] self.free@[c] == Seq::<usize>::empty()
        &&& forall|c: int| 0 <= c < BLOCK_COUNT ==> #[trigger] self.layout@[c] == Seq::<usize>::empty()
        &&& self.memory@ == Map::<usize, usize>::empty()
    }

    /// The classes have the standard block sizes and the blocks that
    /// `init(start, capacity)` lays out, the `c`-th class in the `c`-th of
    /// eight equal regions. Every call after `init` keeps this, since it keeps
    /// `sizes()` and `class_blocks()`.
    pub open spec fn laid_out(&self, start: int, capacity: int) -> bool {
        &&& self.sizes() == spec_block_sizes()
        &&& forall|c: int|
            0 <= c < BLOCK_COUNT ==> is_class_layout(
                #[trigger] self.class_blocks()[c],
                region_base(start, capacity / BLOCK_COUNT as int, c),
                spec_block_sizes()[c] as int,
                capacity / BLOCK_COUNT as int,
            )
    }

    /// The class that serves a request of `size` bytes: the first class whose
    /// blocks are large enough, provided it has a free block.
    pub open spec fn serving_class(&self, size: usize) -> Option<int> {
        match first_fit(self.sizes(), size) {
            Some(c) => if self.free_lists()[c].len() > 0 { Some(c) } else { None },
            None => None,
        }
    }

    pub fn new() -> (r: Self)
        ensures
            r.wf(),
            r.is_unset(),
            r.sizes() == Seq::new(BLOCK_COUNT as nat, |c: int| 0usize),
            r.free_lists() == Seq::new(BLOCK_COUNT as nat, |c: int| Seq::<usize>::empty()),
    {
        let mut allocators: Vec<Allocator> = Vec::new();
        let mut i: usize = 0;
        while i < BLOCK_COUNT
            invariant
                i <= BLOCK_COUNT,
                allocators@.len() == i,
                forall|c: int| 0 <= c < i ==> #[trigger] allocators@[c] == (Allocator { free_list: 0, block_size: 0 }),
            decreases BLOCK_COUNT - i,
        {
            allocators.push(Allocator { free_list: 0, block_size: 0 });
            i = i + 1;
        }
        let r = SlabAllocator {
            mutex: SpinMutex::new(),
            allocators,
            memory: HashMapWithView::new(),
            free: Ghost(Seq::new(BLOCK_COUNT as nat, |c: int| Seq::<usize>::empty())),
            layout: Ghost(Seq::new(BLOCK_COUNT as nat, |c: int| Seq::<usize>::empty())),
        };
        assert(r.sizes() =~= Seq::new(BLOCK_COUNT as nat, |c: int| 0usize));
        r
    }

    /// The word at `addr` as the allocator last wrote it (zero if never written).
    pub fn read(&self, addr: usize) -> (r: usize)
        ensures
            r == word(self.memory(), addr),
    {
        read_word(&self.memory, addr)
    }

    /// What `allocate` does: it hands out the first free block of the serving class,
    /// zeroes the block's first word and leaves everything else as it was; with no
    /// serving class it returns null and changes nothing.
    pub open spec fn alloc_step(pre: SlabAllocator, post: SlabAllocator, size: usize, r: usize) -> bool {
        &&& post.wf()
        &&& post.sizes() == pre.sizes()
        &&& post.class_blocks() == pre.class_blocks()
        &&& (r == 0) == (pre.serving_class(size) is None)
        &&& match pre.serving_class(size) {
            Some(c) => {
                &&& r == pre.free_lists()[c][0]
                &&& post.free_lists() == pre.free_lists().update(c, pre.free_lists()[c].drop_first())
                &&& post.memory() == pre.memory().insert(r, 0)
            },
            None => {
                &&& post.free_lists() == pre.free_lists()
                &&& post.memory() == pre.memory()
            },
        }
    }

    /// When `deallocate(ptr, size)` may be called: a class serves `size` (the lookup
    /// is unwrapped, so it panics otherwise) and `ptr` is one of that class's
    /// blocks that is not free, i.e. it was handed out for a request of this size.
    pub open spec fn dealloc_allowed(&self, ptr: usize, size: usize) -> bool {
        &&& self.serving_class(size) is Some
        &&& self.class_blocks()[self.serving_class(size)->0].contains(ptr)
        &&& !self.free_lists()[self.serving_class(size)->0].contains(ptr)
    }

    /// What `deallocate` does: the block goes in front of its class's free list and
    /// its first word links to the former head.
    pub open spec fn dealloc_step(pre: SlabAllocator, post: SlabAllocator, ptr: usize, size: usize) -> bool {
        let c = pre.serving_class(size)->0;
        &&& post.wf()
        &&& post.sizes() == pre.sizes()
        &&& post.class_blocks() == pre.class_blocks()
        &&& post.free_lists() == pre.free_lists().update(c, seq![ptr] + pre.free_lists()[c])
        &&& post.memory() == pre.memory().insert(ptr, pre.free_lists()[c][0])
    }

    /// The class that serves `size`, found as `serving_class` says.
    pub fn find_allocator_with_size_locked(&self, size: usize) -> (r: Option<usize>)
        requires
            self.wf(),
        ensures
            match r {
                Some(c) => c < BLOCK_COUNT && self.serving_class(size) == Some(c as int),
                None => self.serving_class(size) is None,
            },
    {
        let mut found: Option<usize> = None;
        let mut i: usize = 0;
        while i < BLOCK_COUNT
            invariant_except_break
                i <= BLOCK_COUNT,
                found is None,
                first_fit(self.sizes(), size) == first_fit_from(self.sizes(), size, i as int),
            invariant
                self.wf(),
            ensures
                match found {
                    Some(c) => c < BLOCK_COUNT && first_fit(self.sizes(), size) == Some(c as int),
                    None => first_fit(self.sizes(), size) is None,
                },
            decreases BLOCK_COUNT - i,
        {
            if size <= self.allocators[i].block_size {
                found = Some(i);
                break;
            }
            i = i + 1;
        }
        match found {
            Some(c) => {
                proof {
                    let s = self.free@[c as int];
                    assert(threads(self.memory@, self.allocators@[c as int].free_list, s));
                    if s.len() > 0 {
                        assert(s[0] != 0);
                    }
                }
                if self.allocators[c].free_list == 0 {
                    None
                } else {
                    found
                }
            },
            None => None,
        }
    }

    /// Hands out a block of at least `size` bytes with its first word zeroed, or
    /// null (0) when no class serves the request.
    pub fn allocate(&mut self, size: usize) -> (r: usize)
        requires
            old(self).wf(),
        ensures
            Self::alloc_step(*old(self), *final(self), size, r),
    {
        let guard = self.mutex.lock();
        guard.unlock();
        match self.find_allocator_with_size_locked(size) {
            Some(c) => {
                let ghost pre = *self;
                let ghost s = self.free@[c as int];
                let mut allocator = self.allocators[c];
                let current = allocator.get_current_free_list(&self.memory);
                self.allocators.set(c, allocator);
                self.memory.insert(current, 0);
                proof {
                    self.free@ = self.free@.update(c as int, s.drop_first());
                    assert(threads(pre.memory@, pre.allocators@[c as int].free_list, s));
                    assert(current == s[0]);
                    assert forall|d: int| 0 <= d < BLOCK_COUNT implies threads(self.memory@, #[trigger] self.allocators@[d].free_list, self.free@[d]) by {
                        if d == c {
                            let t = s.drop_first();
                            assert forall|j: int| 0 <= j < t.len() implies word(self.memory@, #[trigger] t[j]) == (if j + 1 < t.len() { t[j + 1] } else { 0usize }) by {
                                assert(t[j] == s[j + 1]);
                                assert(s[j + 1] != s[0]);
                            }
                        } else {
                            let t = pre.free@[d];
                            assert(threads(pre.memory@, pre.allocators@[d].free_list, t));
                            assert(s.contains(s[0]));
                            assert(pre.layout@[c as int].contains(current));
                            assert forall|j: int| 0 <= j < t.len() implies word(self.memory@, #[trigger] t[j]) == word(pre.memory@, t[j]) by {
                                assert(t.contains(t[j]));
                                assert(pre.layout@[d].contains(t[j]));
                            }
                        }
                    }
                    assert forall|d: int, a: usize| 0 <= d < BLOCK_COUNT && #[trigger] self.free@[d].contains(a) implies self.layout@[d].contains(a) by {
                        if d == c {
                            let j = choose|j: int| 0 <= j < self.free@[d].len() && self.free@[d][j] == a;
                            assert(s[j + 1] == a);
                            assert(pre.free@[d].contains(a));
                        } else {
                            assert(pre.free@[d].contains(a));
                        }
                    }
                    assert(self.sizes() =~= pre.sizes());
                }
                current
            },
            None => 0,
        }
    }

    /// Puts `ptr`, handed out earlier for a request of `size` bytes, back in
    /// front of its class's free list.
    pub fn deallocate(&mut self, ptr: usize, size: usize)
        requires
            old(self).wf(),
            old(self).dealloc_allowed(ptr, size),
        ensures
            Self::dealloc_step(*old(self), *final(self), ptr, size),
    {
        let guard = self.mutex.lock();
        guard.unlock();
        let c = self.find_allocator_with_size_locked(size).unwrap();
        let ghost pre = *self;
        let ghost s = self.free@[c as int];
        let mut allocator = self.allocators[c];
        allocator.set_current_free_list(&mut self.memory, ptr);
        self.allocators.set(c, allocator);
        proof {
            let t = seq![ptr] + s;
            self.free@ = self.free@.update(c as int, t);
            assert(threads(pre.memory@, pre.allocators@[c as int].free_list, s));
            assert(pre.layout@[c as int].contains(ptr));
            assert forall|d: int| 0 <= d < BLOCK_COUNT implies threads(self.memory@, #[trigger] self.allocators@[d].free_list, self.free@[d]) by {
                if d == c {
                    assert(t[0] == ptr);
                    assert forall|j: int| 0 <= j < t.len() implies word(self.memory@, #[trigger] t[j]) == (if j + 1 < t.len() { t[j + 1] } else { 0usize }) by {
                        if j > 0 {
                            assert(t[j] == s[j - 1]);
                            assert(s.contains(s[j - 1]));
                        }
                    }
                    assert forall|j: int| 0 <= j < t.len() implies #[trigger] t[j] != 0 by {
                        if j > 0 {
                            assert(t[j] == s[j - 1]);
                        }
                    }
                    assert(t.no_duplicates()) by {
                        assert forall|i: int, j: int| 0 <= i < t.len() && 0 <= j < t.len() && i != j implies t[i] != t[j] by {
                            if i > 0 && j > 0 {
                                assert(t[i] == s[i - 1]);
                                assert(t[j] == s[j - 1]);
                            } else if i == 0 {
                                assert(s.contains(t[j]));
                            } else {
                                assert(s.contains(t[i]));
                            }
                        }
                    }
                } else {
                    let u = pre.free@[d];
                    assert(threads(pre.memory@, pre.allocators@[d].free_list, u));
                    assert forall|j: int| 0 <= j < u.len() implies word(self.memory@, #[trigger] u[j]) == word(pre.memory@, u[j]) by {
                        assert(u.contains(u[j]));
                        assert(pre.layout@[d].contains(u[j]));
                    }
                }
            }
            assert forall|d: int, a: usize| 0 <= d < BLOCK_COUNT && #[trigger] self.free@[d].contains(a) implies self.layout@[d].contains(a) by {
                if d == c {
                    let j = choose|j: int| 0 <= j < self.free@[d].len() && self.free@[d][j] == a;
                    if j > 0 {
                        assert(s[j - 1] == a);
                        assert(pre.free@[d].contains(a));
                    }
                } else {
                    assert(pre.free@[d].contains(a));
                }
            }
            assert(self.sizes() =~= pre.sizes());
        }
    }

    /// Splits `[start_addr, start_addr + capacity)` into `BLOCK_COUNT` equal regions,
    /// the `c`-th serving blocks of the `c`-th size, and threads each region's
    /// blocks into its class's free list, lowest address first.
    pub fn init(&mut self, start_addr: usize, capacity: usize)
        requires
            old(self).wf(),
            old(self).is_unset(),
            start_addr > 0,
            start_addr % 8 == 0,
            start_addr + capacity <= usize::MAX,
            capacity % BLOCK_COUNT == 0,
            capacity / BLOCK_COUNT >= 2048,
            (capacity / BLOCK_COUNT) % 8 == 0,
        ensures
            final(self).wf(),
            final(self).sizes() == spec_block_sizes(),
            final(self).free_lists() == final(self).class_blocks(),
            final(self).laid_out(start_addr as int, capacity as int),
    {
        let allocator_capacity = capacity / BLOCK_COUNT;
        let ghost cap = allocator_capacity as int;
        let ghost start = start_addr as int;
        assert(8 * allocator_capacity == capacity);
        let mut i: usize = 0;
        while i < BLOCK_COUNT
            invariant
                i <= BLOCK_COUNT,
                cap == allocator_capacity,
                start == start_addr,
                8 * allocator_capacity == capacity,
                allocator_capacity >= 2048,
                start_addr > 0,
                start_addr + capacity <= usize::MAX,
                self.allocators@.len() == BLOCK_COUNT,
                self.free@.len() == BLOCK_COUNT,
                self.layout@.len() == BLOCK_COUNT,
                !self.mutex.is_locked(),
                forall|c: int| 0 <= c < i ==> #[trigger] class_built(self.memory@, self.allocators@[c], self.free@[c], start, cap, c),
                forall|c: int| 0 <= c < i ==> #[trigger] self.free@[c] == self.layout@[c],
                forall|c: int| i <= c < BLOCK_COUNT ==> #[trigger] self.allocators@[c] == (Allocator { free_list: 0, block_size: 0 }),
                forall|c: int| i <= c < BLOCK_COUNT ==> #[trigger] self.free@[c] == Seq::<usize>::empty(),
                forall|c: int| i <= c < BLOCK_COUNT ==> #[trigger] self.layout@[c] == Seq::<usize>::empty(),
                forall|a: usize| a >= region_base(start, cap, i as int) ==> !(#[trigger] self.memory@.contains_key(a)),
            decreases BLOCK_COUNT - i,
        {
            proof {
                lemma_region_base_bounds(start, cap, i as int);
            }
            let offset_addr = start_addr + i * allocator_capacity;
            let size = block_size_of_class(i);
            let ghost old_memory = self.memory@;
            let (allocator, Ghost(blocks)) = Allocator::new(&mut self.memory, offset_addr, size, allocator_capacity);
            self.allocators.set(i, allocator);
            proof {
                let ghost old_free = self.free@;
                self.free@ = self.free@.update(i as int, blocks);
                self.layout@ = self.layout@.update(i as int, blocks);
                assert forall|c: int| 0 <= c < i + 1 implies #[trigger] class_built(self.memory@, self.allocators@[c], self.free@[c], start, cap, c) by {
                    if c < i {
                        lemma_region_base_order(start, cap, c, i as int);
                        lemma_class_built_frame(old_memory, self.memory@, self.allocators@[c], self.free@[c], start, cap, c, offset_addr as int);
                    }
                }
            }
            i = i + 1;
        }
        proof {
            assert forall|c: int| 0 <= c < BLOCK_COUNT implies #[trigger] self.sizes()[c] == spec_block_sizes()[c] by {
                assert(class_built(self.memory@, self.allocators@[c], self.free@[c], start, cap, c));
            }
            assert(self.sizes() =~= spec_block_sizes());
            assert forall|c1: int, c2: int, a: usize|
                0 <= c1 < BLOCK_COUNT && 0 <= c2 < BLOCK_COUNT && c1 != c2 && #[trigger] self.layout@[c1].contains(a)
                    implies !(#[trigger] self.layout@[c2].contains(a)) by {
                assert(class_built(self.memory@, self.allocators@[c1], self.free@[c1], start, cap, c1));
                assert(class_built(self.memory@, self.allocators@[c2], self.free@[c2], start, cap, c2));
                if c1 < c2 {
                    lemma_region_base_order(start, cap, c1, c2);
                } else {
                    lemma_region_base_order(start, cap, c2, c1);
                }
            }
            assert forall|c: int| 0 <= c < BLOCK_COUNT implies threads(self.memory@, #[trigger] self.allocators@[c].free_list, self.free@[c]) by {
                assert(class_built(self.memory@, self.allocators@[c], self.free@[c], start, cap, c));
            }
            assert forall|c: int, a: usize| 0 <= c < BLOCK_COUNT && #[trigger] self.layout@[c].contains(a) implies a != 0 by {
                assert(class_built(self.memory@, self.allocators@[c], self.free@[c], start, cap, c));
            }
            assert forall|c: int| 0 <= c < BLOCK_COUNT implies is_class_layout(#[trigger] self.layout@[c], region_base(start, cap, c), spec_block_sizes()[c] as int, cap) by {
                assert(class_built(self.memory@, self.allocators@[c], self.free@[c], start, cap, c));
            }
            assert(self.free@ =~= self.layout@);
        }
    }
}

/// Start of the region of class `c` when regions of `cap` bytes follow each other from `start`.
#[verifier::opaque]
pub open spec fn region_base(start: int, cap: int, c: int) -> int {
    start + c * cap
}

proof fn lemma_region_base_bounds(start: int, cap: int, i: int)
    requires
        0 <= i < 8,
        cap >= 0,
    ensures
        region_base(start, cap, i) == start + i * cap,
        region_base(start, cap, i + 1) == region_base(start, cap, i) + cap,
        i * cap + cap <= 8 * cap,
{
    reveal(region_base);
    assert(start + (i + 1) * cap == start + i * cap + cap) by (nonlinear_arith);
    assert(i * cap + cap <= 8 * cap) by (nonlinear_arith)
        requires
            0 <= i < 8,
            cap >= 0,
    ;
}

proof fn lemma_region_base_order(start: int, cap: int, c1: int, c2: int)
    requires
        0 <= c1 < c2,
        cap >= 0,
    ensures
        region_base(start, cap, c1) + cap <= region_base(start, cap, c2),
        start <= region_base(start, cap, c1),
{
    reveal(region_base);
    assert(c1 * cap + cap <= c2 * cap) by (nonlinear_arith)
        requires
            c1 < c2,
            cap >= 0,
    ;
    assert(0 <= c1 * cap) by (nonlinear_arith)
        requires
            0 <= c1,
            cap >= 0,
    ;
}

/// Class `c` is set up: its block size, its free list threading its whole
/// layout, and every block inside its region.
spec fn class_built(memory: Map<usize, usize>, a: Allocator, blocks: Seq<usize>, start: int, cap: int, c: int) -> bool {
    &&& a.block_size == spec_block_sizes()[c]
    &&& threads(memory, a.free_list, blocks)
    &&& is_class_layout(blocks, region_base(start, cap, c), a.block_size as int, cap)
    &&& forall|j: int| 0 <= j < blocks.len() ==> region_base(start, cap, c) <= #[trigger] blocks[j] < region_base(start, cap, c) + cap
    &&& forall|j: int| 0 <= j < blocks.len() ==> #[trigger] blocks[j] != 0
}

proof fn lemma_class_built_frame(
    m1: Map<usize, usize>,
    m2: Map<usize, usize>,
    a: Allocator,
    blocks: Seq<usize>,
    start: int,
    cap: int,
    c: int,
    bound: int,
)
    requires
        class_built(m1, a, blocks, start, cap, c),
        region_base(start, cap, c) + cap <= bound,
        forall|x: usize| x < bound ==> #[trigger] word(m2, x) == word(m1, x),
    ensures
        class_built(m2, a, blocks, start, cap, c),
{
    assert forall|j: int| 0 <= j < blocks.len() implies word(m2, #[trigger] blocks[j]) == word(m1, blocks[j]) by {}
}

/// Handle on the kernel heap for allocation requests that may fail.
#[derive(Copy, Clone, Default)]
pub struct KAllocator;

/// A request that the heap could not serve.
#[derive(Copy, Clone, Debug)]
pub struct AllocError;

impl KAllocator {
    /// Asks `heap` for `size` bytes: the block's address and the length asked
    /// for, or `AllocError` when the heap hands out null.
    pub fn allocate(&self, heap: &mut SlabAllocator, size: usize) -> (r: Result<(usize, usize), AllocError>)
        requires
            old(heap).wf(),
        ensures
            exists|p: usize| SlabAllocator::alloc_step(*old(heap), *final(heap), size, p) && match r {
                Ok((q, len)) => p != 0 && q == p && len == size,
                Err(_) => p == 0,
            },
    {
        let ptr = heap.allocate(size);
        if ptr != 0 {
            Ok((ptr, size))
        } else {
            Err(AllocError)
        }
    }

    /// Gives back `ptr`, which `allocate` handed out for `size` bytes.
    pub fn deallocate(&self, heap: &mut SlabAllocator, ptr: usize, size: usize)
        requires
            old(heap).wf(),
            old(heap).dealloc_allowed(ptr, size),
        ensures
            SlabAllocator::dealloc_step(*old(heap), *final(heap), ptr, size),
    {
        heap.deallocate(ptr, size)
    }
}

/// The blocks of a class layout sit at `base + k * size`, and there are as many
/// as the multiples of `size` below `capacity`.
pub proof fn lemma_class_layout_offsets(blocks: Seq<usize>, base: int, size: int, capacity: int)
    requires
        size > 0,
        is_class_layout(blocks, base, size, capacity),
    ensures
        forall|k: int| 0 <= k < blocks.len() ==> #[trigger] blocks[k] == base + k * size,
        (blocks.len() - 1) * size < capacity <= blocks.len() * size,
{
    assert forall|k: int| 0 <= k < blocks.len() implies #[trigger] blocks[k] == base + k * size by {
        lemma_layout_offset(blocks, base, size, k);
    }
    let n = blocks.len() as int;
    assert(blocks[n - 1] == base + (n - 1) * size);
    assert(n * size == (n - 1) * size + size) by (nonlinear_arith);
}

proof fn lemma_layout_offset(blocks: Seq<usize>, base: int, size: int, k: int)
    requires
        blocks.len() > 0,
        blocks[0] == base,
        forall|j: int| 0 < j < blocks.len() ==> #[trigger] blocks[j] == blocks[j - 1] + size,
        0 <= k < blocks.len(),
    ensures
        blocks[k] == base + k * size,
    decreases k,
{
    if k > 0 {
        let j = k - 1;
        lemma_layout_offset(blocks, base, size, j);
        assert(blocks[k] == blocks[j] + size);
        assert(base + j * size + size == base + (j + 1) * size) by (nonlinear_arith);
    } else {
        assert(0 * size == 0);
    }
}

/// With the standard block sizes a request goes to the smallest class whose
/// blocks hold it, and a request over 2048 bytes to none.
pub proof fn lemma_standard_classes(size: usize)
    ensures
        match first_fit(spec_block_sizes(), size) {
            Some(c) => 0 <= c < BLOCK_COUNT && size <= spec_block_sizes()[c] && (c == 0 || spec_block_sizes()[c - 1] < size),
            None => size > 2048,
        },
{
    lemma_first_fit_from(spec_block_sizes(), size, 0);
    assert(spec_block_sizes().len() == 8);
    assert(spec_block_sizes()[7] == 2048);
}

/// A block that a request gets is a block of its class, large enough for the
/// request, that no free list holds any more, so it may be given back.
pub proof fn lemma_allocated_block_is_owned(s0: SlabAllocator, s1: SlabAllocator, size: usize, r: usize)
    requires
        s0.wf(),
        SlabAllocator::alloc_step(s0, s1, size, r),
        r != 0,
    ensures
        s1.class_blocks()[s0.serving_class(size)->0].contains(r),
        size <= s1.sizes()[s0.serving_class(size)->0],
        forall|d: int| 0 <= d < BLOCK_COUNT ==> !(#[trigger] s1.free_lists()[d].contains(r)),
{
    let c = s0.serving_class(size)->0;
    lemma_first_fit_from(s0.sizes(), size, 0);
    let s = s0.free@[c];
    assert(threads(s0.memory@, s0.allocators@[c].free_list, s));
    assert(s.contains(s[0]));
    assert(s0.layout@[c].contains(r));
    assert(s0.sizes()[c] == s0.allocators@[c].block_size);
    assert forall|d: int| 0 <= d < BLOCK_COUNT implies !(#[trigger] s1.free_lists()[d].contains(r)) by {
        if d == c {
            if s1.free@[d].contains(r) {
                let j = choose|j: int| 0 <= j < s1.free@[d].len() && s1.free@[d][j] == r;
                assert(s1.free@[d][j] == s[j + 1]);
                assert(s[j + 1] != s[0]);
            }
        } else {
            if s1.free@[d].contains(r) {
                assert(s0.free@[d].contains(r));
                assert(s0.layout@[d].contains(r));
            }
        }
    }
}

/// Two requests in a row never get the same block.
pub proof fn lemma_allocations_are_distinct(
    s0: SlabAllocator,
    s1: SlabAllocator,
    s2: SlabAllocator,
    size1: usize,
    size2: usize,
    r1: usize,
    r2: usize,
)
    requires
        s0.wf(),
        SlabAllocator::alloc_step(s0, s1, size1, r1),
        SlabAllocator::alloc_step(s1, s2, size2, r2),
        r1 != 0,
        r2 != 0,
    ensures
        r1 != r2,
{
    lemma_allocated_block_is_owned(s0, s1, size1, r1);
    let c2 = s1.serving_class(size2)->0;
    lemma_first_fit_from(s1.sizes(), size2, 0);
    assert(s1.free@[c2].contains(s1.free@[c2][0]));
}

/// Giving back the block that a request just got restores the heap: the same
/// free lists and the same value in every word. This needs a second free block
/// in the class, since giving back a block while the class has none panics.
pub proof fn lemma_deallocate_undoes_allocate(
    s0: SlabAllocator,
    s1: SlabAllocator,
    s2: SlabAllocator,
    size: usize,
    r: usize,
)
    requires
        s0.wf(),
        SlabAllocator::alloc_step(s0, s1, size, r),
        r != 0,
        s0.free_lists()[s0.serving_class(size)->0].len() >= 2,
        SlabAllocator::dealloc_step(s1, s2, r, size),
    ensures
        s2.free_lists() == s0.free_lists(),
        forall|a: usize| word(s2.memory(), a) == word(s0.memory(), a),
{
    let c = s0.serving_class(size)->0;
    lemma_first_fit_from(s0.sizes(), size, 0);
    let s = s0.free@[c];
    assert(threads(s0.memory@, s0.allocators@[c].free_list, s));
    assert(word(s0.memory@, s[0]) == s[1]);
    assert(s1.serving_class(size) == Some(c));
    assert(seq![r] + s.drop_first() =~= s);
    assert(s2.free_lists() =~= s0.free_lists());
}

/// After a request of `size` bytes got a block, giving it back is allowed as
/// long as the class still has a free block.
pub proof fn lemma_allocated_block_may_be_freed(s0: SlabAllocator, s1: SlabAllocator, size: usize, r: usize)
    requires
        s0.wf(),
        SlabAllocator::alloc_step(s0, s1, size, r),
        r != 0,
        s0.free_lists()[s0.serving_class(size)->0].len() >= 2,
    ensures
        s1.dealloc_allowed(r, size),
{
    lemma_allocated_block_is_owned(s0, s1, size, r);
    let c = s0.serving_class(size)->0;
    lemma_first_fit_from(s0.sizes(), size, 0);
    assert(s1.serving_class(size) == Some(c));
}

/// A block given back is the next one handed out for a request of the same
/// size, and the heap is then as before, except that the block's first word is zero.
pub proof fn lemma_freed_block_is_reused(
    s0: SlabAllocator,
    s1: SlabAllocator,
    s2: SlabAllocator,
    ptr: usize,
    size: usize,
    r: usize,
)
    requires
        s0.wf(),
        s0.dealloc_allowed(ptr, size),
        SlabAllocator::dealloc_step(s0, s1, ptr, size),
        SlabAllocator::alloc_step(s1, s2, size, r),
    ensures
        r == ptr,
        s2.free_lists() == s0.free_lists(),
        forall|a: usize| a != ptr ==> word(s2.memory(), a) == word(s0.memory(), a),
        word(s2.memory(), ptr) == 0,
{
    let c = s0.serving_class(size)->0;
    lemma_first_fit_from(s0.sizes(), size, 0);
    assert(s1.serving_class(size) == Some(c));
    let s = s0.free@[c];
    assert((seq![ptr] + s).drop_first() =~= s);
    assert(s2.free_lists() =~= s0.free_lists());
}

/// An allocation takes one block off the serving class and leaves every other
/// class as it was; with no serving class nothing changes.
pub proof fn lemma_allocation_drains_class(s0: SlabAllocator, s1: SlabAllocator, size: usize, r: usize)
    requires
        s0.wf(),
        SlabAllocator::alloc_step(s0, s1, size, r),
    ensures
        match s0.serving_class(size) {
            Some(c) => {
                &&& s1.free_lists()[c].len() == s0.free_lists()[c].len() - 1
                &&& forall|d: int| 0 <= d < BLOCK_COUNT && d != c ==> #[trigger] s1.free_lists()[d] == s0.free_lists()[d]
            },
            None => s1.free_lists() == s0.free_lists(),
        },
{
    lemma_first_fit_from(s0.sizes(), size, 0);
}

/// Once the class a size fits first has no free block, a request of that size
/// gets null and changes nothing, whatever larger classes still hold: there is
/// no fall-back to a larger class.
pub proof fn lemma_exhausted_class_gives_null(s0: SlabAllocator, s1: SlabAllocator, size: usize, r: usize)
    requires
        s0.wf(),
        first_fit(s0.sizes(), size) is Some,
        s0.free_lists()[first_fit(s0.sizes(), size)->0].len() == 0,
        SlabAllocator::alloc_step(s0, s1, size, r),
    ensures
        r == 0,
        s1.free_lists() == s0.free_lists(),
        s1.memory() == s0.memory(),
{
}

/// With the standard block sizes no request over 2048 bytes is ever served.
pub proof fn lemma_oversize_never_served(s: SlabAllocator, size: usize)
    requires
        s.sizes() == spec_block_sizes(),
        size > 2048,
    ensures
        s.serving_class(size) is None,
{
    lemma_standard_classes(size);
}

/// Allocation and release keep the layout that `init` made.
pub proof fn lemma_steps_keep_layout(
    s0: SlabAllocator,
    s1: SlabAllocator,
    s2: SlabAllocator,
    start: int,
    capacity: int,
    size: usize,
    r: usize,
    ptr: usize,
    size2: usize,
)
    requires
        s0.laid_out(start, capacity),
        SlabAllocator::alloc_step(s0, s1, size, r),
        SlabAllocator::dealloc_step(s1, s2, ptr, size2),
    ensures
        s1.laid_out(start, capacity),
        s2.laid_out(start, capacity),
{
}

proof fn lemma_block_in_region(blocks: Seq<usize>, base: int, size: int, cap: int, j: int)
    requires
        size > 0,
        cap % size == 0,
        is_class_layout(blocks, base, size, cap),
        0 <= j < blocks.len(),
    ensures
        blocks[j] == base + j * size,
        base <= blocks[j],
        blocks[j] + size <= base + cap,
{
    lemma_class_layout_offsets(blocks, base, size, cap);
    let n = blocks.len() as int;
    let q = cap / size;
    assert(cap == q * size) by (nonlinear_arith)
        requires
            size > 0,
            cap % size == 0,
            q == cap / size,
    ;
    assert(j * size + size <= cap) by (nonlinear_arith)
        requires
            size > 0,
            cap == q * size,
            (n - 1) * size < cap,
            0 <= j < n,
    ;
    assert(0 <= j * size) by (nonlinear_arith)
        requires
            size > 0,
            0 <= j,
    ;
}

proof fn lemma_page_multiple(cap: int, size: int, m: int)
    requires
        cap % 2048 == 0,
        size > 0,
        m > 0,
        size * m == 2048,
    ensures
        cap % size == 0,
{
    let k = cap / 2048;
    assert(cap == 2048 * k);
    assert(cap == size * (m * k)) by (nonlinear_arith)
        requires
            cap == 2048 * k,
            size * m == 2048,
    ;
    assert(cap % size == 0) by (nonlinear_arith)
        requires
            cap == size * (m * k),
            size > 0,
    ;
}

proof fn lemma_standard_size_divides(cap: int, c: int)
    requires
        0 <= c < BLOCK_COUNT,
        cap % 2048 == 0,
    ensures
        spec_block_sizes()[c] > 0,
        cap % (spec_block_sizes()[c] as int) == 0,
{
    let sizes = spec_block_sizes();
    assert(sizes[0] == 16 && sizes[1] == 32 && sizes[2] == 64 && sizes[3] == 128);
    assert(sizes[4] == 256 && sizes[5] == 512 && sizes[6] == 1024 && sizes[7] == 2048);
    if c == 0 {
        lemma_page_multiple(cap, 16, 128);
    } else if c == 1 {
        lemma_page_multiple(cap, 32, 64);
    } else if c == 2 {
        lemma_page_multiple(cap, 64, 32);
    } else if c == 3 {
        lemma_page_multiple(cap, 128, 16);
    } else if c == 4 {
        lemma_page_multiple(cap, 256, 8);
    } else if c == 5 {
        lemma_page_multiple(cap, 512, 4);
    } else if c == 6 {
        lemma_page_multiple(cap, 1024, 2);
    } else {
        lemma_page_multiple(cap, 2048, 1);
    }
}

/// When each region is a whole number of 2048-byte pages, every block lies
/// inside `[start, start + capacity)` and no two blocks overlap. Since every
/// call keeps the layout, this holds of all blocks handed out and not yet given
/// back, whatever calls came in between.
pub proof fn lemma_blocks_disjoint_and_inside(
    s: SlabAllocator,
    start: int,
    capacity: int,
    c1: int,
    j1: int,
    c2: int,
    j2: int,
)
    requires
        s.wf(),
        s.laid_out(start, capacity),
        capacity > 0,
        capacity % BLOCK_COUNT as int == 0,
        (capacity / BLOCK_COUNT as int) % 2048 == 0,
        0 <= c1 < BLOCK_COUNT,
        0 <= c2 < BLOCK_COUNT,
        0 <= j1 < s.class_blocks()[c1].len(),
        0 <= j2 < s.class_blocks()[c2].len(),
        c1 != c2 || j1 != j2,
    ensures
        start <= s.class_blocks()[c1][j1],
        s.class_blocks()[c1][j1] + s.sizes()[c1] <= start + capacity,
        s.class_blocks()[c1][j1] + s.sizes()[c1] <= s.class_blocks()[c2][j2]
            || s.class_blocks()[c2][j2] + s.sizes()[c2] <= s.class_blocks()[c1][j1],
{
    let cap = capacity / BLOCK_COUNT as int;
    assert(capacity == 8 * cap);
    let b1 = s.class_blocks()[c1];
    let b2 = s.class_blocks()[c2];
    let z1 = spec_block_sizes()[c1] as int;
    let z2 = spec_block_sizes()[c2] as int;
    lemma_standard_size_divides(cap, c1);
    lemma_standard_size_divides(cap, c2);
    assert(is_class_layout(b1, region_base(start, cap, c1), z1, cap));
    assert(is_class_layout(b2, region_base(start, cap, c2), z2, cap));
    lemma_block_in_region(b1, region_base(start, cap, c1), z1, cap, j1);
    lemma_block_in_region(b2, region_base(start, cap, c2), z2, cap, j2);
    lemma_region_base_bounds(start, cap, c1);
    assert(0 <= c1 * cap) by (nonlinear_arith)
        requires
            0 <= c1,
            cap >= 0,
    ;
    if c1 < c2 {
        lemma_region_base_order(start, cap, c1, c2);
    } else if c2 < c1 {
        lemma_region_base_order(start, cap, c2, c1);
    } else {
        if j1 < j2 {
            assert(j1 * z1 + z1 <= j2 * z1) by (nonlinear_arith)
                requires
                    j1 < j2,
                    z1 > 0,
            ;
        } else {
            assert(j2 * z1 + z1 <= j1 * z1) by (nonlinear_arith)
                requires
                    j2 < j1,
                    z1 > 0,
            ;
        }
    }
}

/// What a well-formed heap holds: each class's head and the first words of its
/// free blocks chain them in order, the last one holding null; free blocks are
/// blocks of their class; no block is null; no two classes share a block.
pub proof fn lemma_wf_facts(s: SlabAllocator)
    requires
        s.wf(),
    ensures
        s.heads().len() == BLOCK_COUNT,
        forall|c: int| 0 <= c < BLOCK_COUNT ==> threads(s.memory(), #[trigger] s.heads()[c], s.free_lists()[c]),
        forall|c: int, a: usize| 0 <= c < BLOCK_COUNT && #[trigger] s.free_lists()[c].contains(a) ==> s.class_blocks()[c].contains(a),
        forall|c: int, a: usize| 0 <= c < BLOCK_COUNT && #[trigger] s.class_blocks()[c].contains(a) ==> a != 0,
        forall|c1: int, c2: int, a: usize|
            0 <= c1 < BLOCK_COUNT && 0 <= c2 < BLOCK_COUNT && c1 != c2 && #[trigger] s.class_blocks()[c1].contains(a)
                ==> !(#[trigger] s.class_blocks()[c2].contains(a)),
{
    assert forall|c: int| 0 <= c < BLOCK_COUNT implies threads(s.memory(), #[trigger] s.heads()[c], s.free_lists()[c]) by {
        assert(threads(s.memory@, s.allocators@[c].free_list, s.free@[c]));
    }
}

/// A block that a request gets is handed out afterwards.
pub proof fn lemma_allocated_block_is_live(s0: SlabAllocator, s1: SlabAllocator, size: usize, r: usize)
    requires
        s0.wf(),
        SlabAllocator::alloc_step(s0, s1, size, r),
        r != 0,
    ensures
        s1.is_live(r),
{
    lemma_allocated_block_is_owned(s0, s1, size, r);
    let c = s0.serving_class(size)->0;
    lemma_first_fit_from(s0.sizes(), size, 0);
    assert(s1.class_blocks()[c].contains(r));
}

/// An allocation never hands out a block that is already handed out, and that
/// block stays handed out.
pub proof fn lemma_alloc_keeps_live(s0: SlabAllocator, s1: SlabAllocator, size: usize, r: usize, p: usize)
    requires
        s0.wf(),
        SlabAllocator::alloc_step(s0, s1, size, r),
        s0.is_live(p),
    ensures
        s1.is_live(p),
        r != p,
{
    let c0 = choose|c: int| 0 <= c < BLOCK_COUNT && #[trigger] s0.class_blocks()[c].contains(p);
    assert(s1.class_blocks()[c0].contains(p));
    lemma_first_fit_from(s0.sizes(), size, 0);
    if s0.serving_class(size) is Some {
        let c = s0.serving_class(size)->0;
        let f = s0.free_lists()[c];
        assert(f.contains(f[0]));
        assert forall|d: int| 0 <= d < BLOCK_COUNT implies !(#[trigger] s1.free_lists()[d].contains(p)) by {
            if d == c && s1.free_lists()[d].contains(p) {
                let j = choose|j: int| 0 <= j < s1.free_lists()[d].len() && s1.free_lists()[d][j] == p;
                assert(f[j + 1] == p);
                assert(f.contains(p));
            }
        }
    }
}

/// Giving back one block leaves every other handed-out block handed out.
pub proof fn lemma_dealloc_keeps_live(s0: SlabAllocator, s1: SlabAllocator, ptr: usize, size: usize, p: usize)
    requires
        s0.wf(),
        s0.dealloc_allowed(ptr, size),
        SlabAllocator::dealloc_step(s0, s1, ptr, size),
        s0.is_live(p),
        p != ptr,
    ensures
        s1.is_live(p),
{
    lemma_first_fit_from(s0.sizes(), size, 0);
    let c0 = choose|c: int| 0 <= c < BLOCK_COUNT && #[trigger] s0.class_blocks()[c].contains(p);
    assert(s1.class_blocks()[c0].contains(p));
    let c = s0.serving_class(size)->0;
    let f = s0.free_lists()[c];
    assert forall|d: int| 0 <= d < BLOCK_COUNT implies !(#[trigger] s1.free_lists()[d].contains(p)) by {
        if d == c && s1.free_lists()[d].contains(p) {
            let j = choose|j: int| 0 <= j < s1.free_lists()[d].len() && s1.free_lists()[d][j] == p;
            assert(j > 0);
            assert(f[j - 1] == p);
            assert(f.contains(p));
        }
    }
}

/// One call on the heap, with what it returned.
pub enum HeapCall {
    Allocate { size: usize, result: usize },
    Deallocate { ptr: usize, size: usize },
}

/// `post` is the heap after `call` on `pre`, the call being allowed.
pub open spec fn call_step(pre: SlabAllocator, post: SlabAllocator, call: HeapCall) -> bool {
    match call {
        HeapCall::Allocate { size, result } => SlabAllocator::alloc_step(pre, post, size, result),
        HeapCall::Deallocate { ptr, size } => pre.dealloc_allowed(ptr, size) && SlabAllocator::dealloc_step(pre, post, ptr, size),
    }
}

/// A run of calls: `states[i + 1]` is the heap after `calls[i]` on `states[i]`.
pub open spec fn is_run(states: Seq<SlabAllocator>, calls: Seq<HeapCall>) -> bool {
    &&& states.len() == calls.len() + 1
    &&& forall|i: int| 0 <= i < calls.len() ==> call_step(states[i], #[trigger] states[i + 1], calls[i])
}

/// A handed-out block stays handed out until it is given back, whatever calls
/// come in between, and no allocation in between returns it. Since distinct
/// blocks never overlap (`lemma_blocks_disjoint_and_inside`), it stays apart
/// from every other block handed out meanwhile.
pub proof fn lemma_live_block_stays_live(states: Seq<SlabAllocator>, calls: Seq<HeapCall>, p: usize)
    requires
        is_run(states, calls),
        states[0].wf(),
        states[0].is_live(p),
        forall|i: int| 0 <= i < calls.len() ==> !(#[trigger] calls[i] matches HeapCall::Deallocate { ptr, .. } && ptr == p),
    ensures
        forall|i: int| 0 <= i < states.len() ==> (#[trigger] states[i]).wf() && states[i].is_live(p),
        forall|i: int| 0 <= i < calls.len() ==> (#[trigger] calls[i] matches HeapCall::Allocate { result, .. } ==> result != p),
    decreases calls.len(),
{
    if calls.len() > 0 {
        let n = calls.len() - 1;
        let st = states.take(n + 1);
        let cs = calls.take(n);
        assert forall|i: int| 0 <= i < cs.len() implies call_step(st[i], #[trigger] st[i + 1], cs[i]) by {
            assert(call_step(states[i], states[i + 1], calls[i]));
        }
        assert forall|i: int| 0 <= i < cs.len() implies !(#[trigger] cs[i] matches HeapCall::Deallocate { ptr, .. } && ptr == p) by {
            assert(!(calls[i] matches HeapCall::Deallocate { ptr, .. } && ptr == p));
        }
        lemma_live_block_stays_live(st, cs, p);
        assert(st[n] == states[n]);
        assert(states[n].wf() && states[n].is_live(p));
        assert(call_step(states[n], states[n + 1], calls[n]));
        match calls[n] {
            HeapCall::Allocate { size, result } => {
                lemma_alloc_keeps_live(states[n], states[n + 1], size, result, p);
            },
            HeapCall::Deallocate { ptr, size } => {
                lemma_dealloc_keeps_live(states[n], states[n + 1], ptr, size, p);
            },
        }
        assert forall|i: int| 0 <= i < states.len() implies (#[trigger] states[i]).wf() && states[i].is_live(p) by {
            if i < n + 1 {
                assert(st[i] == states[i]);
            }
        }
        assert forall|i: int| 0 <= i < calls.len() implies (#[trigger] calls[i] matches HeapCall::Allocate { result, .. } ==> result != p) by {
            if i < n {
                assert(cs[i] == calls[i]);
            }
        }
    }
}

/// Requests of one size in a row get the serving class's free blocks in list
/// order, then null once the class is empty, with no fall-back to a larger
/// class; the other classes are untouched.
pub proof fn lemma_repeated_allocation(states: Seq<SlabAllocator>, size: usize, results: Seq<usize>)
    requires
        states.len() == results.len() + 1,
        states[0].wf(),
        first_fit(states[0].sizes(), size) is Some,
        forall|i: int| 0 <= i < results.len() ==> SlabAllocator::alloc_step(states[i], #[trigger] states[i + 1], size, results[i]),
    ensures
        ({
            let c = first_fit(states[0].sizes(), size)->0;
            let f = states[0].free_lists()[c];
            &&& forall|i: int| 0 <= i < results.len() ==> #[trigger] results[i] == (if i < f.len() { f[i] } else { 0usize })
            &&& forall|i: int| 0 <= i < states.len() ==> (#[trigger] states[i]).wf()
                && states[i].sizes() == states[0].sizes()
                && states[i].free_lists()[c] == f.skip(if i < f.len() { i } else { f.len() as int })
                && forall|d: int| 0 <= d < BLOCK_COUNT && d != c ==> #[trigger] states[i].free_lists()[d] == states[0].free_lists()[d]
        }),
    decreases results.len(),
{
    let c = first_fit(states[0].sizes(), size)->0;
    let f = states[0].free_lists()[c];
    lemma_first_fit_from(states[0].sizes(), size, 0);
    if results.len() > 0 {
        let n = results.len() - 1;
        let st = states.take(n + 1);
        let rs = results.take(n);
        assert forall|i: int| 0 <= i < rs.len() implies SlabAllocator::alloc_step(st[i], #[trigger] st[i + 1], size, rs[i]) by {
            assert(SlabAllocator::alloc_step(states[i], states[i + 1], size, results[i]));
        }
        lemma_repeated_allocation(st, size, rs);
        assert(st[n] == states[n]);
        assert(st[0] == states[0]);
        let s = states[n];
        assert(SlabAllocator::alloc_step(s, states[n + 1], size, results[n]));
        assert(s.sizes() == states[0].sizes());
        let k = if n < f.len() { n } else { f.len() as int };
        assert(s.free_lists()[c] == f.skip(k));
        if n < f.len() {
            assert(s.serving_class(size) == Some(c));
            assert(f.skip(k)[0] == f[n]);
            assert(f.skip(k).drop_first() =~= f.skip(if n + 1 < f.len() { n + 1 } else { f.len() as int }));
        } else {
            assert(f.skip(k).len() == 0);
            assert(s.serving_class(size) is None);
        }
        assert forall|i: int| 0 <= i < results.len() implies #[trigger] results[i] == (if i < f.len() { f[i] } else { 0usize }) by {
            if i < n {
                assert(rs[i] == results[i]);
            }
        }
        assert forall|i: int| 0 <= i < states.len() implies (#[trigger] states[i]).wf()
            && states[i].sizes() == states[0].sizes()
            && states[i].free_lists()[c] == f.skip(if i < f.len() { i } else { f.len() as int })
            && forall|d: int| 0 <= d < BLOCK_COUNT && d != c ==> #[trigger] states[i].free_lists()[d] == states[0].free_lists()[d] by {
            if i < n + 1 {
                assert(st[i] == states[i]);
            }
        }
    } else {
        assert(f.skip(0) =~= f);
    }
}

/// When a region is a whole number of blocks, its class has exactly
/// `capacity / size` blocks.
pub proof fn lemma_class_block_count(blocks: Seq<usize>, base: int, size: int, cap: int)
    requires
        size > 0,
        cap % size == 0,
        is_class_layout(blocks, base, size, cap),
    ensures
        blocks.len() == cap / size,
{
    lemma_class_layout_offsets(blocks, base, size, cap);
    let n = blocks.len() as int;
    let q = cap / size;
    assert(cap == q * size) by (nonlinear_arith)
        requires
            size > 0,
            cap % size == 0,
            q == cap / size,
    ;
    assert(n == q) by (nonlinear_arith)
        requires
            size > 0,
            cap == q * size,
            (n - 1) * size < cap,
            cap <= n * size,
    ;
}

/// On the 2 MiB kernel heap, just after `init`, 16384 requests of 16 bytes
/// all get a block, the next one gets null, and a request of 32 bytes is
/// still served.
/// On the 2 MiB kernel heap, just after `init`, 16384 requests of 16 bytes
/// all get a block, the next one gets null, and a request of 32 bytes is
/// still served.
#[verifier::spinoff_prover]
pub proof fn lemma_sixteen_byte_class_drains(states: Seq<SlabAllocator>, start: int, results: Seq<usize>)
    requires
        states.len() == 16386,
        results.len() == 16385,
        states[0].wf(),
        states[0].laid_out(start, 2097152),
        states[0].free_lists() == states[0].class_blocks(),
        forall|i: int| 0 <= i < results.len() ==> SlabAllocator::alloc_step(states[i], #[trigger] states[i + 1], 16, results[i]),
    ensures
        forall|i: int| 0 <= i < 16384 ==> #[trigger] results[i] != 0,
        results[16384] == 0,
        states[16385].serving_class(32) is Some,
{
    let s0 = states[0];
    let f = s0.free_lists()[0];
    let g = s0.free_lists()[1];
    assert(first_fit(s0.sizes(), 16) == Some(0int)) by {
        lemma_standard_classes(16);
    }
    assert(f.len() == 16384 && g.len() == 8192) by {
        assert(is_class_layout(s0.class_blocks()[0], region_base(start, 262144, 0), 16, 262144));
        lemma_class_block_count(s0.class_blocks()[0], region_base(start, 262144, 0), 16, 262144);
        assert(is_class_layout(s0.class_blocks()[1], region_base(start, 262144, 1), 32, 262144));
        lemma_class_block_count(s0.class_blocks()[1], region_base(start, 262144, 1), 32, 262144);
    }
    assert(forall|a: usize| #[trigger] f.contains(a) ==> a != 0) by {
        lemma_wf_facts(s0);
    }
    lemma_repeated_allocation(states, 16, results);
    assert forall|i: int| 0 <= i < 16384 implies #[trigger] results[i] != 0 by {
        assert(results[i] == f[i]);
        assert(f.contains(f[i]));
    }
    assert(results[16384] == 0);
    let last = states[16385];
    assert(last.free_lists()[1] == g);
    assert(last.sizes() == s0.sizes());
    assert(first_fit(last.sizes(), 32) == Some(1int)) by {
        lemma_standard_classes(32);
    }
}

} // verus!
