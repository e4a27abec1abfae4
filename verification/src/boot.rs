use vstd::prelude::*;

verus! {

/// Copies the first `count` bytes of `src` over the first `count` bytes of
/// `dst`, one byte at a time, as boot does to move a ROM section into RAM.
pub fn copy(src: &[u8], dst: &mut [u8], count: usize)
    requires
        count <= src@.len(),
        count <= old(dst)@.len(),
    ensures
        final(dst)@.len() == old(dst)@.len(),
        final(dst)@.take(count as int) == src@.take(count as int),
        final(dst)@.skip(count as int) == old(dst)@.skip(count as int),
{
    let mut i: usize = 0;
    while i < count
        invariant
            i <= count,
            count <= src@.len(),
            count <= old(dst)@.len(),
            dst@.len() == old(dst)@.len(),
            forall|j: int| 0 <= j < i ==> #[trigger] dst@[j] == src@[j],
            forall|j: int| i <= j < dst@.len() ==> #[trigger] dst@[j] == old(dst)@[j],
        decreases count - i,
    {
        dst[i] = src[i];
        i = i + 1;
    }
    assert(dst@.take(count as int) =~= src@.take(count as int));
    assert(dst@.skip(count as int) =~= old(dst)@.skip(count as int));
}

} // verus!
