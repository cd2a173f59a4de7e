//! The bulk-fill engine: an incremental-doubling fill that sets one
//! element and then repeatedly copies the already-filled prefix over
//! the region that follows it, doubling the filled span each round
//! (with a final partial copy when the remainder is shorter).  This is
//! the single primitive behind `clear`, `background` and the filled
//! interior of `rect`.

use vstd::prelude::*;

verus! {

/// Fill `buf[start..end]` with `ele` by incremental doubling; every
/// element outside the range keeps its value.
pub fn incremental_fill_range<T: Copy>(buf: &mut Vec<T>, start: usize, end: usize, ele: T)
    requires
        start <= end <= old(buf)@.len(),
    ensures
        final(buf)@.len() == old(buf)@.len(),
        forall|i: int|
            0 <= i < final(buf)@.len() ==> final(buf)@[i] == if start <= i < end {
                ele
            } else {
                old(buf)@[i]
            },
{
    if start == end {
        return ;
    }
    let len = end - start;
    buf[start] = ele;
    // `siz` is the length of the prefix of the range known to be filled.
    let mut siz: usize = 1;
    while siz < len
        invariant
            1 <= siz <= len,
            len == end - start,
            start < end <= buf@.len(),
            buf@.len() == old(buf)@.len(),
            forall|i: int| start <= i < start + siz ==> buf@[i] == ele,
            forall|i: int|
                0 <= i < buf@.len() && !(start <= i < start + siz) ==> buf@[i] == old(buf)@[i],
        decreases len - siz,
    {
        // Copy the filled prefix onto the region after it, clamped to
        // what remains of the range.
        let cpy = if len - siz < siz {
            len - siz
        } else {
            siz
        };
        let mut j: usize = 0;
        while j < cpy
            invariant
                1 <= siz <= len,
                len == end - start,
                start < end <= buf@.len(),
                buf@.len() == old(buf)@.len(),
                j <= cpy,
                siz + cpy <= len,
                forall|i: int| start <= i < start + siz + j ==> buf@[i] == ele,
                forall|i: int|
                    0 <= i < buf@.len() && !(start <= i < start + siz + j) ==> buf@[i] == old(
                        buf,
                    )@[i],
            decreases cpy - j,
        {
            let v = buf[start + j];
            buf[start + siz + j] = v;
            j = j + 1;
        }
        siz = siz + cpy;
    }
}

/// Fill the whole of `buf` with `ele` by incremental doubling.
///
/// Mirrors the classic formulation on a non-empty slice: set element 0,
/// copy `[0, 1)` onto `[1, 2)`, then `[0, 2)` onto `[2, 4)`, and so on,
/// clamping the last copy to the remainder.
pub fn incremental_fill<T: Copy>(buf: &mut Vec<T>, ele: T)
    requires
        old(buf)@.len() >= 1,
    ensures
        final(buf)@.len() == old(buf)@.len(),
        forall|i: int| 0 <= i < final(buf)@.len() ==> final(buf)@[i] == ele,
{
    let end = buf.len();
    incremental_fill_range(buf, 0, end, ele);
}

} // verus!
