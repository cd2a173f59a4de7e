//! Storage capabilities for bitmap pixel buffers.
//!
//! A [`PixelBuf`] promises row access into some pixel store; adding
//! [`PixelBufMut`] permits writes.  The flat variants additionally
//! promise that the whole store is one contiguous row-major block,
//! which unlocks whole-buffer operations such as the doubling fill.
//! A contiguous `Vec<Rgba>` implements all four; a row-sparse chunk
//! view (see [`crate::chunk::Chunk`]) implements only the read side.

use vstd::prelude::*;

use crate::color::Rgba;
use crate::fill::{incremental_fill, incremental_fill_range};

verus! {

/// Read access to a pixel store, row by row.
///
/// The store itself does not track its size; callers pass the promised
/// width and height, and `wf_for` says which shapes the store can back.
pub trait PixelBuf {
    /// Whether this store is consistent with a `w x h` bitmap.
    spec fn wf_for(&self, w: int, h: int) -> bool;

    /// The pixels held, flattened in row-major order.
    spec fn pix(&self) -> Seq<Rgba>;

    /// A consistent store holds exactly `w * h` pixels.
    proof fn lemma_wf_len(&self, w: int, h: int)
        requires
            self.wf_for(w, h),
        ensures
            0 <= w,
            0 <= h,
            self.pix().len() == w * h,
    ;

    /// The number of pixels held.
    fn len_px(&self) -> (n: usize)
        requires
            self.pix().len() <= usize::MAX,
        ensures
            n == self.pix().len(),
    ;

    /// The pixel at flat index `i`.
    fn get_px(&self, i: usize) -> (c: Rgba)
        requires
            i < self.pix().len(),
        ensures
            c == self.pix()[i as int],
    ;

    /// Row `y` of a `w x h` bitmap, as one contiguous slice of `w`
    /// pixels.  Distinct rows never alias.
    fn row(&self, y: usize, w: usize, h: usize) -> (r: &[Rgba])
        requires
            self.wf_for(w as int, h as int),
            y < h,
        ensures
            r@ == self.pix().subrange(y as int * w as int, (y as int + 1) * (w as int)),
    ;
}

/// Write access to a pixel store.  All writes leave the store's length
/// and admissible shapes unchanged.
pub trait PixelBufMut: PixelBuf {
    /// Overwrite the pixel at flat index `i`.
    fn set_px(&mut self, i: usize, c: Rgba)
        requires
            i < old(self).pix().len(),
        ensures
            final(self).pix() == old(self).pix().update(i as int, c),
            forall|w: int, h: int|
                #[trigger] final(self).wf_for(w, h) <==> old(self).wf_for(w, h),
    ;

    /// Fill the flat index range `[start, end)` with `c`.
    fn fill_range(&mut self, start: usize, end: usize, c: Rgba)
        requires
            start <= end <= old(self).pix().len(),
        ensures
            final(self).pix().len() == old(self).pix().len(),
            forall|i: int|
                0 <= i < final(self).pix().len() ==> final(self).pix()[i] == if start <= i < end {
                    c
                } else {
                    old(self).pix()[i]
                },
            forall|w: int, h: int|
                #[trigger] final(self).wf_for(w, h) <==> old(self).wf_for(w, h),
    ;

    /// Overwrite the flat range starting at `dst` with the pixels of
    /// `data`.
    fn write_range(&mut self, dst: usize, data: &[Rgba])
        requires
            dst + data@.len() <= old(self).pix().len(),
        ensures
            final(self).pix().len() == old(self).pix().len(),
            forall|i: int|
                0 <= i < final(self).pix().len() ==> final(self).pix()[i] == if dst <= i < dst
                    + data@.len() {
                    data@[i - dst]
                } else {
                    old(self).pix()[i]
                },
            forall|w: int, h: int|
                #[trigger] final(self).wf_for(w, h) <==> old(self).wf_for(w, h),
    ;

    /// Copy `n` pixels from the flat range starting at `src` onto the
    /// disjoint flat range starting at `dst`.
    fn copy_range(&mut self, dst: usize, src: usize, n: usize)
        requires
            src + n <= old(self).pix().len(),
            dst + n <= old(self).pix().len(),
            src + n <= dst || dst + n <= src,
        ensures
            final(self).pix().len() == old(self).pix().len(),
            forall|i: int|
                0 <= i < final(self).pix().len() ==> final(self).pix()[i] == if dst <= i < dst
                    + n {
                    old(self).pix()[src + (i - dst)]
                } else {
                    old(self).pix()[i]
                },
            forall|w: int, h: int|
                #[trigger] final(self).wf_for(w, h) <==> old(self).wf_for(w, h),
    ;
}

/// A store that is one contiguous row-major block, so the whole pixel
/// area can be borrowed at once.
pub trait FlatPixelBuf: PixelBuf {
    /// All pixels, aligned in memory row by row.
    fn pixels(&self) -> (r: &[Rgba])
        ensures
            r@ == self.pix(),
    ;
}

/// Mutable counterpart of [`FlatPixelBuf`]: the contiguous block can
/// be overwritten in one bulk operation.
pub trait FlatPixelBufMut: FlatPixelBuf + PixelBufMut {
    /// Overwrite every pixel with `c` in one whole-buffer fill.
    fn fill_all(&mut self, c: Rgba)
        requires
            old(self).pix().len() >= 1,
        ensures
            final(self).pix().len() == old(self).pix().len(),
            forall|i: int| 0 <= i < final(self).pix().len() ==> final(self).pix()[i] == c,
            forall|w: int, h: int|
                #[trigger] final(self).wf_for(w, h) <==> old(self).wf_for(w, h),
    ;
}

impl PixelBuf for Vec<Rgba> {
    open spec fn wf_for(&self, w: int, h: int) -> bool {
        &&& 0 <= w
        &&& 0 <= h
        &&& self@.len() == w * h
    }

    open spec fn pix(&self) -> Seq<Rgba> {
        self@
    }

    proof fn lemma_wf_len(&self, w: int, h: int) {
    }

    fn len_px(&self) -> (n: usize) {
        self.len()
    }

    fn get_px(&self, i: usize) -> (c: Rgba) {
        self[i]
    }

    fn row(&self, y: usize, w: usize, h: usize) -> (r: &[Rgba]) {
        let total = self.len();
        proof {
            assert(0 <= y as int * w as int && y as int * w as int + w as int <= (w as int) * (
            h as int) && (y as int + 1) * (w as int) == y as int * w as int + w as int)
                by (nonlinear_arith)
                requires
                    0 <= y as int,
                    y as int + 1 <= h as int,
                    0 <= w as int,
            {
            }
        }
        let start = y * w;
        let end = start + w;
        vstd::slice::slice_subrange(self.as_slice(), start, end)
    }
}

impl PixelBufMut for Vec<Rgba> {
    fn set_px(&mut self, i: usize, c: Rgba) {
        self[i] = c;
    }

    fn fill_range(&mut self, start: usize, end: usize, c: Rgba) {
        incremental_fill_range(self, start, end, c);
    }

    fn write_range(&mut self, dst: usize, data: &[Rgba]) {
        let total = self.len();
        let n = data.len();
        let mut j: usize = 0;
        while j < n
            invariant
                j <= n,
                n == data@.len(),
                self@.len() == total,
                dst + n <= self@.len(),
                forall|i: int|
                    0 <= i < self@.len() ==> self@[i] == if dst <= i < dst + j {
                        data@[i - dst]
                    } else {
                        old(self)@[i]
                    },
            decreases n - j,
        {
            let v = *vstd::slice::slice_index_get(data, j);
            self[dst + j] = v;
            j = j + 1;
        }
    }

    fn copy_range(&mut self, dst: usize, src: usize, n: usize) {
        let total = self.len();
        let mut j: usize = 0;
        while j < n
            invariant
                j <= n,
                self@.len() == total,
                src + n <= self@.len(),
                dst + n <= self@.len(),
                src + n <= dst || dst + n <= src,
                self@.len() == old(self)@.len(),
                forall|i: int|
                    0 <= i < self@.len() ==> self@[i] == if dst <= i < dst + j {
                        old(self)@[src + (i - dst)]
                    } else {
                        old(self)@[i]
                    },
            decreases n - j,
        {
            let v = self[src + j];
            self[dst + j] = v;
            j = j + 1;
        }
    }
}

impl FlatPixelBuf for Vec<Rgba> {
    fn pixels(&self) -> (r: &[Rgba]) {
        self.as_slice()
    }
}

impl FlatPixelBufMut for Vec<Rgba> {
    fn fill_all(&mut self, c: Rgba) {
        incremental_fill(self, c);
    }
}

} // verus!
