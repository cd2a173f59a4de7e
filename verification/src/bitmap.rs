//! The bitmap: a fixed-size pixel surface with pen state.
//!
//! A bitmap owns an opaque identifier, a pixel store, its extent, and
//! the current pen (optional stroke and fill colours).  The size is
//! fixed for the bitmap's lifetime, and the pen persists across
//! drawing calls until changed explicitly.  Drawing operations live in
//! [`crate::draw`]; chunked iteration in [`crate::chunk`].

use vstd::prelude::*;

use crate::buf::{FlatPixelBuf, FlatPixelBufMut, PixelBuf, PixelBufMut};
use crate::color::Rgba;
use crate::error::BitmapError;
use crate::math::Extent2;

verus! {

/// The stroke colour a fresh bitmap starts with: opaque white.
pub open spec fn default_stroke() -> Rgba {
    Rgba { r: 0xff, g: 0xff, b: 0xff, a: 0xff }
}

/// The fill colour a fresh bitmap starts with: opaque mid-grey.
pub open spec fn default_fill() -> Rgba {
    Rgba { r: 0x80, g: 0x80, b: 0x80, a: 0xff }
}

/// A fixed-size 2D pixel surface with drawing pen state.
///
/// `I` is an opaque identifier carried but never interpreted (for a
/// canvas it names the window; for a chunk, the chunk's origin).  `B`
/// is the pixel store, accessed through the capability traits of
/// [`crate::buf`].
pub struct Bitmap<I, B> {
    /// The carried identifier, never interpreted by drawing code.
    pub id: I,
    /// The pixel store.
    pub buf: B,
    /// Width and height in pixels, fixed at construction.
    pub size: Extent2,
    /// Current outline colour; `None` means outlines are not drawn.
    pub stroke: Option<Rgba>,
    /// Current interior colour; `None` means interiors are not drawn.
    pub fill: Option<Rgba>,
}

/// `bm` with its fill colour replaced, everything else untouched.
pub open spec fn with_fill<I, B>(bm: Bitmap<I, B>, f: Option<Rgba>) -> Bitmap<I, B> {
    Bitmap { fill: f, ..bm }
}

/// `bm` with its stroke colour replaced, everything else untouched.
pub open spec fn with_stroke<I, B>(bm: Bitmap<I, B>, s: Option<Rgba>) -> Bitmap<I, B> {
    Bitmap { stroke: s, ..bm }
}

/// Clearing the fill, setting it, and clearing it again is the same as
/// clearing it once: the pen holds no memory of intermediate colours.
pub proof fn lemma_fill_reset_idempotent<I, B>(bm: Bitmap<I, B>, c: Rgba)
    ensures
        with_fill(with_fill(with_fill(bm, None), Some(c)), None) == with_fill(bm, None),
{
}

/// The same for the stroke colour.
pub proof fn lemma_stroke_reset_idempotent<I, B>(bm: Bitmap<I, B>, c: Rgba)
    ensures
        with_stroke(with_stroke(with_stroke(bm, None), Some(c)), None) == with_stroke(bm, None),
{
}

impl<I, B: PixelBuf> Bitmap<I, B> {
    /// The bitmap's pixels, flattened in row-major order.
    pub open spec fn pix(&self) -> Seq<Rgba> {
        self.buf.pix()
    }

    /// Width in pixels, as a mathematical integer.
    pub open spec fn spec_width(&self) -> int {
        self.size.w as int
    }

    /// Height in pixels, as a mathematical integer.
    pub open spec fn spec_height(&self) -> int {
        self.size.h as int
    }

    /// The extent promised at construction.
    pub open spec fn spec_size(&self) -> Extent2 {
        self.size
    }

    /// The carried identifier.
    pub open spec fn spec_id(&self) -> I {
        self.id
    }

    /// Whether `other` carries the same identifier, extent and pen
    /// as `self`: what a drawing operation leaves untouched while it
    /// repaints pixels.
    pub open spec fn same_frame(&self, other: Bitmap<I, B>) -> bool {
        &&& self.id == other.id
        &&& self.size == other.size
        &&& self.stroke == other.stroke
        &&& self.fill == other.fill
    }

    /// The flat index of position `(x, y)`.
    pub open spec fn pix_index(&self, x: int, y: int) -> int {
        y * self.spec_width() + x
    }

    /// Whether `(x, y)` lies inside `[0, width) x [0, height)`.
    pub open spec fn in_bounds(&self, x: int, y: int) -> bool {
        0 <= x < self.spec_width() && 0 <= y < self.spec_height()
    }

    /// The structural invariant: the store is consistent with the
    /// promised extent, and the extent fits signed 32-bit coordinate
    /// space.
    pub open spec fn wf(&self) -> bool {
        &&& self.buf.wf_for(self.spec_width(), self.spec_height())
        &&& self.size.w * self.size.h <= usize::MAX
        &&& self.size.w <= 0x7fff_ffff
        &&& self.size.h <= 0x7fff_ffff
    }

    /// A consistent bitmap holds exactly `width * height` pixels.
    pub proof fn lemma_wf_pix_len(&self)
        requires
            self.wf(),
        ensures
            self.pix().len() == self.spec_width() * self.spec_height(),
    {
        self.buf.lemma_wf_len(self.spec_width(), self.spec_height());
    }

    /// Create a new bitmap from its raw parts.  The store must hold
    /// exactly `size.w * size.h` pixels; the pen starts as a white
    /// stroke over a mid-grey fill.
    pub fn new(id: I, buf: B, size: Extent2) -> (bm: Self)
        requires
            buf.wf_for(size.w as int, size.h as int),
            size.w * size.h <= usize::MAX,
            size.w <= 0x7fff_ffff,
            size.h <= 0x7fff_ffff,
        ensures
            bm.wf(),
            bm.spec_id() == id,
            bm.spec_size() == size,
            bm.pix() == buf.pix(),
            bm.stroke == Some(default_stroke()),
            bm.fill == Some(default_fill()),
    {
        let stroke = Some(Rgba::white());
        let fill = Some(Rgba::grey(0x80));
        Bitmap { id, buf, size, stroke, fill }
    }

    /// Get this bitmap's ID.
    pub fn id(&self) -> (r: &I)
        ensures
            *r == self.spec_id(),
    {
        &self.id
    }

    /// Get this bitmap's width and height, in pixels.
    pub fn size(&self) -> (r: Extent2)
        ensures
            r == self.spec_size(),
    {
        self.size
    }

    /// Get this bitmap's width, in pixels.
    pub fn width(&self) -> (r: usize)
        ensures
            r == self.spec_width(),
    {
        self.size.w
    }

    /// Get this bitmap's height, in pixels.
    pub fn height(&self) -> (r: usize)
        ensures
            r == self.spec_height(),
    {
        self.size.h
    }

    /// Get this bitmap's area (width * height), in pixels.
    pub fn area(&self) -> (r: usize)
        requires
            self.wf(),
        ensures
            r == self.spec_width() * self.spec_height(),
    {
        self.size.w * self.size.h
    }

    /// Set the fill colour used by future drawing calls.
    pub fn fill(&mut self, col: Rgba)
        ensures
            *final(self) == with_fill(*old(self), Some(col)),
    {
        self.fill = Some(col);
    }

    /// Set the stroke colour used by future drawing calls.
    pub fn stroke(&mut self, col: Rgba)
        ensures
            *final(self) == with_stroke(*old(self), Some(col)),
    {
        self.stroke = Some(col);
    }

    /// Future drawing calls will draw no interior.
    pub fn no_fill(&mut self)
        ensures
            *final(self) == with_fill(*old(self), None),
    {
        self.fill = None;
    }

    /// Future drawing calls will draw no outline.
    pub fn no_stroke(&mut self)
        ensures
            *final(self) == with_stroke(*old(self), None),
    {
        self.stroke = None;
    }

    /// Read the pixel at `pos`.  The position must be in bounds;
    /// clipping is the caller's job, never the index operation's.
    pub fn get(&self, pos: (i32, i32)) -> (c: Rgba)
        requires
            self.wf(),
            self.in_bounds(pos.0 as int, pos.1 as int),
        ensures
            c == self.pix()[self.pix_index(pos.0 as int, pos.1 as int)],
    {
        proof {
            self.lemma_wf_pix_len();
            lemma_pix_index_in_range(
                pos.0 as int,
                pos.1 as int,
                self.spec_width(),
                self.spec_height(),
            );
        }
        let i = pos.1 as usize * self.size.w + pos.0 as usize;
        self.buf.get_px(i)
    }

    /// Read the pixel at `pos`, rejecting out-of-range positions with
    /// [`BitmapError::OutOfBounds`] instead of demanding them away.
    pub fn try_get(&self, pos: (i32, i32)) -> (r: Result<Rgba, BitmapError>)
        requires
            self.wf(),
        ensures
            match r {
                Ok(c) => self.in_bounds(pos.0 as int, pos.1 as int) && c == self.pix()[
                    self.pix_index(pos.0 as int, pos.1 as int)
                ],
                Err(e) => e == BitmapError::OutOfBounds && !self.in_bounds(
                    pos.0 as int,
                    pos.1 as int,
                ),
            },
    {
        if pos.0 >= 0 && pos.1 >= 0 && (pos.0 as usize) < self.size.w && (pos.1 as usize)
            < self.size.h {
            Ok(self.get(pos))
        } else {
            Err(BitmapError::OutOfBounds)
        }
    }
}

/// An in-bounds position has a flat index inside the pixel area.
pub proof fn lemma_pix_index_in_range(x: int, y: int, w: int, h: int) by (nonlinear_arith)
    requires
        0 <= x < w,
        0 <= y < h,
    ensures
        0 <= y * w + x < w * h,
        y * w + x == x + w * y,
{
}

impl<I, B: PixelBufMut> Bitmap<I, B> {
    /// Draw a single pixel.  The position must be in bounds.
    pub fn set(&mut self, pos: (i32, i32), col: Rgba)
        requires
            old(self).wf(),
            old(self).in_bounds(pos.0 as int, pos.1 as int),
        ensures
            final(self).wf(),
            final(self).pix() == old(self).pix().update(
                old(self).pix_index(pos.0 as int, pos.1 as int),
                col,
            ),
            final(self).spec_size() == old(self).spec_size(),
            final(self).spec_id() == old(self).spec_id(),
            final(self).stroke == old(self).stroke,
            final(self).fill == old(self).fill,
    {
        proof {
            self.lemma_wf_pix_len();
            lemma_pix_index_in_range(
                pos.0 as int,
                pos.1 as int,
                self.spec_width(),
                self.spec_height(),
            );
        }
        let i = pos.1 as usize * self.size.w + pos.0 as usize;
        self.buf.set_px(i, col);
    }

    /// Draw a single pixel, rejecting out-of-range positions with
    /// [`BitmapError::OutOfBounds`]; the bitmap is untouched then.
    pub fn try_set(&mut self, pos: (i32, i32), col: Rgba) -> (r: Result<(), BitmapError>)
        requires
            old(self).wf(),
        ensures
            final(self).wf(),
            final(self).spec_size() == old(self).spec_size(),
            final(self).spec_id() == old(self).spec_id(),
            final(self).stroke == old(self).stroke,
            final(self).fill == old(self).fill,
            match r {
                Ok(u) => old(self).in_bounds(pos.0 as int, pos.1 as int) && final(self).pix()
                    == old(self).pix().update(
                    old(self).pix_index(pos.0 as int, pos.1 as int),
                    col,
                ),
                Err(e) => {
                    &&& e == BitmapError::OutOfBounds
                    &&& !old(self).in_bounds(pos.0 as int, pos.1 as int)
                    &&& final(self).pix() == old(self).pix()
                },
            },
    {
        if pos.0 >= 0 && pos.1 >= 0 && (pos.0 as usize) < self.size.w && (pos.1 as usize)
            < self.size.h {
            self.set(pos, col);
            Ok(())
        } else {
            Err(BitmapError::OutOfBounds)
        }
    }

    /// Overwrite every pixel with `col`, ignoring the pen entirely.
    pub fn background(&mut self, col: Rgba)
        requires
            old(self).wf(),
        ensures
            final(self).wf(),
            final(self).pix().len() == old(self).pix().len(),
            forall|i: int| 0 <= i < final(self).pix().len() ==> final(self).pix()[i] == col,
            final(self).spec_size() == old(self).spec_size(),
            final(self).spec_id() == old(self).spec_id(),
            final(self).stroke == old(self).stroke,
            final(self).fill == old(self).fill,
    {
        proof {
            self.lemma_wf_pix_len();
        }
        let n = self.buf.len_px();
        self.buf.fill_range(0, n, col);
    }
}

impl<I, B: FlatPixelBufMut> Bitmap<I, B> {
    /// Overwrite every pixel with `col` in one whole-buffer doubling
    /// fill, ignoring the pen entirely.  Same effect as
    /// [`Bitmap::background`], through the contiguous fast path.
    pub fn clear(&mut self, col: Rgba)
        requires
            old(self).wf(),
        ensures
            final(self).wf(),
            final(self).pix().len() == old(self).pix().len(),
            forall|i: int| 0 <= i < final(self).pix().len() ==> final(self).pix()[i] == col,
            final(self).spec_size() == old(self).spec_size(),
            final(self).spec_id() == old(self).spec_id(),
            final(self).stroke == old(self).stroke,
            final(self).fill == old(self).fill,
    {
        proof {
            self.lemma_wf_pix_len();
        }
        let n = self.buf.len_px();
        if n == 0 {
            return ;
        }
        self.buf.fill_all(col);
    }
}

impl<I, B: FlatPixelBuf> Bitmap<I, B> {
    /// All pixels of a contiguous bitmap, row-major.
    pub fn pixels(&self) -> (r: &[Rgba])
        ensures
            r@ == self.pix(),
    {
        self.buf.pixels()
    }

    /// Every pixel paired with its position, row-major: index `k`
    /// carries position `(k % width, k / width)`.
    pub fn iter_pixels(&self) -> (r: Vec<((i32, i32), Rgba)>)
        requires
            self.wf(),
        ensures
            r@.len() == self.pix().len(),
            forall|k: int|
                0 <= k < r@.len() ==> r@[k] == (
                    (
                        ((k % self.spec_width()) as i32, (k / self.spec_width()) as i32),
                        self.pix()[k],
                    )
                ),
    {
        proof {
            self.lemma_wf_pix_len();
        }
        let px = self.buf.pixels();
        let w = self.size.w;
        let mut out: Vec<((i32, i32), Rgba)> = Vec::new();
        let mut k: usize = 0;
        while k < px.len()
            invariant
                px@ == self.pix(),
                w == self.spec_width(),
                self.wf(),
                self.pix().len() == self.spec_width() * self.spec_height(),
                k <= px@.len(),
                out@.len() == k,
                forall|j: int|
                    0 <= j < k ==> out@[j] == (
                        (((j % w as int) as i32, (j / w as int) as i32), self.pix()[j])
                    ),
            decreases px@.len() - k,
        {
            proof {
                assert(w > 0) by (nonlinear_arith)
                    requires
                        (w as int) * self.spec_height() > k as int,
                        k as int >= 0,
                {
                }
                assert(0 <= k as int % (w as int) < w as int);
                assert(0 <= k as int / (w as int) <= k as int) by (nonlinear_arith)
                    requires
                        w as int >= 1,
                        k as int >= 0,
                {
                }
                assert(k as int / (w as int) < 0x8000_0000) by (nonlinear_arith)
                    requires
                        w as int >= 1,
                        0 <= k as int,
                        (k as int) < (w as int) * self.spec_height(),
                        self.spec_height() <= 0x7fff_ffff,
                {
                }
            }
            let x = (k % w) as i32;
            let y = (k / w) as i32;
            let c = *vstd::slice::slice_index_get(px, k);
            out.push(((x, y), c));
            k = k + 1;
        }
        out
    }
}

impl<I> Bitmap<I, Vec<Rgba>> {
    /// Create a bitmap over an owned pixel vector, rejecting a store
    /// whose length does not match the extent (or an extent outside
    /// signed 32-bit coordinate space) with
    /// [`BitmapError::ShapeMismatch`].
    pub fn try_new(id: I, buf: Vec<Rgba>, size: Extent2) -> (r: Result<Self, BitmapError>)
        ensures
            match r {
                Ok(bm) => {
                    &&& bm.wf()
                    &&& buf@.len() == size.w * size.h
                    &&& size.w <= 0x7fff_ffff
                    &&& size.h <= 0x7fff_ffff
                    &&& bm.spec_size() == size
                    &&& bm.pix() == buf@
                    &&& bm.stroke == Some(default_stroke())
                    &&& bm.fill == Some(default_fill())
                },
                Err(e) => {
                    &&& e == BitmapError::ShapeMismatch
                    &&& (buf@.len() != size.w * size.h || size.w > 0x7fff_ffff || size.h
                        > 0x7fff_ffff)
                },
            },
    {
        let buf_len = buf.len();
        if size.w > 0x7fff_ffff || size.h > 0x7fff_ffff {
            return Err(BitmapError::ShapeMismatch);
        }
        if size.h != 0 && size.w > usize::MAX / size.h {
            proof {
                assert((size.w * size.h) as int > usize::MAX as int) by (nonlinear_arith)
                    requires
                        size.h as int >= 1,
                        size.w as int > usize::MAX as int / size.h as int,
                {
                }
            }
            return Err(BitmapError::ShapeMismatch);
        }
        let area = if size.h == 0 {
            0
        } else {
            proof {
                assert(size.w as int * size.h as int <= usize::MAX as int) by (nonlinear_arith)
                    requires
                        size.h as int >= 1,
                        size.w as int <= usize::MAX as int / size.h as int,
                {
                }
            }
            size.w * size.h
        };
        if buf_len != area {
            return Err(BitmapError::ShapeMismatch);
        }
        Ok(Self::new(id, buf, size))
    }
}

} // verus!
