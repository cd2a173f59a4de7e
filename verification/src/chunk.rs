//! Chunked iteration: rectangular sub-bitmaps for tile-based
//! processing.
//!
//! A [`Chunk`] is a row-sparse pixel store — one vector per row, not
//! one contiguous block — so it implements only the read side of the
//! storage capabilities.  The three iteration modes carve a parent
//! bitmap into non-overlapping tiles, dense sliding windows, or
//! strided overlapping tiles; every chunk is a read-only [`Bitmap`]
//! whose id is its top-left position in the parent's pixel space.

use vstd::prelude::*;
use vstd::seq_lib::lemma_flatten_concat;

use crate::bitmap::Bitmap;
use crate::buf::PixelBuf;
use crate::color::Rgba;
use crate::math::Extent2;

verus! {

/// A row-sparse pixel store: each entry is one row of pixels.  Rows
/// are separate allocations, so the whole store is deliberately not
/// contiguous and offers no flat view.
pub struct Chunk {
    /// The rows, top to bottom.
    pub rows: Vec<Vec<Rgba>>,
}

/// The rows of a chunk as mathematical sequences.
pub open spec fn chunk_rows(c: Chunk) -> Seq<Seq<Rgba>> {
    c.rows@.map_values(|r: Vec<Rgba>| r@)
}

/// Flattening a uniform-width stack of rows: the length multiplies
/// out and indexing decomposes into row and column.
pub proof fn lemma_flatten_uniform(rs: Seq<Seq<Rgba>>, w: int)
    requires
        w >= 0,
        forall|y: int| 0 <= y < rs.len() ==> (#[trigger] rs[y]).len() == w,
    ensures
        rs.flatten().len() == rs.len() * w,
        forall|y: int, x: int|
            0 <= y < rs.len() && 0 <= x < w ==> #[trigger] rs.flatten()[y * w + x] == rs[y][x],
    decreases rs.len(),
{
    if rs.len() == 0 {
        assert(rs.flatten() =~= Seq::<Rgba>::empty());
        assert(rs.len() * w == 0) by (nonlinear_arith)
            requires
                rs.len() == 0,
        {
        }
    } else {
        let first = rs.first();
        let rest = rs.drop_first();
        assert(rs.flatten() == first + rest.flatten());
        lemma_flatten_uniform(rest, w);
        assert(rs.len() * w == w + rest.len() * w) by (nonlinear_arith)
            requires
                rest.len() == rs.len() - 1,
        {
        }
        assert forall|y: int, x: int| 0 <= y < rs.len() && 0 <= x < w implies #[trigger] rs.flatten()[
            y * w + x
        ] == rs[y][x] by {
            if y == 0 {
                assert(y * w + x == x) by (nonlinear_arith)
                    requires
                        y == 0,
                {
                }
                assert(rs.flatten()[x] == first[x]);
            } else {
                assert(y * w + x - w == (y - 1) * w + x && y * w + x >= w && y * w + x < rs.len()
                    * w) by (nonlinear_arith)
                    requires
                        y >= 1,
                        x >= 0,
                        w >= 0,
                        x < w,
                        y < rs.len(),
                {
                }
                assert(first == rs[0]);
                assert(first.len() == w);
                assert(rs.flatten()[y * w + x] == rest.flatten()[(y * w + x) - w]);
                assert(rs.flatten()[y * w + x] == rest.flatten()[(y - 1) * w + x]);
                assert(rest.flatten()[(y - 1) * w + x] == rest[y - 1][x]);
                assert(rest[y - 1] == rs[y]);
            }
        }
    }
}

impl PixelBuf for Chunk {
    open spec fn wf_for(&self, w: int, h: int) -> bool {
        &&& 0 <= w
        &&& 0 <= h
        &&& chunk_rows(*self).len() == h
        &&& forall|y: int| 0 <= y < h ==> (#[trigger] chunk_rows(*self)[y]).len() == w
    }

    open spec fn pix(&self) -> Seq<Rgba> {
        chunk_rows(*self).flatten()
    }

    proof fn lemma_wf_len(&self, w: int, h: int) {
        lemma_flatten_uniform(chunk_rows(*self), w);
        assert(chunk_rows(*self).len() * w == h * w && h * w == w * h) by (nonlinear_arith)
            requires
                chunk_rows(*self).len() == h,
        {
        }
    }

    fn len_px(&self) -> (n: usize) {
        let ghost rs = chunk_rows(*self);
        let mut total: usize = 0;
        let mut y: usize = 0;
        proof {
            assert(rs.take(0) =~= Seq::<Seq<Rgba>>::empty());
            assert(rs.take(0).flatten() =~= Seq::<Rgba>::empty());
        }
        while y < self.rows.len()
            invariant
                y <= self.rows@.len(),
                rs == chunk_rows(*self),
                rs.len() == self.rows@.len(),
                self.pix().len() <= usize::MAX,
                total == rs.take(y as int).flatten().len(),
            decreases self.rows@.len() - y,
        {
            proof {
                assert(rs.take(y as int + 1) =~= rs.take(y as int).push(rs[y as int]));
                Seq::lemma_flatten_push(rs.take(y as int), rs[y as int]);
                assert(rs =~= rs.take(y as int + 1) + rs.skip(y as int + 1));
                lemma_flatten_concat(rs.take(y as int + 1), rs.skip(y as int + 1));
                assert(rs[y as int] == self.rows@[y as int]@);
            }
            let len = self.rows[y].len();
            total = total + len;
            y = y + 1;
        }
        proof {
            assert(rs.take(rs.len() as int) =~= rs);
        }
        total
    }

    fn get_px(&self, i: usize) -> (c: Rgba) {
        let ghost rs = chunk_rows(*self);
        let nrows = self.rows.len();
        let mut y: usize = 0;
        let mut j: usize = i;
        proof {
            assert(rs.skip(0) =~= rs);
        }
        loop
            invariant
                nrows == self.rows@.len(),
                y <= self.rows@.len(),
                rs == chunk_rows(*self),
                rs.len() == self.rows@.len(),
                j <= i,
                j < rs.skip(y as int).flatten().len(),
                rs.skip(y as int).flatten()[j as int] == self.pix()[i as int],
            decreases self.rows@.len() - y,
        {
            proof {
                if y as int >= rs.len() {
                    assert(rs.skip(y as int) =~= Seq::<Seq<Rgba>>::empty());
                    assert(rs.skip(y as int).flatten() =~= Seq::<Rgba>::empty());
                }
            }
            let row_len = self.rows[y].len();
            proof {
                let tail = rs.skip(y as int);
                assert(tail.first() == rs[y as int]);
                assert(tail.flatten() == tail.first() + tail.drop_first().flatten());
                assert(tail.drop_first() =~= rs.skip(y as int + 1));
                assert(rs[y as int] == self.rows@[y as int]@);
            }
            if j < row_len {
                return self.rows[y][j];
            }
            j = j - row_len;
            y = y + 1;
        }
    }

    fn row(&self, y: usize, w: usize, h: usize) -> (r: &[Rgba]) {
        proof {
            lemma_flatten_uniform(chunk_rows(*self), w as int);
            assert forall|i: int|
                y as int * w as int <= i < (y as int + 1) * (w as int) implies self.pix()[i]
                == chunk_rows(*self)[y as int][i - y as int * w as int] by {
                assert((y as int + 1) * (w as int) == y as int * w as int + w as int)
                    by (nonlinear_arith)
                {
                }
                let x = i - y as int * w as int;
                assert(self.pix()[y as int * w as int + x] == chunk_rows(*self)[y as int][x]);
            }
            assert((y as int + 1) * (w as int) == y as int * w as int + w as int)
                by (nonlinear_arith)
            {
            }
            assert(y as int * w as int + w as int <= chunk_rows(*self).len() * (w as int) && 0
                <= y as int * w as int) by (nonlinear_arith)
                requires
                    y as int + 1 <= chunk_rows(*self).len(),
                    w as int >= 0,
                    y as int >= 0,
            {
            }
            assert(chunk_rows(*self)[y as int] == self.rows@[y as int]@);
        }
        let r = self.rows[y].as_slice();
        proof {
            assert(r@ =~= self.pix().subrange(
                y as int * w as int,
                (y as int + 1) * (w as int),
            ));
        }
        r
    }
}

/// Whether `cpix`, read as a `cw`-wide grid, equals the rectangle of
/// the `pw`-wide parent pixels `ppix` whose top-left corner is
/// `(px, py)`.
pub open spec fn is_subregion(
    ppix: Seq<Rgba>,
    pw: int,
    cpix: Seq<Rgba>,
    cw: int,
    ch: int,
    px: int,
    py: int,
) -> bool {
    forall|y: int, x: int|
        0 <= y < ch && 0 <= x < cw ==> #[trigger] cpix[y * cw + x] == ppix[(py + y) * pw + (px
            + x)]
}

impl<I, B: PixelBuf> Bitmap<I, B> {
    /// Copy the `size` rectangle whose top-left corner is
    /// `(pxu, pyu)` out of this bitmap, as a row-sparse chunk bitmap
    /// whose id is that corner.
    fn chunk_at(&self, pxu: usize, pyu: usize, size: Extent2) -> (r: Bitmap<(i32, i32), Chunk>)
        requires
            self.wf(),
            pxu + size.w <= self.spec_width(),
            pyu + size.h <= self.spec_height(),
        ensures
            r.wf(),
            r.spec_size() == size,
            r.spec_id() == ((pxu as i32, pyu as i32)),
            is_subregion(
                self.pix(),
                self.spec_width(),
                r.pix(),
                size.w as int,
                size.h as int,
                pxu as int,
                pyu as int,
            ),
    {
        proof {
            self.lemma_wf_pix_len();
        }
        let ghost w = self.spec_width();
        let ghost h = self.spec_height();
        let cw = size.w;
        let chh = size.h;
        let mut rows: Vec<Vec<Rgba>> = Vec::new();
        let mut ry: usize = 0;
        while ry < chh
            invariant
                self.wf(),
                w == self.spec_width(),
                h == self.spec_height(),
                self.pix().len() == w * h,
                cw == size.w,
                chh == size.h,
                pxu + cw <= w,
                pyu + chh <= h,
                ry <= chh,
                rows@.len() == ry,
                forall|j: int|
                    0 <= j < ry ==> (#[trigger] rows@[j])@.len() == cw && forall|x: int|
                        0 <= x < cw ==> rows@[j]@[x] == self.pix()[(pyu + j) * w + (pxu as int
                            + x)],
            decreases chh - ry,
        {
            proof {
                assert((pyu + ry as int) * w + w == (pyu + ry as int + 1) * w && 0 <= (pyu
                    + ry as int) * w && (pyu + ry as int + 1) * w <= h * w && h * w == w * h)
                    by (nonlinear_arith)
                    requires
                        0 <= pyu + ry as int,
                        pyu + ry as int + 1 <= h,
                        0 <= w,
                {
                }
            }
            let prow = self.buf.row(pyu + ry, self.size.w, self.size.h);
            proof {
                assert(prow@.len() == w);
            }
            let seg = vstd::slice::slice_subrange(prow, pxu, pxu + cw);
            let v = vstd::slice::slice_to_vec(seg);
            proof {
                assert forall|x: int| 0 <= x < cw implies v@[x] == self.pix()[(pyu + ry as int) * w
                    + (pxu as int + x)] by {
                    assert(v@[x] == prow@[pxu + x]);
                    assert(prow@[pxu + x] == self.pix().subrange(
                        (pyu + ry as int) * w,
                        (pyu + ry as int + 1) * w,
                    )[pxu + x]);
                }
            }
            rows.push(v);
            ry = ry + 1;
        }
        let chunk = Chunk { rows };
        proof {
            assert(chunk_rows(chunk).len() == chh);
            assert forall|j: int| 0 <= j < chh implies (#[trigger] chunk_rows(chunk)[j]).len()
                == cw by {
                assert(chunk_rows(chunk)[j] == chunk.rows@[j]@);
            }
            assert(chunk.wf_for(cw as int, chh as int));
            assert(cw as int * chh as int <= w * h) by (nonlinear_arith)
                requires
                    cw as int <= w,
                    chh as int <= h,
                    0 <= cw as int,
                    0 <= chh as int,
            {
            }
        }
        let r = Bitmap::new((pxu as i32, pyu as i32), chunk, size);
        proof {
            lemma_flatten_uniform(chunk_rows(chunk), cw as int);
            assert forall|y: int, x: int| 0 <= y < chh as int && 0 <= x < cw as int implies #[trigger] r.pix()[
                y * cw as int + x
            ] == self.pix()[(pyu as int + y) * w + (pxu as int + x)] by {
                assert(r.pix()[y * cw as int + x] == chunk_rows(chunk)[y][x]);
                assert(chunk_rows(chunk)[y] == chunk.rows@[y]@);
            }
        }
        r
    }

    /// Build the full grid of `ny` rows by `nx` columns of chunks of
    /// extent `size`, stepping `stepx` pixels between columns and
    /// `stepy` between rows.  Chunk `ci` sits at column `ci % nx`,
    /// row `ci / nx`.
    fn chunk_grid(&self, size: Extent2, stepx: usize, stepy: usize, nx: usize, ny: usize) -> (r:
        Vec<Bitmap<(i32, i32), Chunk>>)
        requires
            self.wf(),
            stepx >= 1,
            stepy >= 1,
            nx <= self.spec_width(),
            ny <= self.spec_height(),
            nx >= 1 ==> (nx - 1) * stepx + size.w <= self.spec_width(),
            ny >= 1 ==> (ny - 1) * stepy + size.h <= self.spec_height(),
        ensures
            r@.len() == ny * nx,
            forall|ci: int|
                0 <= ci < r@.len() ==> {
                    &&& (#[trigger] r@[ci]).wf()
                    &&& r@[ci].spec_size() == size
                    &&& r@[ci].spec_id() == ((((ci % nx as int) * stepx) as i32, ((ci
                        / nx as int) * stepy) as i32))
                    &&& is_subregion(
                        self.pix(),
                        self.spec_width(),
                        r@[ci].pix(),
                        size.w as int,
                        size.h as int,
                        (ci % nx as int) * stepx,
                        (ci / nx as int) * stepy,
                    )
                },
    {
        let ghost w = self.spec_width();
        let ghost h = self.spec_height();
        let mut out: Vec<Bitmap<(i32, i32), Chunk>> = Vec::new();
        let mut cy: usize = 0;
        while cy < ny
            invariant
                self.wf(),
                w == self.spec_width(),
                h == self.spec_height(),
                stepx >= 1,
                stepy >= 1,
                nx <= w,
                ny <= h,
                nx >= 1 ==> (nx - 1) * stepx + size.w <= w,
                ny >= 1 ==> (ny - 1) * stepy + size.h <= h,
                cy <= ny,
                out@.len() == cy * nx,
                forall|ci: int|
                    0 <= ci < out@.len() ==> {
                        &&& (#[trigger] out@[ci]).wf()
                        &&& out@[ci].spec_size() == size
                        &&& out@[ci].spec_id() == ((((ci % nx as int) * stepx) as i32, ((ci
                            / nx as int) * stepy) as i32))
                        &&& is_subregion(
                            self.pix(),
                            w,
                            out@[ci].pix(),
                            size.w as int,
                            size.h as int,
                            (ci % nx as int) * stepx,
                            (ci / nx as int) * stepy,
                        )
                    },
            decreases ny - cy,
        {
            let mut cx: usize = 0;
            proof {
                assert(cy * nx + 0 == cy * nx);
            }
            while cx < nx
                invariant
                    self.wf(),
                    w == self.spec_width(),
                    h == self.spec_height(),
                    stepx >= 1,
                    stepy >= 1,
                    nx <= w,
                    ny <= h,
                    nx >= 1 ==> (nx - 1) * stepx + size.w <= w,
                    ny >= 1 ==> (ny - 1) * stepy + size.h <= h,
                    cy < ny,
                    cx <= nx,
                    out@.len() == cy * nx + cx,
                    forall|ci: int|
                        0 <= ci < out@.len() ==> {
                            &&& (#[trigger] out@[ci]).wf()
                            &&& out@[ci].spec_size() == size
                            &&& out@[ci].spec_id() == ((((ci % nx as int) * stepx) as i32, ((ci
                                / nx as int) * stepy) as i32))
                            &&& is_subregion(
                                self.pix(),
                                w,
                                out@[ci].pix(),
                                size.w as int,
                                size.h as int,
                                (ci % nx as int) * stepx,
                                (ci / nx as int) * stepy,
                            )
                        },
                decreases nx - cx,
            {
                proof {
                    assert(cx as int * stepx <= (nx - 1) * stepx && cy as int * stepy <= (ny - 1)
                        * stepy) by (nonlinear_arith)
                        requires
                            cx as int <= nx - 1,
                            cy as int <= ny - 1,
                            stepx >= 1,
                            stepy >= 1,
                            0 <= cx as int,
                            0 <= cy as int,
                    {
                    }
                    assert(0 <= cx as int * stepx && 0 <= cy as int * stepy) by (nonlinear_arith)
                        requires
                            0 <= cx as int,
                            0 <= cy as int,
                            stepx >= 1,
                            stepy >= 1,
                    {
                    }
                }
                let px = cx * stepx;
                let py = cy * stepy;
                let chunk = self.chunk_at(px, py, size);
                let ghost n = out@.len() as int;
                out.push(chunk);
                proof {
                    vstd::arithmetic::div_mod::lemma_fundamental_div_mod_converse_div(
                        n,
                        nx as int,
                        cy as int,
                        cx as int,
                    );
                    vstd::arithmetic::div_mod::lemma_fundamental_div_mod_converse_mod(
                        n,
                        nx as int,
                        cy as int,
                        cx as int,
                    );
                    assert(n == cy as int * nx + cx as int);
                    assert(cy as int * (nx as int) == (nx as int) * (cy as int))
                        by (nonlinear_arith)
                    {
                    }
                    assert(n % nx as int == cx as int && n / nx as int == cy as int);
                    assert(out@[n] == chunk);
                }
                cx = cx + 1;
            }
            proof {
                assert(cy as int * nx + nx == (cy as int + 1) * nx) by (nonlinear_arith)
                {
                }
            }
            cy = cy + 1;
        }
        proof {
            assert(ny as int * nx == ny * nx) by (nonlinear_arith)
            {
            }
        }
        out
    }
}

/// `floor(x / d) * d` stays at most `x`, and the quotient at most
/// `x`, for positive `d`.
proof fn lemma_div_mul_le(x: int, d: int)
    requires
        0 <= x,
        1 <= d,
    ensures
        (x / d) * d <= x,
        0 <= x / d <= x,
{
    vstd::arithmetic::div_mod::lemma_fundamental_div_mod(x, d);
    vstd::arithmetic::div_mod::lemma_mod_division_less_than_divisor(x, d);
    assert(d * (x / d) == (x / d) * d) by (nonlinear_arith)
    {
    }
    vstd::arithmetic::div_mod::lemma_div_pos_is_pos(x, d);
    assert(x / d <= (x / d) * d) by (nonlinear_arith)
        requires
            d >= 1,
            0 <= x / d,
    {
    }
}

impl<I, B: PixelBuf> Bitmap<I, B> {
    /// Iterate non-overlapping "sub-bitmaps" or "chunks" of extent
    /// `size`, in row-major order: `floor(height / size.h)` rows of
    /// `floor(width / size.w)` tiles, any remainder pixels silently
    /// dropped.  Each chunk's id is its top-left corner in this
    /// bitmap's pixel space, and its pixels equal that sub-region.
    pub fn iter_pixel_chunks(&self, size: Extent2) -> (r: Vec<Bitmap<(i32, i32), Chunk>>)
        requires
            self.wf(),
            size.w >= 1,
            size.h >= 1,
        ensures
            r@.len() == (self.spec_height() / size.h as int) * (self.spec_width()
                / size.w as int),
            forall|ci: int|
                0 <= ci < r@.len() ==> {
                    let nx = self.spec_width() / size.w as int;
                    &&& (#[trigger] r@[ci]).wf()
                    &&& r@[ci].spec_size() == size
                    &&& r@[ci].spec_id() == ((((ci % nx) * size.w) as i32, ((ci / nx)
                        * size.h) as i32))
                    &&& is_subregion(
                        self.pix(),
                        self.spec_width(),
                        r@[ci].pix(),
                        size.w as int,
                        size.h as int,
                        (ci % nx) * size.w,
                        (ci / nx) * size.h,
                    )
                },
    {
        let nx = self.size.w / size.w;
        let ny = self.size.h / size.h;
        proof {
            lemma_div_mul_le(self.spec_width(), size.w as int);
            lemma_div_mul_le(self.spec_height(), size.h as int);
            assert(nx >= 1 ==> (nx - 1) * size.w + size.w == nx as int * size.w)
                by (nonlinear_arith)
            {
            }
            assert(ny >= 1 ==> (ny - 1) * size.h + size.h == ny as int * size.h)
                by (nonlinear_arith)
            {
            }
        }
        let r = self.chunk_grid(size, size.w, size.h, nx, ny);
        proof {
            assert(r@.len() == ny as int * nx as int);
            assert(ny as int * nx as int == (self.spec_height() / size.h as int) * (
            self.spec_width() / size.w as int)) by (nonlinear_arith)
                requires
                    nx as int == self.spec_width() / size.w as int,
                    ny as int == self.spec_height() / size.h as int,
            {
            }
        }
        r
    }

    /// Iterate every position where a `size` window fits entirely
    /// inside this bitmap, advancing by one pixel on both axes: the
    /// dense sliding-window view used for neighbourhood processing.
    /// A window larger than the bitmap yields nothing.
    pub fn iter_pixel_windows(&self, size: Extent2) -> (r: Vec<Bitmap<(i32, i32), Chunk>>)
        requires
            self.wf(),
            size.w >= 1,
            size.h >= 1,
        ensures
            size.w <= self.spec_size().w && size.h <= self.spec_size().h ==> r@.len() == (
            self.spec_height() - size.h as int + 1) * (self.spec_width() - size.w as int + 1),
            size.w > self.spec_size().w || size.h > self.spec_size().h ==> r@.len() == 0,
            forall|ci: int|
                0 <= ci < r@.len() ==> {
                    let nx = self.spec_width() - size.w as int + 1;
                    &&& (#[trigger] r@[ci]).wf()
                    &&& r@[ci].spec_size() == size
                    &&& r@[ci].spec_id() == (((ci % nx) as i32, (ci / nx) as i32))
                    &&& is_subregion(
                        self.pix(),
                        self.spec_width(),
                        r@[ci].pix(),
                        size.w as int,
                        size.h as int,
                        ci % nx,
                        ci / nx,
                    )
                },
    {
        if size.w > self.size.w || size.h > self.size.h {
            return Vec::new();
        }
        let nx = self.size.w - size.w + 1;
        let ny = self.size.h - size.h + 1;
        let r = self.chunk_grid(size, 1, 1, nx, ny);
        proof {
            assert(ny as int * nx as int == (self.spec_height() - size.h as int + 1) * (
            self.spec_width() - size.w as int + 1)) by (nonlinear_arith)
                requires
                    nx as int == self.spec_width() - size.w as int + 1,
                    ny as int == self.spec_height() - size.h as int + 1,
            {
            }
            assert forall|ci: int| 0 <= ci < r@.len() implies {
                let nxi = self.spec_width() - size.w as int + 1;
                &&& (#[trigger] r@[ci]).spec_id() == (((ci % nxi) as i32, (ci / nxi) as i32))
                &&& is_subregion(
                    self.pix(),
                    self.spec_width(),
                    r@[ci].pix(),
                    size.w as int,
                    size.h as int,
                    ci % nxi,
                    ci / nxi,
                )
            } by {
                assert((ci % nx as int) * 1 == ci % nx as int && (ci / nx as int) * 1 == ci
                    / nx as int) by (nonlinear_arith)
                {
                }
            }
        }
        r
    }

    /// Iterate chunks of extent `size` advancing by an explicit
    /// stride `inc` on each axis, producing controlled overlap when
    /// the stride is smaller than the chunk.
    pub fn iter_pixel_overlapping_chunks(&self, size: Extent2, inc: (usize, usize)) -> (r: Vec<
        Bitmap<(i32, i32), Chunk>,
    >)
        requires
            self.wf(),
            size.w >= 1,
            size.h >= 1,
            inc.0 >= 1,
            inc.1 >= 1,
            size.w <= self.spec_size().w,
            size.h <= self.spec_size().h,
        ensures
            r@.len() == ((self.spec_height() - size.h as int) / inc.1 as int + 1) * ((
            self.spec_width() - size.w as int) / inc.0 as int + 1),
            forall|ci: int|
                0 <= ci < r@.len() ==> {
                    let nx = (self.spec_width() - size.w as int) / inc.0 as int + 1;
                    &&& (#[trigger] r@[ci]).wf()
                    &&& r@[ci].spec_size() == size
                    &&& r@[ci].spec_id() == ((((ci % nx) * inc.0) as i32, ((ci / nx)
                        * inc.1) as i32))
                    &&& is_subregion(
                        self.pix(),
                        self.spec_width(),
                        r@[ci].pix(),
                        size.w as int,
                        size.h as int,
                        (ci % nx) * inc.0,
                        (ci / nx) * inc.1,
                    )
                },
    {
        let nx = (self.size.w - size.w) / inc.0 + 1;
        let ny = (self.size.h - size.h) / inc.1 + 1;
        proof {
            lemma_div_mul_le(self.spec_width() - size.w as int, inc.0 as int);
            lemma_div_mul_le(self.spec_height() - size.h as int, inc.1 as int);
        }
        let r = self.chunk_grid(size, inc.0, inc.1, nx, ny);
        proof {
            assert(ny as int * nx as int == ((self.spec_height() - size.h as int)
                / inc.1 as int + 1) * ((self.spec_width() - size.w as int) / inc.0 as int + 1))
                by (nonlinear_arith)
                requires
                    nx as int == (self.spec_width() - size.w as int) / inc.0 as int + 1,
                    ny as int == (self.spec_height() - size.h as int) / inc.1 as int + 1,
            {
            }
        }
        r
    }
}

} // verus!
