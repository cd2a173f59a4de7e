//! Drawing operations on a bitmap: lines, triangles, rectangles and
//! image blits, each pre-clipped so no write ever leaves the pixel
//! area.  The contracts describe the final pixels exactly, as layers
//! of "paint these positions with this colour" over the old contents.

use vstd::prelude::*;

use crate::bitmap::Bitmap;
use crate::bresenham::{in_rect, line_points_bounded, line_seq, within_limit};
use crate::buf::{PixelBuf, PixelBufMut};
use crate::color::Rgba;
use crate::triangle::{in_triangle, triangle_points, Bary};

verus! {

/// The flat row-major index of position `p` on a surface `w` wide.
pub open spec fn flat_index(p: (i32, i32), w: int) -> int {
    p.1 * w + p.0
}

/// `pix` with the pixels at the positions in `pts` repainted `col`;
/// everything else keeps its value.
pub open spec fn paint_pts(pix: Seq<Rgba>, pts: Seq<(i32, i32)>, w: int, col: Rgba) -> Seq<Rgba> {
    Seq::new(
        pix.len(),
        |i: int|
            if exists|k: int| 0 <= k < pts.len() && #[trigger] flat_index(pts[k], w) == i {
                col
            } else {
                pix[i]
            },
    )
}

/// Painting no positions changes nothing.
pub proof fn lemma_paint_pts_empty(pix: Seq<Rgba>, pts: Seq<(i32, i32)>, w: int, col: Rgba)
    requires
        pts.len() == 0,
    ensures
        paint_pts(pix, pts, w, col) == pix,
{
    assert(paint_pts(pix, pts, w, col) =~= pix);
}

/// Painting one more position is one pixel update.
pub proof fn lemma_paint_pts_step(
    pix: Seq<Rgba>,
    pts: Seq<(i32, i32)>,
    n: int,
    w: int,
    col: Rgba,
)
    requires
        0 <= n < pts.len(),
        0 <= flat_index(pts[n], w) < pix.len(),
    ensures
        paint_pts(pix, pts.take(n + 1), w, col) == paint_pts(pix, pts.take(n), w, col).update(
            flat_index(pts[n], w),
            col,
        ),
{
    let lhs = paint_pts(pix, pts.take(n + 1), w, col);
    let rhs = paint_pts(pix, pts.take(n), w, col).update(flat_index(pts[n], w), col);
    assert forall|i: int| 0 <= i < pix.len() implies lhs[i] == rhs[i] by {
        if i == flat_index(pts[n], w) {
            assert(pts.take(n + 1)[n] == pts[n]);
            assert(flat_index(pts.take(n + 1)[n], w) == i);
            assert(exists|k: int|
                0 <= k < pts.take(n + 1).len() && #[trigger] flat_index(pts.take(n + 1)[k], w)
                    == i);
        } else {
            if exists|k: int|
                0 <= k < pts.take(n + 1).len() && #[trigger] flat_index(pts.take(n + 1)[k], w)
                    == i {
                let k = choose|k: int|
                    0 <= k < pts.take(n + 1).len() && #[trigger] flat_index(pts.take(n + 1)[k], w)
                        == i;
                assert(k != n);
                assert(pts.take(n)[k] == pts.take(n + 1)[k]);
                assert(flat_index(pts.take(n)[k], w) == i);
                assert(exists|k2: int|
                    0 <= k2 < pts.take(n).len() && #[trigger] flat_index(pts.take(n)[k2], w)
                        == i);
            } else {
                if exists|k: int|
                    0 <= k < pts.take(n).len() && #[trigger] flat_index(pts.take(n)[k], w)
                        == i {
                    let k = choose|k: int|
                        0 <= k < pts.take(n).len() && #[trigger] flat_index(pts.take(n)[k], w)
                            == i;
                    assert(pts.take(n + 1)[k] == pts.take(n)[k]);
                    assert(flat_index(pts.take(n + 1)[k], w) == i);
                }
            }
        }
    }
    assert(lhs =~= rhs);
}

/// The points of the line from `a` to `b` that fall inside a `w x h`
/// viewport, in line order.
pub open spec fn clipped_line(a: (i32, i32), b: (i32, i32), w: int, h: int) -> Seq<(i32, i32)> {
    line_seq(a, b).filter(|p: (i32, i32)| in_rect(p, w, h))
}

impl<I, B: PixelBufMut> Bitmap<I, B> {
    /// Draw a line from `a` to `b` in the current stroke colour,
    /// clipping any pixels out of bounds; with no stroke set this is
    /// a no-op.
    pub fn line(&mut self, a: (i32, i32), b: (i32, i32))
        requires
            old(self).wf(),
            within_limit(a),
            within_limit(b),
        ensures
            final(self).wf(),
            final(self).same_frame(*old(self)),
            match old(self).stroke {
                Some(col) => final(self).pix() == paint_pts(
                    old(self).pix(),
                    clipped_line(a, b, old(self).spec_width(), old(self).spec_height()),
                    old(self).spec_width(),
                    col,
                ),
                None => final(self).pix() == old(self).pix(),
            },
    {
        proof {
            self.lemma_wf_pix_len();
        }
        match self.stroke {
            None => {},
            Some(col) => {
                let size = self.size();
                let pts = line_points_bounded(a, b, size);
                let ghost w = self.spec_width();
                let ghost h = self.spec_height();
                let ghost pix0 = self.pix();
                let mut n: usize = 0;
                proof {
                    lemma_paint_pts_empty(pix0, pts@.take(0), w, col);
                    assert(pts@.take(0) =~= pts@.take(0));
                }
                while n < pts.len()
                    invariant
                        self.wf(),
                        self.same_frame(*old(self)),
                        self.stroke == Some(col),
                        w == self.spec_width(),
                        h == self.spec_height(),
                        self.pix().len() == pix0.len(),
                        pix0.len() == w * h,
                        n <= pts@.len(),
                        pts@ == clipped_line(a, b, w, h),
                        forall|i: int| 0 <= i < pts@.len() ==> in_rect(pts@[i], w, h),
                        self.pix() == paint_pts(pix0, pts@.take(n as int), w, col),
                    decreases pts@.len() - n,
                {
                    let p = pts[n];
                    proof {
                        crate::bitmap::lemma_pix_index_in_range(p.0 as int, p.1 as int, w, h);
                        lemma_paint_pts_step(pix0, pts@, n as int, w, col);
                    }
                    self.set(p, col);
                    n = n + 1;
                }
                proof {
                    assert(pts@.take(pts@.len() as int) =~= pts@);
                }
            },
        }
    }
}

/// `pix` with every pixel whose position lies in the triangle
/// `a b c` and inside the `w x h` viewport repainted `col`.
pub open spec fn paint_triangle(
    pix: Seq<Rgba>,
    a: (i32, i32),
    b: (i32, i32),
    c: (i32, i32),
    w: int,
    h: int,
    col: Rgba,
) -> Seq<Rgba> {
    Seq::new(
        pix.len(),
        |i: int|
            if exists|p: (i32, i32)|
                #![trigger in_triangle(p, a, b, c)]
                in_triangle(p, a, b, c) && in_rect(p, w, h) && flat_index(p, w) == i {
                col
            } else {
                pix[i]
            },
    )
}

/// The exact pixels of a `triangle` call: the interior first (when a
/// fill colour is set), then the three clipped edges in the stroke
/// colour (when one is set).
pub open spec fn triangle_render(
    pix: Seq<Rgba>,
    a: (i32, i32),
    b: (i32, i32),
    c: (i32, i32),
    w: int,
    h: int,
    fill: Option<Rgba>,
    stroke: Option<Rgba>,
) -> Seq<Rgba> {
    let filled = match fill {
        Some(f) => paint_triangle(pix, a, b, c, w, h, f),
        None => pix,
    };
    match stroke {
        Some(s) => paint_pts(
            paint_pts(
                paint_pts(filled, clipped_line(a, b, w, h), w, s),
                clipped_line(b, c, w, h),
                w,
                s,
            ),
            clipped_line(c, a, w, h),
            w,
            s,
        ),
        None => filled,
    }
}

impl<I, B: PixelBufMut> Bitmap<I, B> {
    /// Draw a triangle with vertices `a`, `b` and `c`, clipping any
    /// pixels out of bounds: the interior is filled with the current
    /// fill colour, then the edges are drawn in the current stroke
    /// colour; either part is skipped when its colour is unset.
    pub fn triangle(&mut self, a: (i32, i32), b: (i32, i32), c: (i32, i32))
        requires
            old(self).wf(),
            within_limit(a),
            within_limit(b),
            within_limit(c),
        ensures
            final(self).wf(),
            final(self).same_frame(*old(self)),
            final(self).pix() == triangle_render(
                old(self).pix(),
                a,
                b,
                c,
                old(self).spec_width(),
                old(self).spec_height(),
                old(self).fill,
                old(self).stroke,
            ),
    {
        proof {
            self.lemma_wf_pix_len();
        }
        let ghost w = self.spec_width();
        let ghost h = self.spec_height();
        let ghost pix0 = self.pix();
        match self.fill {
            None => {},
            Some(f) => {
                let pts = triangle_points([a, b, c], self.size());
                let mut n: usize = 0;
                let ghost pos = pts@.map_values(|pr: ((i32, i32), Bary)| pr.0);
                proof {
                    lemma_paint_pts_empty(pix0, pos.take(0), w, f);
                }
                while n < pts.len()
                    invariant
                        self.wf(),
                        self.same_frame(*old(self)),
                        w == self.spec_width(),
                        h == self.spec_height(),
                        self.pix().len() == pix0.len(),
                        pix0.len() == w * h,
                        n <= pts@.len(),
                        pos == pts@.map_values(|pr: ((i32, i32), Bary)| pr.0),
                        forall|k: int|
                            #![trigger pts@[k]]
                            0 <= k < pts@.len() ==> in_triangle(pts@[k].0, a, b, c) && in_rect(
                                pts@[k].0,
                                w,
                                h,
                            ),
                        self.pix() == paint_pts(pix0, pos.take(n as int), w, f),
                    decreases pts@.len() - n,
                {
                    let p = pts[n].0;
                    proof {
                        assert(pos[n as int] == pts@[n as int].0);
                        crate::bitmap::lemma_pix_index_in_range(p.0 as int, p.1 as int, w, h);
                        lemma_paint_pts_step(pix0, pos, n as int, w, f);
                    }
                    self.set(p, f);
                    n = n + 1;
                }
                proof {
                    assert(pos.take(pos.len() as int) =~= pos);
                    // Painting the listed points is painting the
                    // triangle: the list holds exactly the in-bounds
                    // triangle points.
                    let lhs = paint_pts(pix0, pos, w, f);
                    let rhs = paint_triangle(pix0, a, b, c, w, h, f);
                    assert forall|i: int| 0 <= i < pix0.len() implies lhs[i] == rhs[i] by {
                        if exists|k: int| 0 <= k < pos.len() && #[trigger] flat_index(pos[k], w)
                            == i {
                            let k = choose|k: int|
                                0 <= k < pos.len() && #[trigger] flat_index(pos[k], w) == i;
                            assert(pos[k] == pts@[k].0);
                            assert(in_triangle(pos[k], a, b, c) && in_rect(pos[k], w, h));
                        } else {
                            if exists|p: (i32, i32)|
                                #![trigger in_triangle(p, a, b, c)]
                                in_triangle(p, a, b, c) && in_rect(p, w, h) && flat_index(p, w)
                                    == i {
                                let p = choose|p: (i32, i32)|
                                    #![trigger in_triangle(p, a, b, c)]
                                    in_triangle(p, a, b, c) && in_rect(p, w, h) && flat_index(
                                        p,
                                        w,
                                    ) == i;
                                let k = choose|k: int| 0 <= k < pts@.len() && pts@[k].0 == p;
                                assert(pos[k] == p);
                                assert(flat_index(pos[k], w) == i);
                            }
                        }
                    }
                    assert(lhs =~= rhs);
                }
            },
        }
        self.line(a, b);
        self.line(b, c);
        self.line(c, a);
    }
}

/// One axis of rectangle clipping: returns the clamped start and the
/// clamped length.  A non-positive length means nothing survives.
pub open spec fn rect_clip(pos: int, siz: int, bound: int) -> (int, int) {
    let s1 = if pos < 0 {
        siz + pos
    } else {
        siz
    };
    let p1 = if pos < 0 {
        0
    } else {
        pos
    };
    let d = bound - (p1 + s1);
    let s2 = if d < 0 {
        s1 + d
    } else {
        s1
    };
    (p1, s2)
}

/// Whether flat index `i` on a surface `w` wide falls in the axis-
/// aligned region starting at `(x0, y0)` of extent `sx` by `sy`.
pub open spec fn in_region(i: int, x0: int, y0: int, sx: int, sy: int, w: int) -> bool {
    &&& y0 <= i / w < y0 + sy
    &&& x0 <= i % w < x0 + sx
}

/// `pix` with the axis-aligned region repainted `col`.
pub open spec fn paint_rect(
    pix: Seq<Rgba>,
    x0: int,
    y0: int,
    sx: int,
    sy: int,
    w: int,
    col: Rgba,
) -> Seq<Rgba> {
    Seq::new(
        pix.len(),
        |i: int|
            if in_region(i, x0, y0, sx, sy, w) {
                col
            } else {
                pix[i]
            },
    )
}

/// A flat index lies in the row segment `[y*w + x0, y*w + x0 + sx)`
/// exactly when its row is `y` and its column is in `[x0, x0 + sx)`.
proof fn lemma_row_segment(y: int, x0: int, sx: int, w: int, i: int)
    requires
        0 <= x0,
        0 < sx,
        x0 + sx <= w,
        0 <= y,
        0 <= i,
    ensures
        (y * w + x0 <= i < y * w + x0 + sx) <==> (i / w == y && x0 <= i % w < x0 + sx),
{
    assert(w > 0);
    vstd::arithmetic::div_mod::lemma_fundamental_div_mod(i, w);
    vstd::arithmetic::div_mod::lemma_mod_division_less_than_divisor(i, w);
    assert(w * y == y * w) by (nonlinear_arith)
    {
    }
    assert(w * (i / w) == (i / w) * w) by (nonlinear_arith)
    {
    }
    if y * w + x0 <= i < y * w + x0 + sx {
        let r = i - y * w;
        assert(i == y * w + r);
        vstd::arithmetic::div_mod::lemma_fundamental_div_mod_converse_div(i, w, y, r);
        vstd::arithmetic::div_mod::lemma_fundamental_div_mod_converse_mod(i, w, y, r);
    }
    if i / w == y && x0 <= i % w < x0 + sx {
        assert(i == w * (i / w) + i % w);
        assert(i == y * w + i % w);
    }
}

/// The exact pixels of a `rect` call on an already-clipped region:
/// the interior first (when a fill colour is set), then the four
/// edges as clipped lines in the stroke colour (when one is set).
pub open spec fn rect_render(
    pix: Seq<Rgba>,
    x0: int,
    y0: int,
    sx: int,
    sy: int,
    w: int,
    h: int,
    fill: Option<Rgba>,
    stroke: Option<Rgba>,
) -> Seq<Rgba> {
    let filled = match fill {
        Some(f) => paint_rect(pix, x0, y0, sx, sy, w, f),
        None => pix,
    };
    match stroke {
        Some(s) => {
            let top_l = ((x0 as i32, y0 as i32));
            let top_r = (((x0 + sx) as i32, y0 as i32));
            let btm_l = ((x0 as i32, (y0 + sy) as i32));
            let btm_r = (((x0 + sx) as i32, (y0 + sy) as i32));
            paint_pts(
                paint_pts(
                    paint_pts(
                        paint_pts(filled, clipped_line(top_l, top_r, w, h), w, s),
                        clipped_line(btm_l, btm_r, w, h),
                        w,
                        s,
                    ),
                    clipped_line(top_l, btm_l, w, h),
                    w,
                    s,
                ),
                clipped_line(top_r, btm_r, w, h),
                w,
                s,
            )
        },
        None => filled,
    }
}

impl<I, B: PixelBufMut> Bitmap<I, B> {
    /// Draw a rectangle with top-left corner `pos` and extent `siz`,
    /// clipped against the bitmap: the interior is filled row by row
    /// with the current fill colour (the first row by doubling fill,
    /// the rest copied from it), then the four edges are stroked.  A
    /// clip that collapses to nothing is a complete no-op.
    /// Fill the in-bounds region starting at `(x0u, y0u)` of extent
    /// `sxu` by `syu` with `f`: the first row by doubling fill, every
    /// other row copied from it in one bulk copy.
    fn fill_rect_rows(&mut self, x0u: usize, y0u: usize, sxu: usize, syu: usize, f: Rgba)
        requires
            old(self).wf(),
            sxu >= 1,
            syu >= 1,
            x0u + sxu <= old(self).spec_width(),
            y0u + syu <= old(self).spec_height(),
        ensures
            final(self).wf(),
            final(self).same_frame(*old(self)),
            final(self).pix() == paint_rect(
                old(self).pix(),
                x0u as int,
                y0u as int,
                sxu as int,
                syu as int,
                old(self).spec_width(),
                f,
            ),
    {
        proof {
            self.lemma_wf_pix_len();
        }
        let ghost w = self.spec_width();
        let ghost h = self.spec_height();
        let ghost pix0 = self.pix();
        let ghost x0: int = x0u as int;
        let ghost y0: int = y0u as int;
        let ghost sx: int = sxu as int;
        let ghost sy: int = syu as int;
        proof {
            crate::bitmap::lemma_pix_index_in_range(x0 as int, y0 as int, w, h);
            assert((y0 + 1) * w == y0 * w + w) by (nonlinear_arith)
            {
            }
            assert(y0 * w + x0 + sx <= y0 * w + w <= (h - 1) * w + w) by (nonlinear_arith)
                requires
                    x0 + sx <= w,
                    y0 <= h - 1,
                    w >= 0,
            {
            }
            assert((h - 1) * w + w == h * w && h * w == w * h) by (nonlinear_arith)
            {
            }
        }
        // Fill the first row with the doubling fill.
        let row_start = y0u * self.size.w + x0u;
        self.buf.fill_range(row_start, row_start + sxu, f);
        proof {
            let one = paint_rect(pix0, x0 as int, y0 as int, sx as int, 1, w, f);
            assert forall|i: int| 0 <= i < pix0.len() implies self.pix()[i] == one[i] by {
                lemma_row_segment(y0 as int, x0 as int, sx as int, w, i);
            }
            assert(self.pix() =~= one);
        }
        // Copy the first row onto every other row.
        let mut y: usize = y0u + 1;
        while y < y0u + syu
            invariant
                self.wf(),
                self.same_frame(*old(self)),
                w == self.spec_width(),
                h == self.spec_height(),
                self.pix().len() == pix0.len(),
                pix0.len() == w * h,
                0 <= x0 as int,
                x0 as int + sx as int <= w,
                0 < sx as int,
                0 < sy as int,
                y0 as int + sy as int <= h,
                x0u == x0 as int,
                y0u == y0 as int,
                sxu == sx as int,
                syu == sy as int,
                row_start == y0 as int * w + x0 as int,
                y0u < y <= y0u + syu,
                self.pix() == paint_rect(
                    pix0,
                    x0 as int,
                    y0 as int,
                    sx as int,
                    y - y0 as int,
                    w,
                    f,
                ),
            decreases y0u + syu - y,
        {
            proof {
                crate::bitmap::lemma_pix_index_in_range(x0 as int, y as int, w, h);
                assert(y as int * w + x0 as int + sx <= y as int * w + w && (y as int + 1)
                    * w == y as int * w + w) by (nonlinear_arith)
                    requires
                        x0 as int + sx <= w,
                {
                }
                assert((y as int + 1) * w <= h * w && h * w == w * h) by (nonlinear_arith)
                    requires
                        y as int + 1 <= h,
                        w >= 0,
                {
                }
                // The source row y0 lies strictly before row y.
                assert(y0 as int * w + x0 as int + sx <= (y0 as int + 1) * w && (y0 as int
                    + 1) * w <= y as int * w) by (nonlinear_arith)
                    requires
                        x0 as int + sx <= w,
                        y0 as int + 1 <= y as int,
                        w >= 0,
                {
                }
            }
            let dst = y * self.size.w + x0u;
            self.buf.copy_range(dst, row_start, sxu);
            proof {
                let prev = paint_rect(pix0, x0 as int, y0 as int, sx as int, y - y0, w, f);
                let next = paint_rect(
                    pix0,
                    x0 as int,
                    y0 as int,
                    sx as int,
                    y + 1 - y0,
                    w,
                    f,
                );
                assert forall|i: int| 0 <= i < pix0.len() implies self.pix()[i]
                    == next[i] by {
                    lemma_row_segment(y as int, x0 as int, sx as int, w, i);
                    if y as int * w + x0 <= i < y as int * w + x0 + sx {
                        let j = row_start + (i - (y as int * w + x0));
                        lemma_row_segment(y0 as int, x0 as int, sx as int, w, j);
                        assert(prev[j] == f);
                    }
                }
                assert(self.pix() =~= next);
            }
            y = y + 1;
        }

        proof {
            assert(self.pix() =~= paint_rect(pix0, x0, y0, sx, sy, w, f));
        }
    }

    #[verifier::rlimit(100)]
    pub fn rect(&mut self, pos: (i32, i32), siz: (i32, i32))
        requires
            old(self).wf(),
            old(self).spec_width() <= crate::bresenham::COORD_LIMIT as int,
            old(self).spec_height() <= crate::bresenham::COORD_LIMIT as int,
        ensures
            final(self).wf(),
            final(self).same_frame(*old(self)),
            ({
                let cx = rect_clip(pos.0 as int, siz.0 as int, old(self).spec_width());
                let cy = rect_clip(pos.1 as int, siz.1 as int, old(self).spec_height());
                if cx.1 <= 0 || cy.1 <= 0 {
                    final(self).pix() == old(self).pix()
                } else {
                    final(self).pix() == rect_render(
                        old(self).pix(),
                        cx.0,
                        cy.0,
                        cx.1,
                        cy.1,
                        old(self).spec_width(),
                        old(self).spec_height(),
                        old(self).fill,
                        old(self).stroke,
                    )
                }
            }),
    {
        proof {
            self.lemma_wf_pix_len();
        }
        let ghost w = self.spec_width();
        let ghost h = self.spec_height();
        let ghost pix0 = self.pix();
        let wi = self.size.w as i64;
        let hi = self.size.h as i64;
        // Clip against the top-left corner, then the bottom-right.
        let px = pos.0 as i64;
        let py = pos.1 as i64;
        let mut sx = siz.0 as i64;
        let mut sy = siz.1 as i64;
        if px < 0 {
            sx = sx + px;
        }
        if py < 0 {
            sy = sy + py;
        }
        let x0 = if px < 0 {
            0
        } else {
            px
        };
        let y0 = if py < 0 {
            0
        } else {
            py
        };
        let dx = wi - (x0 + sx);
        if dx < 0 {
            sx = sx + dx;
        }
        let dy = hi - (y0 + sy);
        if dy < 0 {
            sy = sy + dy;
        }
        proof {
            assert(x0 == rect_clip(pos.0 as int, siz.0 as int, w).0);
            assert(sx == rect_clip(pos.0 as int, siz.0 as int, w).1);
            assert(y0 == rect_clip(pos.1 as int, siz.1 as int, h).0);
            assert(sy == rect_clip(pos.1 as int, siz.1 as int, h).1);
        }
        // An empty clipped rectangle: nothing at all is drawn.
        if sx <= 0 || sy <= 0 {
            return ;
        }
        let x0u = x0 as usize;
        let y0u = y0 as usize;
        let sxu = sx as usize;
        let syu = sy as usize;
        match self.fill {
            None => {},
            Some(f) => {
                self.fill_rect_rows(x0u, y0u, sxu, syu, f);
            },
        }
        // Stroke the four clipped edges.
        match self.stroke {
            None => {},
            Some(_s) => {
                let top_l = (x0 as i32, y0 as i32);
                let top_r = ((x0 + sx) as i32, y0 as i32);
                let btm_l = (x0 as i32, (y0 + sy) as i32);
                let btm_r = ((x0 + sx) as i32, (y0 + sy) as i32);
                self.line(top_l, top_r);
                self.line(btm_l, btm_r);
                self.line(top_l, btm_l);
                self.line(top_r, btm_r);
            },
        }
    }
}

/// The visible source range on one axis of a blit: source positions
/// `[lo, hi)` survive clipping against both the source extent
/// `s_len` and the destination extent `d_len` at offset `pos`.
pub open spec fn blit_clip(pos: int, s_len: int, d_len: int) -> (int, int) {
    let lo0 = if pos < 0 {
        -pos
    } else {
        0
    };
    let lo = if lo0 > s_len {
        s_len
    } else {
        lo0
    };
    let hi = if pos + s_len > d_len {
        d_len - pos
    } else {
        s_len
    };
    (lo, hi)
}

/// The exact pixels of blitting `src` (of extent `sw x sh`) onto
/// `dst` (of extent `dw x dh`) at offset `(px, py)`: every visible
/// destination pixel takes the corresponding source pixel, everything
/// else is untouched.
pub open spec fn blit_render(
    dst: Seq<Rgba>,
    src: Seq<Rgba>,
    px: int,
    py: int,
    sw: int,
    sh: int,
    dw: int,
    dh: int,
) -> Seq<Rgba> {
    let cx = blit_clip(px, sw, dw);
    let cy = blit_clip(py, sh, dh);
    Seq::new(
        dst.len(),
        |i: int|
            {
                let sx = i % dw - px;
                let sy = i / dw - py;
                if cx.0 <= sx < cx.1 && cy.0 <= sy < cy.1 {
                    src[sy * sw + sx]
                } else {
                    dst[i]
                }
            },
    )
}

impl<I, B: PixelBufMut> Bitmap<I, B> {
    /// Paste another bitmap on top of this one at offset `pos`,
    /// clipping against both bitmaps' bounds, one bulk row copy per
    /// visible row.  The source bitmap is untouched; an empty overlap
    /// is a no-op.
    pub fn image<J, C: PixelBuf>(&mut self, src: &Bitmap<J, C>, pos: (i32, i32))
        requires
            old(self).wf(),
            src.wf(),
        ensures
            final(self).wf(),
            final(self).same_frame(*old(self)),
            final(self).pix() == blit_render(
                old(self).pix(),
                src.pix(),
                pos.0 as int,
                pos.1 as int,
                src.spec_width(),
                src.spec_height(),
                old(self).spec_width(),
                old(self).spec_height(),
            ),
    {
        proof {
            self.lemma_wf_pix_len();
            src.lemma_wf_pix_len();
        }
        let ghost dw = self.spec_width();
        let ghost dh = self.spec_height();
        let ghost sw = src.spec_width();
        let ghost sh = src.spec_height();
        let ghost pix0 = self.pix();
        let px = pos.0 as i64;
        let py = pos.1 as i64;
        let swi = src.size.w as i64;
        let shi = src.size.h as i64;
        let dwi = self.size.w as i64;
        let dhi = self.size.h as i64;
        let sx0a = if px < 0 {
            -px
        } else {
            0
        };
        let sx0 = if sx0a > swi {
            swi
        } else {
            sx0a
        };
        let sx1 = if px + swi > dwi {
            dwi - px
        } else {
            swi
        };
        let sy0a = if py < 0 {
            -py
        } else {
            0
        };
        let sy0 = if sy0a > shi {
            shi
        } else {
            sy0a
        };
        let sy1 = if py + shi > dhi {
            dhi - py
        } else {
            shi
        };
        proof {
            assert(sx0 == blit_clip(pos.0 as int, sw, dw).0);
            assert(sx1 == blit_clip(pos.0 as int, sw, dw).1);
            assert(sy0 == blit_clip(pos.1 as int, sh, dh).0);
            assert(sy1 == blit_clip(pos.1 as int, sh, dh).1);
        }
        // Nothing visible to copy.
        if sx1 <= sx0 || sy1 <= sy0 {
            proof {
                assert(self.pix() =~= blit_render(
                    pix0,
                    src.pix(),
                    pos.0 as int,
                    pos.1 as int,
                    sw,
                    sh,
                    dw,
                    dh,
                ));
            }
            return ;
        }
        let ghost target = blit_render(
            pix0,
            src.pix(),
            pos.0 as int,
            pos.1 as int,
            sw,
            sh,
            dw,
            dh,
        );
        let sx0u = sx0 as usize;
        let sx1u = sx1 as usize;
        let mut sy = sy0 as usize;
        while sy < sy1 as usize
            invariant
                self.wf(),
                self.same_frame(*old(self)),
                src.wf(),
                dw == self.spec_width(),
                dh == self.spec_height(),
                sw == src.spec_width(),
                sh == src.spec_height(),
                self.pix().len() == pix0.len(),
                pix0.len() == dw * dh,
                src.pix().len() == sw * sh,
                px == pos.0 as int,
                py == pos.1 as int,
                sx0 == blit_clip(px as int, sw, dw).0,
                sx1 == blit_clip(px as int, sw, dw).1,
                sy0 == blit_clip(py as int, sh, dh).0,
                sy1 == blit_clip(py as int, sh, dh).1,
                sx0 < sx1,
                sy0 < sy1,
                0 <= sx0,
                sx1 <= sw,
                sx1 + px <= dw,
                0 <= sx0 + px,
                0 <= sy0,
                sy1 <= sh,
                sy1 + py <= dh,
                0 <= sy0 + py,
                sx0u == sx0 as int,
                sx1u == sx1 as int,
                sy0 as int <= sy <= sy1 as int,
                target == blit_render(pix0, src.pix(), px as int, py as int, sw, sh, dw, dh),
                forall|i: int|
                    0 <= i < pix0.len() ==> self.pix()[i] == if i / dw - py < sy {
                        target[i]
                    } else {
                        pix0[i]
                    },
            decreases sy1 - sy,
        {
            proof {
                assert(sy as int * sw + sx1 <= (sy as int + 1) * sw && (sy as int + 1) * sw == sy
                    as int * sw + sw && 0 <= sy as int * sw) by (nonlinear_arith)
                    requires
                        sx1 <= sw,
                        0 <= sy as int,
                        0 <= sw,
                {
                }
                assert((sy as int + 1) * sw <= sh * sw && sh * sw == sw * sh) by (nonlinear_arith)
                    requires
                        sy as int + 1 <= sh,
                        0 <= sw,
                {
                }
            }
            let row = src.buf.row(sy, src.size.w, src.size.h);
            proof {
                assert(row@ == src.pix().subrange(sy as int * sw, (sy as int + 1) * sw));
                assert(row@.len() == (sy as int + 1) * sw - sy as int * sw);
                assert(row@.len() == sw);
            }
            let seg = vstd::slice::slice_subrange(row, sx0u, sx1u);
            proof {
                assert forall|j: int| 0 <= j < seg@.len() implies seg@[j] == src.pix()[sy as int
                    * sw + sx0 + j] by {
                    assert(seg@[j] == row@[sx0 + j]);
                    assert(row@[sx0 + j] == src.pix().subrange(
                        sy as int * sw,
                        (sy as int + 1) * sw,
                    )[sx0 + j]);
                    assert(src.pix().subrange(sy as int * sw, (sy as int + 1) * sw)[sx0 + j]
                        == src.pix()[sy as int * sw + (sx0 + j)]);
                }
            }
            let dy = ((sy as i64) + py) as usize;
            proof {
                assert(0 <= sy as int + py < dh);
                assert((sy as int + py) * dw + px + sx1 <= (sy as int + py) * dw + dw)
                    by (nonlinear_arith)
                    requires
                        px + sx1 <= dw,
                {
                }
                assert((sy as int + py) * dw + dw == (sy as int + py + 1) * dw)
                    by (nonlinear_arith)
                {
                }
                assert((sy as int + py + 1) * dw <= dh * dw && dh * dw == dw * dh)
                    by (nonlinear_arith)
                    requires
                        sy as int + py + 1 <= dh,
                        dw >= 0,
                {
                }
                assert(0 <= (sy as int + py) * dw) by (nonlinear_arith)
                    requires
                        0 <= sy as int + py,
                        0 <= dw,
                {
                }
            }
            let dst_start = dy * self.size.w + ((px + sx0) as usize);
            let ghost before = self.pix();
            self.buf.write_range(dst_start, seg);
            proof {
                assert forall|i: int| 0 <= i < pix0.len() implies self.pix()[i] == (if i / dw - py
                    < sy + 1 {
                    target[i]
                } else {
                    pix0[i]
                }) by {
                    lemma_row_segment(sy as int + py, px + sx0, sx1 - sx0, dw, i);
                    if dst_start <= i < dst_start + (sx1 - sx0) {
                        assert(i / dw == sy as int + py);
                        assert(px + sx0 <= i % dw < px + sx1);
                        vstd::arithmetic::div_mod::lemma_fundamental_div_mod(i, dw);
                        assert(dw * (i / dw) == (i / dw) * dw) by (nonlinear_arith)
                        {
                        }
                        assert(self.pix()[i] == seg@[i - dst_start]);
                        assert(seg@[i - dst_start] == src.pix()[sy as int * sw + sx0 + (i
                            - dst_start)]);
                        assert(sy as int * sw + sx0 + (i - dst_start) == (i / dw - py) * sw + (i
                            % dw - px)) by (nonlinear_arith)
                            requires
                                i / dw == sy as int + py,
                                dst_start == (sy as int + py) * dw + px + sx0,
                                i == (i / dw) * dw + i % dw,
                        {
                        }
                        assert(target[i] == src.pix()[(i / dw - py) * sw + (i % dw - px)]);
                    } else {
                        assert(self.pix()[i] == before[i]);
                        if i / dw - py == sy {
                            assert(!(px + sx0 <= i % dw < px + sx1));
                            assert(target[i] == pix0[i]);
                        }
                    }
                }
            }
            sy = sy + 1;
        }
        proof {
            assert forall|i: int| 0 <= i < pix0.len() implies self.pix()[i] == target[i] by {
                if !(i / dw - py < sy1) {
                    assert(target[i] == pix0[i]);
                }
            }
            assert(self.pix() =~= target);
        }
    }

    /// Historical alias of [`Bitmap::image`]: paste another bitmap on
    /// top of this one with the same, fully clipped behaviour.
    pub fn paste<J, C: PixelBuf>(&mut self, pos: (i32, i32), src: &Bitmap<J, C>)
        requires
            old(self).wf(),
            src.wf(),
        ensures
            final(self).wf(),
            final(self).same_frame(*old(self)),
            final(self).pix() == blit_render(
                old(self).pix(),
                src.pix(),
                pos.0 as int,
                pos.1 as int,
                src.spec_width(),
                src.spec_height(),
                old(self).spec_width(),
                old(self).spec_height(),
            ),
    {
        self.image(src, pos)
    }
}

} // verus!
