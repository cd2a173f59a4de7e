//! The triangle rasterizer: bounding box plus barycentric test.
//!
//! A point lies in a triangle exactly when its barycentric coordinates
//! relative to the three vertices are all non-negative.  Everything
//! here works on exact integer cross products — the coordinates are
//! kept unreduced as numerators over the signed double area
//! [`tri_den`], so no division happens and a degenerate (zero-area)
//! triangle simply contains no points.  [`Triangle`] scans the
//! clamped bounding box in row-major order and yields the points that
//! pass the test.

use vstd::prelude::*;

use crate::bresenham::in_rect;
use crate::math::Extent2;

verus! {

/// The 2D cross product of `p - o` with `q - o`: positive when `o`,
/// `p`, `q` wind counter-clockwise.
pub open spec fn cross(o: (i32, i32), p: (i32, i32), q: (i32, i32)) -> int {
    (p.0 - o.0) * (q.1 - o.1) - (q.0 - o.0) * (p.1 - o.1)
}

/// Twice the signed area of the triangle `a b c`: the barycentric
/// denominator.  Zero exactly for degenerate triangles.
pub open spec fn tri_den(a: (i32, i32), b: (i32, i32), c: (i32, i32)) -> int {
    cross(a, b, c)
}

/// The unreduced second barycentric coordinate of `p`: its weight on
/// vertex `b`, scaled by [`tri_den`].
pub open spec fn bary_v_num(p: (i32, i32), a: (i32, i32), b: (i32, i32), c: (i32, i32)) -> int {
    cross(a, p, c)
}

/// The unreduced third barycentric coordinate of `p`: its weight on
/// vertex `c`, scaled by [`tri_den`].
pub open spec fn bary_w_num(p: (i32, i32), a: (i32, i32), b: (i32, i32), c: (i32, i32)) -> int {
    cross(a, b, p)
}

/// Whether `p` lies inside (or on the boundary of) the triangle
/// `a b c`: all three barycentric coordinates are at least zero.
/// Degenerate triangles contain nothing.
pub open spec fn in_triangle(p: (i32, i32), a: (i32, i32), b: (i32, i32), c: (i32, i32)) -> bool {
    let d = tri_den(a, b, c);
    let v = bary_v_num(p, a, b, c);
    let w = bary_w_num(p, a, b, c);
    if d > 0 {
        v >= 0 && w >= 0 && v + w <= d
    } else if d < 0 {
        v <= 0 && w <= 0 && v + w >= d
    } else {
        false
    }
}

/// Exact barycentric coordinates of a point relative to a triangle,
/// kept as integer numerators over the signed double area `den`.
/// The first coordinate's numerator is `den - v_num - w_num`.
#[derive(Clone, Copy, Debug, PartialEq, Eq, Structural)]
pub struct Bary {
    /// The barycentric denominator: twice the triangle's signed area.
    pub den: i128,
    /// Numerator of the weight on the second vertex.
    pub v_num: i128,
    /// Numerator of the weight on the third vertex.
    pub w_num: i128,
}

/// The barycentric coordinates of `p` in the triangle `a b c`.
pub open spec fn bary_of(p: (i32, i32), a: (i32, i32), b: (i32, i32), c: (i32, i32)) -> Bary {
    Bary {
        den: tri_den(a, b, c) as i128,
        v_num: bary_v_num(p, a, b, c) as i128,
        w_num: bary_w_num(p, a, b, c) as i128,
    }
}

/// Bounds under which [`Bary`] arithmetic cannot overflow; every
/// `i32` triangle satisfies them (see [`lemma_bary_bounds`]).
pub open spec fn bary_bounded(b: Bary) -> bool {
    &&& -0x2_0000_0000_0000_0000 <= b.den <= 0x2_0000_0000_0000_0000
    &&& -0x2_0000_0000_0000_0000 <= b.v_num <= 0x2_0000_0000_0000_0000
    &&& -0x2_0000_0000_0000_0000 <= b.w_num <= 0x2_0000_0000_0000_0000
}

impl Bary {
    /// Numerator of the weight on the first vertex.
    pub fn u_num(&self) -> (r: i128)
        requires
            bary_bounded(*self),
        ensures
            r == self.den - self.v_num - self.w_num,
    {
        self.den - self.v_num - self.w_num
    }

    /// Whether these coordinates mark a point inside the triangle:
    /// all three weights share the denominator's sign (and the
    /// triangle is not degenerate).
    pub fn is_inside(&self) -> (r: bool)
        requires
            bary_bounded(*self),
        ensures
            r == if self.den > 0 {
                self.v_num >= 0 && self.w_num >= 0 && self.v_num + self.w_num <= self.den
            } else if self.den < 0 {
                self.v_num <= 0 && self.w_num <= 0 && self.v_num + self.w_num >= self.den
            } else {
                false
            },
    {
        if self.den > 0 {
            self.v_num >= 0 && self.w_num >= 0 && self.v_num + self.w_num <= self.den
        } else if self.den < 0 {
            self.v_num <= 0 && self.w_num <= 0 && self.v_num + self.w_num >= self.den
        } else {
            false
        }
    }
}

/// Conversion into barycentric coordinates relative to a triangle of
/// vertices `tri`.
pub trait Barycentric {
    /// Convert this point into its barycentric coordinates in the
    /// triangle composed of vertices `tri[0]`, `tri[1]`, `tri[2]`.
    fn into_barycentric(self, tri: [(i32, i32); 3]) -> (r: Bary);
}

impl Barycentric for (i32, i32) {
    /// The exact integer barycentric coordinates of `self`, by
    /// Cramer's rule on the triangle's edge vectors.
    fn into_barycentric(self, tri: [(i32, i32); 3]) -> (r: Bary)
        ensures
            r == bary_of(self, tri[0], tri[1], tri[2]),
    {
        let a = tri[0];
        let b = tri[1];
        let c = tri[2];
        bary_compute(self, a, b, c)
    }
}

/// Compute [`bary_of`] with overflow-free 128-bit arithmetic.
pub fn bary_compute(p: (i32, i32), a: (i32, i32), b: (i32, i32), c: (i32, i32)) -> (r: Bary)
    ensures
        r == bary_of(p, a, b, c),
{
    let v0x = b.0 as i64 - a.0 as i64;
    let v0y = b.1 as i64 - a.1 as i64;
    let v1x = c.0 as i64 - a.0 as i64;
    let v1y = c.1 as i64 - a.1 as i64;
    let v2x = p.0 as i64 - a.0 as i64;
    let v2y = p.1 as i64 - a.1 as i64;
    proof {
        lemma_mul_of_diffs(v0x as int, v1y as int);
        lemma_mul_of_diffs(v1x as int, v0y as int);
        lemma_mul_of_diffs(v2x as int, v1y as int);
        lemma_mul_of_diffs(v1x as int, v2y as int);
        lemma_mul_of_diffs(v0x as int, v2y as int);
        lemma_mul_of_diffs(v2x as int, v0y as int);
    }
    let den = v0x as i128 * v1y as i128 - v1x as i128 * v0y as i128;
    let v_num = v2x as i128 * v1y as i128 - v1x as i128 * v2y as i128;
    let w_num = v0x as i128 * v2y as i128 - v2x as i128 * v0y as i128;
    Bary { den, v_num, w_num }
}

/// A product of two differences of `i32` values fits in 65 bits.
proof fn lemma_mul_of_diffs(x: int, y: int) by (nonlinear_arith)
    requires
        -0x1_0000_0000 <= x <= 0x1_0000_0000,
        -0x1_0000_0000 <= y <= 0x1_0000_0000,
    ensures
        -0x1_0000_0000_0000_0000 <= x * y <= 0x1_0000_0000_0000_0000,
{
}

/// The coordinates of any `i32` triangle satisfy [`bary_bounded`]:
/// each cross product is a difference of two products of 33-bit
/// quantities.
pub proof fn lemma_bary_bounds(p: (i32, i32), a: (i32, i32), b: (i32, i32), c: (i32, i32))
    ensures
        bary_bounded(bary_of(p, a, b, c)),
        bary_of(p, a, b, c).den as int == tri_den(a, b, c),
        bary_of(p, a, b, c).v_num as int == bary_v_num(p, a, b, c),
        bary_of(p, a, b, c).w_num as int == bary_w_num(p, a, b, c),
{
    lemma_cross_bound(a, b, c);
    lemma_cross_bound(a, p, c);
    lemma_cross_bound(a, b, p);
}

/// Any cross product of `i32` points fits well inside `i128`.
proof fn lemma_cross_bound(o: (i32, i32), p: (i32, i32), q: (i32, i32))
    ensures
        -0x2_0000_0000_0000_0000 <= cross(o, p, q) <= 0x2_0000_0000_0000_0000,
{
    assert(-0x1_0000_0000_0000_0000 <= (p.0 - o.0) * (q.1 - o.1) <= 0x1_0000_0000_0000_0000)
        by (nonlinear_arith)
        requires
            -0x1_0000_0000 <= p.0 - o.0 <= 0x1_0000_0000,
            -0x1_0000_0000 <= q.1 - o.1 <= 0x1_0000_0000,
    {
    }
    assert(-0x1_0000_0000_0000_0000 <= (q.0 - o.0) * (p.1 - o.1) <= 0x1_0000_0000_0000_0000)
        by (nonlinear_arith)
        requires
            -0x1_0000_0000 <= q.0 - o.0 <= 0x1_0000_0000,
            -0x1_0000_0000 <= p.1 - o.1 <= 0x1_0000_0000,
    {
    }
}

/// A point of the triangle lies inside the vertices' bounding box:
/// barycentric weights form a convex combination, so each coordinate
/// of `p` sits between the smallest and largest vertex coordinate.
pub proof fn lemma_triangle_in_vertex_box(
    p: (i32, i32),
    a: (i32, i32),
    b: (i32, i32),
    c: (i32, i32),
)
    requires
        in_triangle(p, a, b, c),
    ensures
        vstd::math::min(vstd::math::min(a.0 as int, b.0 as int), c.0 as int) <= p.0 as int,
        p.0 as int <= vstd::math::max(vstd::math::max(a.0 as int, b.0 as int), c.0 as int),
        vstd::math::min(vstd::math::min(a.1 as int, b.1 as int), c.1 as int) <= p.1 as int,
        p.1 as int <= vstd::math::max(vstd::math::max(a.1 as int, b.1 as int), c.1 as int),
{
    let d = tri_den(a, b, c);
    let v = bary_v_num(p, a, b, c);
    let w = bary_w_num(p, a, b, c);
    let u = d - v - w;
    let bxd = b.0 - a.0;
    let byd = b.1 - a.1;
    let cxd = c.0 - a.0;
    let cyd = c.1 - a.1;
    let pxd = p.0 - a.0;
    let pyd = p.1 - a.1;
    // The defining identity of barycentric coordinates, in vertex-
    // relative form: the weighted edge vectors reconstruct the point.
    assert(v * bxd + w * cxd == d * pxd) by (nonlinear_arith)
        requires
            d == bxd * cyd - cxd * byd,
            v == pxd * cyd - cxd * pyd,
            w == bxd * pyd - pxd * byd,
    {
    }
    assert(v * byd + w * cyd == d * pyd) by (nonlinear_arith)
        requires
            d == bxd * cyd - cxd * byd,
            v == pxd * cyd - cxd * pyd,
            w == bxd * pyd - pxd * byd,
    {
    }
    // Translate back to absolute coordinates.
    assert(d * p.0 == u * a.0 + v * b.0 + w * c.0) by (nonlinear_arith)
        requires
            v * (b.0 - a.0) + w * (c.0 - a.0) == d * (p.0 - a.0),
            u == d - v - w,
    {
    }
    assert(d * p.1 == u * a.1 + v * b.1 + w * c.1) by (nonlinear_arith)
        requires
            v * (b.1 - a.1) + w * (c.1 - a.1) == d * (p.1 - a.1),
            u == d - v - w,
    {
    }
    if d > 0 {
        lemma_convex_bound(d, u, v, w, p.0 as int, a.0 as int, b.0 as int, c.0 as int);
        lemma_convex_bound(d, u, v, w, p.1 as int, a.1 as int, b.1 as int, c.1 as int);
    } else {
        assert((-d) * p.0 == (-u) * a.0 + (-v) * b.0 + (-w) * c.0) by (nonlinear_arith)
            requires
                d * p.0 == u * a.0 + v * b.0 + w * c.0,
        {
        }
        assert((-d) * p.1 == (-u) * a.1 + (-v) * b.1 + (-w) * c.1) by (nonlinear_arith)
            requires
                d * p.1 == u * a.1 + v * b.1 + w * c.1,
        {
        }
        lemma_convex_bound(-d, -u, -v, -w, p.0 as int, a.0 as int, b.0 as int, c.0 as int);
        lemma_convex_bound(-d, -u, -v, -w, p.1 as int, a.1 as int, b.1 as int, c.1 as int);
    }
}

/// A weighted average with non-negative weights lies between the
/// smallest and largest of its inputs.
proof fn lemma_convex_bound(d: int, u: int, v: int, w: int, x: int, xa: int, xb: int, xc: int)
    requires
        d > 0,
        u >= 0,
        v >= 0,
        w >= 0,
        u + v + w == d,
        d * x == u * xa + v * xb + w * xc,
    ensures
        vstd::math::min(vstd::math::min(xa, xb), xc) <= x,
        x <= vstd::math::max(vstd::math::max(xa, xb), xc),
{
    let lo = vstd::math::min(vstd::math::min(xa, xb), xc);
    let hi = vstd::math::max(vstd::math::max(xa, xb), xc);
    assert(d * lo <= d * x <= d * hi) by (nonlinear_arith)
        requires
            u >= 0,
            v >= 0,
            w >= 0,
            u + v + w == d,
            d * x == u * xa + v * xb + w * xc,
            lo <= xa <= hi,
            lo <= xb <= hi,
            lo <= xc <= hi,
    {
    }
    assert(lo <= x <= hi) by (nonlinear_arith)
        requires
            d > 0,
            d * lo <= d * x <= d * hi,
    {
    }
}

/// Row-major scan order: `p` is visited strictly before `q`.
pub open spec fn scan_lt(p: (i32, i32), q: (i32, i32)) -> bool {
    p.1 < q.1 || (p.1 == q.1 && p.0 < q.0)
}

/// Iterator that rasterizes a triangle: every integer point of the
/// clamped bounding box is visited in row-major order and yielded,
/// with its barycentric coordinates, when it lies in the triangle.
pub struct Triangle {
    /// Current scan position.
    pub cur: (i32, i32),
    /// First vertex.
    pub pa: (i32, i32),
    /// Second vertex.
    pub pb: (i32, i32),
    /// Third vertex.
    pub pc: (i32, i32),
    /// Top-left corner of the clamped bounding box.
    pub min: (i32, i32),
    /// Bottom-right corner of the clamped bounding box, inclusive.
    pub max: (i32, i32),
}

/// Run-time safety of a scan state: the box corners are ordered, sit
/// in the non-negative `i32` range, and the cursor is inside the box
/// (or just past its last row).
pub open spec fn tri_wf(s: Triangle) -> bool {
    &&& 0 <= s.min.0 && 0 <= s.min.1
    &&& s.min.0 <= s.max.0
    &&& s.max.0 <= 0x7fff_fffe && s.max.1 <= 0x7fff_fffe
    &&& s.min.0 <= s.cur.0 <= s.max.0
    &&& s.min.1 <= s.cur.1 <= s.max.1 + 1
}

/// Whether the scan has passed the last row.
pub open spec fn tri_done(s: Triangle) -> bool {
    s.cur.1 > s.max.1
}

/// One step of the scan: right along the row, wrapping to the start
/// of the next row after the last column.
pub open spec fn tri_step(s: Triangle) -> Triangle {
    if s.cur.0 >= s.max.0 {
        Triangle { cur: (s.min.0, (s.cur.1 + 1) as i32), ..s }
    } else {
        Triangle { cur: ((s.cur.0 + 1) as i32, s.cur.1), ..s }
    }
}

/// Every point this iterator will still yield, in scan order.
pub open spec fn tri_emits(s: Triangle) -> Seq<(i32, i32)>
    decreases s.max.1 + 1 - s.cur.1, s.max.0 + 1 - s.cur.0,
        when tri_wf(s)
{
    if tri_done(s) {
        Seq::empty()
    } else if in_triangle(s.cur, s.pa, s.pb, s.pc) {
        seq![s.cur] + tri_emits(tri_step(s))
    } else {
        tri_emits(tri_step(s))
    }
}

/// What the scan yields: exactly the in-triangle points of the box
/// that the cursor has not passed, in strictly increasing scan order.
pub proof fn lemma_tri_emits_props(s: Triangle)
    requires
        tri_wf(s),
    ensures
        forall|k: int|
            #![trigger tri_emits(s)[k]]
            0 <= k < tri_emits(s).len() ==> in_triangle(tri_emits(s)[k], s.pa, s.pb, s.pc)
                && s.min.0 <= tri_emits(s)[k].0 <= s.max.0 && s.min.1 <= tri_emits(s)[k].1
                <= s.max.1 && !scan_lt(tri_emits(s)[k], s.cur),
        forall|q: (i32, i32)|
            #![trigger in_triangle(q, s.pa, s.pb, s.pc)]
            (in_triangle(q, s.pa, s.pb, s.pc) && s.min.0 <= q.0 <= s.max.0 && s.min.1 <= q.1
                <= s.max.1 && !scan_lt(q, s.cur)) ==> tri_emits(s).contains(q),
        forall|i: int, j: int|
            0 <= i < j < tri_emits(s).len() ==> scan_lt(tri_emits(s)[i], tri_emits(s)[j]),
    decreases s.max.1 + 1 - s.cur.1, s.max.0 + 1 - s.cur.0,
{
    if tri_done(s) {
        assert forall|q: (i32, i32)|
            (in_triangle(q, s.pa, s.pb, s.pc) && s.min.0 <= q.0 <= s.max.0 && s.min.1 <= q.1
                <= s.max.1 && !scan_lt(q, s.cur)) implies tri_emits(s).contains(q) by {
            assert(q.1 <= s.max.1 < s.cur.1);
            assert(scan_lt(q, s.cur));
        }
    } else {
        let nxt = tri_step(s);
        lemma_tri_emits_props(nxt);
        // The cursor only moves forward in scan order, so "at or
        // after the stepped cursor" implies "at or after the old".
        assert(scan_lt(s.cur, nxt.cur));
        // A point at or after the old cursor that is not the cursor
        // itself is at or after the stepped cursor.
        assert forall|q: (i32, i32)|
            (s.min.0 <= q.0 <= s.max.0 && s.min.1 <= q.1 <= s.max.1 && !scan_lt(q, s.cur) && q
                != s.cur) implies !scan_lt(q, nxt.cur) by {}
        if in_triangle(s.cur, s.pa, s.pb, s.pc) {
            let e = tri_emits(s);
            let rest = tri_emits(nxt);
            assert(e == seq![s.cur] + rest);
            assert(e[0] == s.cur);
            assert forall|k: int| 0 < k < e.len() implies e[k] == rest[k - 1] by {}
            assert forall|k: int| 0 <= k < e.len() implies in_triangle(e[k], s.pa, s.pb, s.pc)
                && s.min.0 <= e[k].0 <= s.max.0 && s.min.1 <= e[k].1 <= s.max.1 && !scan_lt(
                e[k],
                s.cur,
            ) by {
                if k > 0 {
                    assert(e[k] == rest[k - 1]);
                    assert(!scan_lt(rest[k - 1], nxt.cur));
                }
            }
            assert forall|q: (i32, i32)|
                (in_triangle(q, s.pa, s.pb, s.pc) && s.min.0 <= q.0 <= s.max.0 && s.min.1 <= q.1
                    <= s.max.1 && !scan_lt(q, s.cur)) implies tri_emits(s).contains(q) by {
                if q == s.cur {
                    assert(e[0] == q);
                } else {
                    assert(rest.contains(q));
                    let k = choose|k: int| 0 <= k < rest.len() && rest[k] == q;
                    assert(e[k + 1] == q);
                }
            }
            assert forall|i: int, j: int| 0 <= i < j < e.len() implies scan_lt(e[i], e[j]) by {
                if i == 0 {
                    assert(e[j] == rest[j - 1]);
                    assert(!scan_lt(rest[j - 1], nxt.cur));
                } else {
                    assert(e[i] == rest[i - 1] && e[j] == rest[j - 1]);
                }
            }
        } else {
            let e = tri_emits(s);
            let rest = tri_emits(nxt);
            assert(e == rest);
            assert forall|k: int| 0 <= k < e.len() implies in_triangle(e[k], s.pa, s.pb, s.pc)
                && s.min.0 <= e[k].0 <= s.max.0 && s.min.1 <= e[k].1 <= s.max.1 && !scan_lt(
                e[k],
                s.cur,
            ) by {
                assert(e[k] == rest[k]);
                assert(!scan_lt(rest[k], nxt.cur));
            }
            assert forall|q: (i32, i32)|
                (in_triangle(q, s.pa, s.pb, s.pc) && s.min.0 <= q.0 <= s.max.0 && s.min.1 <= q.1
                    <= s.max.1 && !scan_lt(q, s.cur)) implies tri_emits(s).contains(q) by {
                assert(q != s.cur);
                assert(rest.contains(q));
                let k = choose|k: int| 0 <= k < rest.len() && rest[k] == q;
                assert(e[k] == q);
            }
            assert forall|i: int, j: int| 0 <= i < j < e.len() implies scan_lt(e[i], e[j]) by {
                assert(e[i] == rest[i] && e[j] == rest[j]);
            }
        }
    }
}

/// What a freshly constructed scan will yield, stated against the
/// viewport: exactly the triangle's points inside `w x h`, in
/// strictly increasing scan order.
pub open spec fn tri_scan_spec(
    s: Triangle,
    a: (i32, i32),
    b: (i32, i32),
    c: (i32, i32),
    w: int,
    h: int,
) -> bool {
    &&& s.pa == a
    &&& s.pb == b
    &&& s.pc == c
    &&& forall|k: int|
        #![trigger tri_emits(s)[k]]
        0 <= k < tri_emits(s).len() ==> in_triangle(tri_emits(s)[k], a, b, c) && in_rect(
            tri_emits(s)[k],
            w,
            h,
        )
    &&& forall|q: (i32, i32)|
        #![trigger in_triangle(q, a, b, c)]
        (in_triangle(q, a, b, c) && in_rect(q, w, h)) ==> tri_emits(s).contains(q)
    &&& forall|i: int, j: int|
        0 <= i < j < tri_emits(s).len() ==> scan_lt(tri_emits(s)[i], tri_emits(s)[j])
}

impl Triangle {
    /// Create a new iterator over the points inside the triangle
    /// `pts`, skipping points out of the canvas's bounds.  `size` is
    /// higher-bound-exclusive.
    pub fn new_bounded(pts: [(i32, i32); 3], size: Extent2) -> (r: Triangle)
        requires
            size.w <= 0x7fff_ffff,
            size.h <= 0x7fff_ffff,
        ensures
            tri_wf(r),
            tri_scan_spec(r, pts[0], pts[1], pts[2], size.w as int, size.h as int),
    {
        let a = pts[0];
        let b = pts[1];
        let c = pts[2];
        if size.w == 0 || size.h == 0 {
            // An empty viewport: an already-exhausted scan.
            let r = Triangle { cur: (0, 0), pa: a, pb: b, pc: c, min: (0, 0), max: (0, -1) };
            proof {
                lemma_tri_emits_props(r);
            }
            return r;
        }
        let sx = size.w as i32 - 1;
        let sy = size.h as i32 - 1;
        // The bounding box of the vertices, clamped to the viewport.
        let vminx = if a.0 < b.0 && a.0 < c.0 {
            a.0
        } else if b.0 < c.0 {
            b.0
        } else {
            c.0
        };
        let vmaxx = if a.0 > b.0 && a.0 > c.0 {
            a.0
        } else if b.0 > c.0 {
            b.0
        } else {
            c.0
        };
        let vminy = if a.1 < b.1 && a.1 < c.1 {
            a.1
        } else if b.1 < c.1 {
            b.1
        } else {
            c.1
        };
        let vmaxy = if a.1 > b.1 && a.1 > c.1 {
            a.1
        } else if b.1 > c.1 {
            b.1
        } else {
            c.1
        };
        let minx = if vminx > sx {
            sx
        } else if vminx < 0 {
            0
        } else {
            vminx
        };
        let maxx0 = if vmaxx < 0 {
            0
        } else {
            vmaxx
        };
        let maxx = if maxx0 > sx {
            sx
        } else {
            maxx0
        };
        let miny = if vminy > sy {
            sy
        } else if vminy < 0 {
            0
        } else {
            vminy
        };
        let maxy0 = if vmaxy < 0 {
            0
        } else {
            vmaxy
        };
        let maxy = if maxy0 > sy {
            sy
        } else {
            maxy0
        };
        let r = Triangle { cur: (minx, miny), pa: a, pb: b, pc: c, min: (minx, miny), max: (
            maxx,
            maxy,
        ) };
        proof {
            lemma_tri_emits_props(r);
            // Everything the scan yields is inside the viewport.
            assert forall|k: int| 0 <= k < tri_emits(r).len() implies in_rect(
                tri_emits(r)[k],
                size.w as int,
                size.h as int,
            ) by {
                assert(r.min.0 <= tri_emits(r)[k].0 <= r.max.0);
                assert(r.min.1 <= tri_emits(r)[k].1 <= r.max.1);
            }
            // A triangle point inside the viewport lies in the
            // clamped box: convexity bounds it by the vertices, the
            // viewport bounds it by the clamp.
            assert forall|q: (i32, i32)|
                (in_triangle(q, a, b, c) && in_rect(q, size.w as int, size.h as int)) implies
            tri_emits(r).contains(q) by {
                lemma_triangle_in_vertex_box(q, a, b, c);
                assert(r.min.0 <= q.0 <= r.max.0 && r.min.1 <= q.1 <= r.max.1 && !scan_lt(
                    q,
                    r.cur,
                ));
            }
        }
        r
    }

    /// Create a new iterator over every point inside the triangle
    /// `pts`, bounded only by the `i32` coordinate range.
    pub fn new(pts: [(i32, i32); 3]) -> (r: Triangle)
        ensures
            tri_wf(r),
            tri_scan_spec(r, pts[0], pts[1], pts[2], 0x7fff_ffff, 0x7fff_ffff),
    {
        Self::new_bounded(pts, Extent2 { w: 0x7fff_ffff, h: 0x7fff_ffff })
    }

    /// Yield the next point inside the triangle together with its
    /// barycentric coordinates, or `None` once the scan is done.
    pub fn next(&mut self) -> (r: Option<((i32, i32), Bary)>)
        requires
            tri_wf(*old(self)),
        ensures
            tri_wf(*final(self)),
            final(self).pa == old(self).pa,
            final(self).pb == old(self).pb,
            final(self).pc == old(self).pc,
            final(self).min == old(self).min,
            final(self).max == old(self).max,
            match r {
                None => tri_emits(*old(self)) == Seq::<(i32, i32)>::empty() && tri_done(
                    *final(self),
                ),
                Some(pr) => {
                    &&& tri_emits(*old(self)) == seq![pr.0] + tri_emits(*final(self))
                    &&& pr.1 == bary_of(pr.0, old(self).pa, old(self).pb, old(self).pc)
                    &&& in_triangle(pr.0, old(self).pa, old(self).pb, old(self).pc)
                },
            },
    {
        loop
            invariant
                tri_wf(*self),
                self.pa == old(self).pa,
                self.pb == old(self).pb,
                self.pc == old(self).pc,
                self.min == old(self).min,
                self.max == old(self).max,
                tri_emits(*self) == tri_emits(*old(self)),
            decreases self.max.1 + 1 - self.cur.1, self.max.0 + 1 - self.cur.0,
        {
            if self.cur.1 > self.max.1 {
                return None;
            }
            let ghost prev = *self;
            let p = self.cur;
            // Step, either for the next call or for the next attempt.
            if self.cur.0 >= self.max.0 {
                self.cur = (self.min.0, self.cur.1 + 1);
            } else {
                self.cur = (self.cur.0 + 1, self.cur.1);
            }
            proof {
                assert(*self == tri_step(prev));
                lemma_bary_bounds(p, self.pa, self.pb, self.pc);
            }
            let bar = bary_compute(p, self.pa, self.pb, self.pc);
            if bar.is_inside() {
                proof {
                    assert(in_triangle(p, self.pa, self.pb, self.pc));
                    assert(tri_emits(prev) == seq![p] + tri_emits(*self));
                }
                return Some((p, bar));
            }
            proof {
                assert(!in_triangle(p, self.pa, self.pb, self.pc));
                assert(tri_emits(prev) == tri_emits(*self));
            }
        }
    }
}

/// The points of the triangle `pts` inside a `size` viewport at the
/// origin, in row-major order, each with its barycentric coordinates:
/// exactly the points `p` with `in_triangle(p, ...)` and
/// `in_rect(p, ...)`, each exactly once.
pub fn triangle_points(pts: [(i32, i32); 3], size: Extent2) -> (r: Vec<((i32, i32), Bary)>)
    requires
        size.w <= 0x7fff_ffff,
        size.h <= 0x7fff_ffff,
    ensures
        forall|k: int|
            #![trigger r@[k]]
            0 <= k < r@.len() ==> in_triangle(r@[k].0, pts[0], pts[1], pts[2]) && in_rect(
                r@[k].0,
                size.w as int,
                size.h as int,
            ) && r@[k].1 == bary_of(r@[k].0, pts[0], pts[1], pts[2]),
        forall|q: (i32, i32)|
            #![trigger in_triangle(q, pts[0], pts[1], pts[2])]
            (in_triangle(q, pts[0], pts[1], pts[2]) && in_rect(q, size.w as int, size.h as int))
                ==> exists|k: int| 0 <= k < r@.len() && r@[k].0 == q,
        forall|i: int, j: int| 0 <= i < j < r@.len() ==> scan_lt(r@[i].0, r@[j].0),
{
    let mut it = Triangle::new_bounded(pts, size);
    let ghost init = it;
    let mut out: Vec<((i32, i32), Bary)> = Vec::new();
    loop
        invariant
            tri_wf(it),
            it.pa == pts[0],
            it.pb == pts[1],
            it.pc == pts[2],
            tri_scan_spec(init, pts[0], pts[1], pts[2], size.w as int, size.h as int),
            out@.map_values(|pr: ((i32, i32), Bary)| pr.0) + tri_emits(it) == tri_emits(init),
            forall|k: int|
                #![trigger out@[k]]
                0 <= k < out@.len() ==> out@[k].1 == bary_of(out@[k].0, pts[0], pts[1], pts[2]),
        ensures
            out@.map_values(|pr: ((i32, i32), Bary)| pr.0) == tri_emits(init),
            forall|k: int|
                #![trigger out@[k]]
                0 <= k < out@.len() ==> out@[k].1 == bary_of(out@[k].0, pts[0], pts[1], pts[2]),
        decreases tri_emits(it).len(),
    {
        let ghost pos0 = out@.map_values(|pr: ((i32, i32), Bary)| pr.0);
        match it.next() {
            None => {
                proof {
                    assert(pos0 + tri_emits(it) =~= pos0);
                }
                break ;
            },
            Some(pr) => {
                out.push(pr);
                proof {
                    assert(out@.map_values(|prr: ((i32, i32), Bary)| prr.0) =~= pos0.push(pr.0));
                    assert(pos0.push(pr.0) + tri_emits(it) =~= pos0 + (seq![pr.0] + tri_emits(
                        it,
                    )));
                }
            },
        }
    }
    proof {
        let pos = out@.map_values(|pr: ((i32, i32), Bary)| pr.0);
        assert(pos == tri_emits(init));
        assert forall|k: int| 0 <= k < out@.len() implies in_triangle(
            out@[k].0,
            pts[0],
            pts[1],
            pts[2],
        ) && in_rect(out@[k].0, size.w as int, size.h as int) by {
            assert(pos[k] == out@[k].0);
            assert(tri_emits(init)[k] == pos[k]);
        }
        assert forall|q: (i32, i32)|
            (in_triangle(q, pts[0], pts[1], pts[2]) && in_rect(q, size.w as int, size.h as int))
                implies exists|k: int| 0 <= k < out@.len() && out@[k].0 == q by {
            assert(tri_emits(init).contains(q));
            let k = choose|k: int|
                0 <= k < tri_emits(init).len() && tri_emits(init)[k] == q;
            assert(pos[k] == q);
            assert(out@[k].0 == q);
        }
        assert forall|i: int, j: int| 0 <= i < j < out@.len() implies scan_lt(
            out@[i].0,
            out@[j].0,
        ) by {
            assert(pos[i] == out@[i].0 && pos[j] == out@[j].0);
            assert(scan_lt(tri_emits(init)[i], tri_emits(init)[j]));
        }
    }
    out
}

} // verus!
