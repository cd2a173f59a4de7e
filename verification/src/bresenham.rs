//! The line rasterizer: Bresenham's algorithm as a verified iterator.
//!
//! [`Bresenham`] steps through the exact integer points from `a` to
//! `b`, inclusive of both endpoints.  The point emitted at step `k`
//! has a closed form: after normalizing so the major axis runs left to
//! right, the minor coordinate at major offset `k` is the nearest
//! integer to `k * ady / dx` (ties away from the start), written here
//! with integer division as [`bres_m`].  The sequence is 8-connected,
//! free of repeats, and [`line_points_bounded`] filters it against a
//! bitmap's bounds.

use vstd::arithmetic::div_mod::{
    lemma_fundamental_div_mod, lemma_fundamental_div_mod_converse_div,
    lemma_mod_division_less_than_divisor,
};
use vstd::prelude::*;

use crate::math::{iabs, isign, Extent2};

verus! {

/// Coordinates accepted by the rasterizer.  Keeping endpoints within
/// this budget keeps every intermediate `i32` quantity (spans, doubled
/// error terms) clear of overflow.
pub const COORD_LIMIT: i32 = 300_000_000;

/// Whether a point's coordinates are within the rasterizer's budget.
pub open spec fn within_limit(p: (i32, i32)) -> bool {
    &&& -(COORD_LIMIT as int) <= p.0 <= COORD_LIMIT as int
    &&& -(COORD_LIMIT as int) <= p.1 <= COORD_LIMIT as int
}

/// Whether the line from `a` to `b` is steep: more vertical travel
/// than horizontal.  Steep lines iterate with the axes swapped.
pub open spec fn line_steep(a: (i32, i32), b: (i32, i32)) -> bool {
    iabs(a.0 - b.0) < iabs(a.1 - b.1)
}

/// Swap a point's components when `s` holds.
pub open spec fn flip_if(p: (int, int), s: bool) -> (int, int) {
    if s {
        (p.1, p.0)
    } else {
        p
    }
}

/// The endpoint with the smaller major coordinate, in swapped
/// (major, minor) space: iteration starts here.
pub open spec fn line_lo(a: (i32, i32), b: (i32, i32)) -> (int, int) {
    let a1 = flip_if((a.0 as int, a.1 as int), line_steep(a, b));
    let b1 = flip_if((b.0 as int, b.1 as int), line_steep(a, b));
    if a1.0 > b1.0 {
        b1
    } else {
        a1
    }
}

/// The endpoint with the larger major coordinate, in swapped
/// (major, minor) space: iteration ends here.
pub open spec fn line_hi(a: (i32, i32), b: (i32, i32)) -> (int, int) {
    let a1 = flip_if((a.0 as int, a.1 as int), line_steep(a, b));
    let b1 = flip_if((b.0 as int, b.1 as int), line_steep(a, b));
    if a1.0 > b1.0 {
        a1
    } else {
        b1
    }
}

/// The major-axis span of the line: `max(|dx|, |dy|)`, never negative.
pub open spec fn line_dx(a: (i32, i32), b: (i32, i32)) -> int {
    line_hi(a, b).0 - line_lo(a, b).0
}

/// The absolute minor-axis travel; at most [`line_dx`].
pub open spec fn line_ady(a: (i32, i32), b: (i32, i32)) -> int {
    iabs(line_hi(a, b).1 - line_lo(a, b).1)
}

/// The direction of minor-axis travel: `-1`, `0` or `1`.
pub open spec fn line_sy(a: (i32, i32), b: (i32, i32)) -> int {
    isign(line_hi(a, b).1 - line_lo(a, b).1)
}

/// How many minor-axis steps the rasterizer has taken after `k` major
/// steps: the error discipline makes this exactly
/// `floor((2*ady*k + dx - 1) / (2*dx))`, the rounding of `k*ady/dx`
/// with ties toward the far endpoint.
pub open spec fn bres_m(ady: int, dx: int, k: int) -> int {
    if dx <= 0 {
        0
    } else {
        (2 * ady * k + dx - 1) / (2 * dx)
    }
}

/// The `k`-th point of the line from `a` to `b`, back in (x, y) space.
pub open spec fn line_point(a: (i32, i32), b: (i32, i32), k: int) -> (int, int) {
    flip_if(
        (
            line_lo(a, b).0 + k,
            line_lo(a, b).1 + line_sy(a, b) * bres_m(line_ady(a, b), line_dx(a, b), k),
        ),
        line_steep(a, b),
    )
}

/// The number of points on the line: the major span plus one.
pub open spec fn line_len(a: (i32, i32), b: (i32, i32)) -> int {
    line_dx(a, b) + 1
}

/// The full point sequence of the line from `a` to `b`.
pub open spec fn line_seq(a: (i32, i32), b: (i32, i32)) -> Seq<(i32, i32)> {
    Seq::new(
        line_len(a, b) as nat,
        |k: int| (line_point(a, b, k).0 as i32, line_point(a, b, k).1 as i32),
    )
}

/// Whether `p` lies inside a `w x h` viewport anchored at the origin.
pub open spec fn in_rect(p: (i32, i32), w: int, h: int) -> bool {
    0 <= p.0 < w && 0 <= p.1 < h
}

/// The basic shape facts of the normalization: the span is the larger
/// absolute delta, minor travel never exceeds it, the two normalized
/// endpoints are `a` and `b` in some order, and the minor travel lands
/// exactly on the far endpoint.
pub proof fn lemma_line_norm(a: (i32, i32), b: (i32, i32))
    ensures
        line_dx(a, b) >= 0,
        0 <= line_ady(a, b) <= line_dx(a, b),
        line_dx(a, b) == vstd::math::max(iabs(a.0 - b.0), iabs(a.1 - b.1)),
        line_lo(a, b).1 + line_sy(a, b) * line_ady(a, b) == line_hi(a, b).1,
        (flip_if(line_lo(a, b), line_steep(a, b)) == (a.0 as int, a.1 as int) && flip_if(
            line_hi(a, b),
            line_steep(a, b),
        ) == (b.0 as int, b.1 as int)) || (flip_if(line_lo(a, b), line_steep(a, b)) == (
        b.0 as int,
        b.1 as int,
        ) && flip_if(line_hi(a, b), line_steep(a, b)) == (a.0 as int, a.1 as int)),
{
}

/// Division facts about [`bres_m`]: where the minor-step count sits
/// relative to the exact ratio.
proof fn lemma_m_val(ady: int, dx: int, k: int)
    requires
        1 <= dx,
        0 <= ady <= dx,
        0 <= k,
    ensures
        2 * dx * bres_m(ady, dx, k) <= 2 * ady * k + dx - 1,
        2 * ady * k + dx - 1 < 2 * dx * (bres_m(ady, dx, k) + 1),
{
    let x = 2 * ady * k + dx - 1;
    let d = 2 * dx;
    assert(x >= 0) by (nonlinear_arith)
        requires
            x == 2 * ady * k + dx - 1,
            ady >= 0,
            k >= 0,
            dx >= 1,
    {
    }
    lemma_fundamental_div_mod(x, d);
    lemma_mod_division_less_than_divisor(x, d);
    assert(d * (x / d) == 2 * dx * bres_m(ady, dx, k)) by (nonlinear_arith)
        requires
            x / d == bres_m(ady, dx, k),
            d == 2 * dx,
    {
    }
    assert(2 * dx * (bres_m(ady, dx, k) + 1) == 2 * dx * bres_m(ady, dx, k) + 2 * dx)
        by (nonlinear_arith)
    {
    }
}

/// The error-term characterization: any `m` whose residual error
/// `2*ady*k - 2*dx*m` lies in `(-dx, dx]` is the minor-step count.
proof fn lemma_m_unique(ady: int, dx: int, k: int, m: int)
    requires
        1 <= dx,
        0 <= ady <= dx,
        0 <= k,
        -dx < 2 * ady * k - 2 * dx * m,
        2 * ady * k - 2 * dx * m <= dx,
    ensures
        m == bres_m(ady, dx, k),
{
    let x = 2 * ady * k + dx - 1;
    let d = 2 * dx;
    let r = x - 2 * dx * m;
    assert(x == m * d + r) by (nonlinear_arith)
        requires
            r == x - 2 * dx * m,
            d == 2 * dx,
    {
    }
    assert(0 <= r < d);
    lemma_fundamental_div_mod_converse_div(x, d, m, r);
}

/// The minor-step count starts at zero, advances by zero or one with
/// each major step, and arrives at exactly `ady` at the far end.
pub proof fn lemma_m_props(ady: int, dx: int, k: int)
    requires
        1 <= dx,
        0 <= ady <= dx,
        0 <= k,
    ensures
        bres_m(ady, dx, 0) == 0,
        bres_m(ady, dx, dx) == ady,
        bres_m(ady, dx, k) <= bres_m(ady, dx, k + 1) <= bres_m(ady, dx, k) + 1,
        0 <= bres_m(ady, dx, k),
        k <= dx ==> bres_m(ady, dx, k) <= ady,
        k <= dx + 1 ==> bres_m(ady, dx, k) <= ady + 1,
{
    lemma_fundamental_div_mod_converse_div(dx - 1, 2 * dx, 0, dx - 1);
    assert(2 * ady * dx + dx - 1 == ady * (2 * dx) + (dx - 1)) by (nonlinear_arith)
    {
    }
    lemma_fundamental_div_mod_converse_div(2 * ady * dx + dx - 1, 2 * dx, ady, dx - 1);
    lemma_m_val(ady, dx, k);
    lemma_m_val(ady, dx, k + 1);
    let mk = bres_m(ady, dx, k);
    let mk1 = bres_m(ady, dx, k + 1);
    assert(2 * ady * (k + 1) == 2 * ady * k + 2 * ady) by (nonlinear_arith)
    {
    }
    // Advance by at most one: the numerator grows by 2*ady <= 2*dx.
    assert(mk <= mk1 <= mk + 1) by (nonlinear_arith)
        requires
            2 * dx * mk <= 2 * ady * k + dx - 1,
            2 * ady * k + dx - 1 < 2 * dx * (mk + 1),
            2 * dx * mk1 <= 2 * ady * k + 2 * ady + dx - 1,
            2 * ady * k + 2 * ady + dx - 1 < 2 * dx * (mk1 + 1),
            0 <= 2 * ady <= 2 * dx,
            dx >= 1,
    {
    }
    assert(0 <= mk) by (nonlinear_arith)
        requires
            2 * ady * k + dx - 1 < 2 * dx * (mk + 1),
            0 <= ady,
            0 <= k,
            dx >= 1,
    {
    }
    if k <= dx {
        // Monotonicity up to the endpoint value ady at k == dx.
        assert(mk <= ady) by (nonlinear_arith)
            requires
                2 * dx * mk <= 2 * ady * k + dx - 1,
                k <= dx,
                0 <= ady,
                dx >= 1,
        {
        }
    }
    if k <= dx + 1 {
        assert(mk <= ady + 1) by (nonlinear_arith)
            requires
                2 * dx * mk <= 2 * ady * k + dx - 1,
                k <= dx + 1,
                0 <= ady <= dx,
                dx >= 1,
        {
        }
    }
}

/// Iterator that traces lines point by point with Bresenham's
/// algorithm: integer error accumulation, no division at run time.
pub struct Bresenham {
    /// Current major coordinate (x once un-swapped, y on steep lines).
    pub cur_x: i32,
    /// Current minor coordinate.
    pub cur_y: i32,
    /// Major-axis span of the whole line; never negative.
    pub dx: i32,
    /// Minor-axis step direction: `-1`, `0` or `1`.
    pub dy: i32,
    /// Accumulated error, kept within `(-dx, dx]`.
    pub e: i32,
    /// Error increment per major step: twice the absolute minor delta.
    pub de: i32,
    /// Whether output points are (minor, major) swapped back.
    pub steep: bool,
    /// Last major coordinate, inclusive.
    pub end: i32,
}

/// Whether the iterator is exhausted.
pub open spec fn bres_done(s: Bresenham) -> bool {
    s.cur_x > s.end
}

/// The point a non-exhausted iterator emits next, in (x, y) space.
pub open spec fn bres_out(s: Bresenham) -> (i32, i32) {
    if s.steep {
        (s.cur_y, s.cur_x)
    } else {
        (s.cur_x, s.cur_y)
    }
}

/// One step of the iterator: bump the error, step the minor axis when
/// the error spills past `dx`, advance the major axis.
pub open spec fn bres_step(s: Bresenham) -> Bresenham {
    let e1 = s.e + s.de;
    if e1 > s.dx {
        Bresenham {
            cur_x: (s.cur_x + 1) as i32,
            cur_y: (s.cur_y + s.dy) as i32,
            e: (e1 - 2 * s.dx) as i32,
            ..s
        }
    } else {
        Bresenham { cur_x: (s.cur_x + 1) as i32, e: e1 as i32, ..s }
    }
}

/// Run-time safety of an iterator state: every quantity the stepping
/// arithmetic forms stays within `i32`.
pub open spec fn bres_wf(s: Bresenham) -> bool {
    &&& 0 <= s.dx <= 2 * COORD_LIMIT as int
    &&& 0 <= s.de <= 2 * s.dx
    &&& -s.dx <= s.e <= s.dx
    &&& -1 <= s.dy <= 1
    &&& -(COORD_LIMIT as int) <= s.end <= COORD_LIMIT as int
    &&& -(COORD_LIMIT as int) <= s.cur_x <= s.end + 1
    &&& -1_000_000_000 <= s.cur_y - (s.end + 1 - s.cur_x)
    &&& s.cur_y + (s.end + 1 - s.cur_x) <= 1_000_000_000
}

/// The full iterator invariant: the state is exactly what `k` steps
/// from the start of the line from `a` to `b` produce.
pub open spec fn bres_inv(s: Bresenham, a: (i32, i32), b: (i32, i32), k: int) -> bool {
    &&& within_limit(a)
    &&& within_limit(b)
    &&& 0 <= k <= line_dx(a, b) + 1
    &&& s.steep == line_steep(a, b)
    &&& s.dx == line_dx(a, b)
    &&& s.de == 2 * line_ady(a, b)
    &&& s.dy == line_sy(a, b)
    &&& s.end == line_lo(a, b).0 + line_dx(a, b)
    &&& s.cur_x == line_lo(a, b).0 + k
    &&& s.cur_y == line_lo(a, b).1 + line_sy(a, b) * bres_m(line_ady(a, b), line_dx(a, b), k)
    &&& s.e == 2 * line_ady(a, b) * k - 2 * line_dx(a, b) * bres_m(
        line_ady(a, b),
        line_dx(a, b),
        k,
    )
}

/// An iterator state on a line within the coordinate budget is safe
/// to step, emits the `k`-th closed-form point, and is exhausted
/// exactly past the far endpoint.
pub proof fn lemma_inv_wf(s: Bresenham, a: (i32, i32), b: (i32, i32), k: int)
    requires
        bres_inv(s, a, b, k),
    ensures
        bres_wf(s),
        bres_done(s) <==> k == line_dx(a, b) + 1,
        !bres_done(s) ==> bres_out(s) == (line_point(a, b, k).0 as i32, line_point(a, b, k).1 as i32)
            && bres_out(s).0 == line_point(a, b, k).0 && bres_out(s).1 == line_point(a, b, k).1,
{
    lemma_line_norm(a, b);
    let dx = line_dx(a, b);
    let ady = line_ady(a, b);
    let sy = line_sy(a, b);
    let lo = line_lo(a, b);
    let hi = line_hi(a, b);
    if dx == 0 {
        assert(ady == 0);
        assert(bres_m(ady, dx, k) == 0);
        assert(2 * ady * k == 0) by (nonlinear_arith)
            requires
                ady == 0,
        {
        }
    } else {
        lemma_m_props(ady, dx, k);
        let m = bres_m(ady, dx, k);
        lemma_m_val(ady, dx, k);
        // The error window follows from the division bounds.
        assert(-dx < 2 * ady * k - 2 * dx * m <= dx) by (nonlinear_arith)
            requires
                2 * dx * m <= 2 * ady * k + dx - 1,
                2 * ady * k + dx - 1 < 2 * dx * (m + 1),
                dx >= 1,
        {
        }
        // The minor coordinate stays between the two endpoints' minor
        // coordinates (give or take the single overshoot step).
        assert(0 <= m <= ady + 1);
        if sy == 1 {
            assert(lo.1 <= s.cur_y <= hi.1 + 1);
        } else if sy == -1 {
            assert(hi.1 - 1 <= s.cur_y <= lo.1);
        } else {
            assert(sy == 0 && ady == 0);
            assert(s.cur_y == lo.1);
        }
    }
}

/// Stepping a state that satisfies the invariant at `k` yields the
/// invariant at `k + 1`: the error-window argument that pins the
/// minor-step count to its closed form.
pub proof fn lemma_inv_step(s: Bresenham, a: (i32, i32), b: (i32, i32), k: int)
    requires
        bres_inv(s, a, b, k),
        k <= line_dx(a, b),
    ensures
        bres_inv(bres_step(s), a, b, k + 1),
{
    lemma_line_norm(a, b);
    lemma_inv_wf(s, a, b, k);
    let dx = line_dx(a, b);
    let ady = line_ady(a, b);
    let sy = line_sy(a, b);
    let m = bres_m(ady, dx, k);
    let e1 = s.e + s.de;
    if dx == 0 {
        assert(ady == 0 && s.de == 0 && s.e == 0);
        assert(bres_m(ady, dx, k) == 0 && bres_m(ady, dx, k + 1) == 0);
        assert(2 * ady * (k + 1) == 0) by (nonlinear_arith)
            requires
                ady == 0,
        {
        }
        assert(bres_inv(bres_step(s), a, b, k + 1));
    } else {
        lemma_m_props(ady, dx, k);
        assert(2 * ady * (k + 1) == 2 * ady * k + 2 * ady) by (nonlinear_arith)
        {
        }
        if e1 > s.dx {
            // The minor axis steps: the new error lands in the window
            // for m + 1, so the closed form at k + 1 is m + 1.
            let e2 = 2 * ady * (k + 1) - 2 * dx * (m + 1);
            assert(e2 == e1 - 2 * dx) by (nonlinear_arith)
                requires
                    e1 == 2 * ady * k - 2 * dx * m + 2 * ady,
                    e2 == 2 * ady * (k + 1) - 2 * dx * (m + 1),
                    2 * ady * (k + 1) == 2 * ady * k + 2 * ady,
            {
            }
            assert(-dx < e2 <= dx) by (nonlinear_arith)
                requires
                    e2 == e1 - 2 * dx,
                    e1 > dx,
                    e1 == s.e + s.de,
                    s.e <= dx,
                    s.de <= 2 * dx,
            {
            }
            lemma_m_unique(ady, dx, k + 1, m + 1);
            assert(sy * (m + 1) == sy * m + sy) by (nonlinear_arith)
            {
            }
        } else {
            // The minor axis holds: the old count still fits the
            // window at k + 1.
            let e2 = 2 * ady * (k + 1) - 2 * dx * m;
            assert(e2 == e1) by (nonlinear_arith)
                requires
                    e1 == 2 * ady * k - 2 * dx * m + 2 * ady,
                    e2 == 2 * ady * (k + 1) - 2 * dx * m,
                    2 * ady * (k + 1) == 2 * ady * k + 2 * ady,
            {
            }
            assert(-dx < e2 <= dx);
            lemma_m_unique(ady, dx, k + 1, m);
        }
    }
}

/// Every point this iterator will still emit, in order.
pub open spec fn bres_emits(s: Bresenham) -> Seq<(i32, i32)>
    decreases s.end - s.cur_x + 1,
        when s.end <= COORD_LIMIT
{
    if s.cur_x > s.end {
        Seq::empty()
    } else {
        seq![bres_out(s)] + bres_emits(bres_step(s))
    }
}

/// A state holding the invariant at `k` will emit exactly the tail of
/// the closed-form sequence from index `k` on.
pub proof fn lemma_inv_emits(s: Bresenham, a: (i32, i32), b: (i32, i32), k: int)
    requires
        bres_inv(s, a, b, k),
    ensures
        bres_emits(s) == line_seq(a, b).skip(k),
    decreases line_dx(a, b) + 1 - k,
{
    lemma_inv_wf(s, a, b, k);
    if bres_done(s) {
        assert(line_seq(a, b).skip(k).len() == 0);
        assert(bres_emits(s) == line_seq(a, b).skip(k));
    } else {
        lemma_inv_step(s, a, b, k);
        lemma_inv_emits(bres_step(s), a, b, k + 1);
        assert(line_seq(a, b).skip(k) == seq![line_seq(a, b)[k]] + line_seq(a, b).skip(k + 1)) by {
            assert(line_seq(a, b).skip(k) =~= seq![line_seq(a, b)[k]] + line_seq(a, b).skip(k + 1));
        }
    }
}

impl Bresenham {
    /// Create a new iterator that yields the points from `a` to `b`,
    /// inclusive of both endpoints.
    pub fn new(a: (i32, i32), b: (i32, i32)) -> (r: Bresenham)
        requires
            within_limit(a),
            within_limit(b),
        ensures
            bres_inv(r, a, b, 0),
            bres_emits(r) == line_seq(a, b),
    {
        proof {
            lemma_line_norm(a, b);
        }
        let mut ax = a.0;
        let mut ay = a.1;
        let mut bx = b.0;
        let mut by = b.1;
        // Swap axes on steep lines so the loop always walks the major
        // axis.
        let adx = if ax - bx < 0 {
            -(ax - bx)
        } else {
            ax - bx
        };
        let ady0 = if ay - by < 0 {
            -(ay - by)
        } else {
            ay - by
        };
        let steep = adx < ady0;
        if steep {
            let t = ax;
            ax = ay;
            ay = t;
            let u = bx;
            bx = by;
            by = u;
        }
        // Always start from the endpoint with the lower major
        // coordinate.
        if ax > bx {
            let t = ax;
            ax = bx;
            bx = t;
            let u = ay;
            ay = by;
            by = u;
        }
        let d_x = bx - ax;
        let d_y = by - ay;
        let dy = if d_y < 0 {
            -1
        } else if d_y > 0 {
            1
        } else {
            0
        };
        let ad_y = if d_y < 0 {
            -d_y
        } else {
            d_y
        };
        let de = 2 * ad_y;
        let r = Bresenham { cur_x: ax, cur_y: ay, dx: d_x, dy, e: 0, de, steep, end: bx };
        proof {
            if line_dx(a, b) > 0 {
                lemma_m_props(line_ady(a, b), line_dx(a, b), 0);
            }
            assert(line_sy(a, b) * bres_m(line_ady(a, b), line_dx(a, b), 0) == 0)
                by (nonlinear_arith)
                requires
                    bres_m(line_ady(a, b), line_dx(a, b), 0) == 0,
            {
            }
            assert(2 * line_ady(a, b) * 0 == 0) by (nonlinear_arith)
            {
            }
            assert(2 * line_dx(a, b) * bres_m(line_ady(a, b), line_dx(a, b), 0) == 0)
                by (nonlinear_arith)
                requires
                    bres_m(line_ady(a, b), line_dx(a, b), 0) == 0,
            {
            }
            assert(bres_inv(r, a, b, 0));
            lemma_inv_emits(r, a, b, 0);
            assert(line_seq(a, b).skip(0) =~= line_seq(a, b));
        }
        r
    }

    /// Yield the next point of the line, or `None` once past the far
    /// endpoint.
    pub fn next(&mut self) -> (r: Option<(i32, i32)>)
        requires
            bres_wf(*old(self)),
        ensures
            bres_wf(*final(self)),
            bres_done(*old(self)) ==> r is None && *final(self) == *old(self),
            !bres_done(*old(self)) ==> r == Some(bres_out(*old(self))) && *final(self) == bres_step(
                *old(self),
            ),
    {
        if self.cur_x > self.end {
            None
        } else {
            let out = if self.steep {
                (self.cur_y, self.cur_x)
            } else {
                (self.cur_x, self.cur_y)
            };
            self.e = self.e + self.de;
            if self.e > self.dx {
                self.cur_y = self.cur_y + self.dy;
                self.e = self.e - 2 * self.dx;
            }
            self.cur_x = self.cur_x + 1;
            Some(out)
        }
    }
}

/// The exact point sequence of the line from `a` to `b`, inclusive of
/// both endpoints: index `k` holds the closed-form `k`-th Bresenham
/// point.
pub fn line_points(a: (i32, i32), b: (i32, i32)) -> (r: Vec<(i32, i32)>)
    requires
        within_limit(a),
        within_limit(b),
    ensures
        r@ == line_seq(a, b),
        r@.len() == line_len(a, b),
{
    let mut it = Bresenham::new(a, b);
    let mut out: Vec<(i32, i32)> = Vec::new();
    loop
        invariant
            bres_inv(it, a, b, out@.len() as int),
            out@.len() <= line_len(a, b),
            out@ == line_seq(a, b).take(out@.len() as int),
        ensures
            out@ == line_seq(a, b),
        decreases line_len(a, b) - out@.len(),
    {
        let ghost it0 = it;
        let ghost n = out@.len() as int;
        proof {
            lemma_inv_wf(it0, a, b, n);
        }
        match it.next() {
            None => {
                proof {
                    assert(n == line_len(a, b));
                    assert(line_seq(a, b).take(n) =~= line_seq(a, b));
                }
                break ;
            },
            Some(p) => {
                proof {
                    lemma_inv_step(it0, a, b, n);
                }
                out.push(p);
                proof {
                    assert(out@ =~= line_seq(a, b).take(n + 1));
                }
            },
        }
    }
    proof {
        lemma_line_norm(a, b);
    }
    out
}

/// Filtering a one-longer sequence keeps or drops exactly the new
/// last element.
pub proof fn lemma_filter_push<A>(s: Seq<A>, x: A, pred: spec_fn(A) -> bool)
    ensures
        s.push(x).filter(pred) == if pred(x) {
            s.filter(pred).push(x)
        } else {
            s.filter(pred)
        },
{
    reveal(Seq::filter);
    assert(s.push(x).drop_last() =~= s);
    assert(s.push(x).last() == x);
}

/// The closed-form points of a line within the coordinate budget fit
/// `i32`, so the sequence entries are the points themselves.
pub proof fn lemma_line_point_range(a: (i32, i32), b: (i32, i32), k: int)
    requires
        within_limit(a),
        within_limit(b),
        0 <= k <= line_dx(a, b),
    ensures
        -(COORD_LIMIT as int) <= line_point(a, b, k).0 <= COORD_LIMIT as int,
        -(COORD_LIMIT as int) <= line_point(a, b, k).1 <= COORD_LIMIT as int,
        line_seq(a, b)[k].0 == line_point(a, b, k).0,
        line_seq(a, b)[k].1 == line_point(a, b, k).1,
{
    lemma_line_norm(a, b);
    let dx = line_dx(a, b);
    let ady = line_ady(a, b);
    let sy = line_sy(a, b);
    let lo = line_lo(a, b);
    let hi = line_hi(a, b);
    if dx == 0 {
        assert(bres_m(ady, dx, k) == 0);
        assert(sy * 0 == 0) by (nonlinear_arith)
        {
        }
    } else {
        lemma_m_props(ady, dx, k);
        let m = bres_m(ady, dx, k);
        assert(0 <= m <= ady);
        if sy == 1 {
            assert(lo.1 <= lo.1 + sy * m <= hi.1);
        } else if sy == -1 {
            assert(hi.1 <= lo.1 + sy * m <= lo.1);
        } else {
            assert(ady == 0 && m == 0);
            assert(sy * m == 0) by (nonlinear_arith)
                requires
                    sy == 0,
            {
            }
        }
    }
}

/// Both endpoints are on the line: the sequence starts at one of
/// `a`, `b` and ends at the other.
pub proof fn lemma_line_endpoints(a: (i32, i32), b: (i32, i32))
    requires
        within_limit(a),
        within_limit(b),
    ensures
        line_seq(a, b).len() >= 1,
        (line_seq(a, b).first() == a && line_seq(a, b).last() == b) || (line_seq(a, b).first() == b
            && line_seq(a, b).last() == a),
        line_seq(a, b).contains(a),
        line_seq(a, b).contains(b),
{
    lemma_line_norm(a, b);
    let dx = line_dx(a, b);
    let ady = line_ady(a, b);
    let sy = line_sy(a, b);
    let lo = line_lo(a, b);
    let hi = line_hi(a, b);
    lemma_line_point_range(a, b, 0);
    lemma_line_point_range(a, b, dx);
    if dx == 0 {
        assert(sy * bres_m(ady, dx, 0) == 0) by (nonlinear_arith)
            requires
                bres_m(ady, dx, 0) == 0,
        {
        }
    } else {
        lemma_m_props(ady, dx, 0);
        lemma_m_props(ady, dx, dx);
        assert(sy * bres_m(ady, dx, 0) == 0) by (nonlinear_arith)
            requires
                bres_m(ady, dx, 0) == 0,
        {
        }
    }
    assert(line_point(a, b, 0) == flip_if(lo, line_steep(a, b)));
    assert(line_point(a, b, dx) == flip_if(hi, line_steep(a, b)));
    assert(line_seq(a, b)[0] == line_seq(a, b).first());
    assert(line_seq(a, b)[line_seq(a, b).len() - 1] == line_seq(a, b).last());
}

/// Consecutive points of the line are 8-adjacent and distinct: each
/// axis moves by at most one, and the major axis always moves.
pub proof fn lemma_line_adjacent(a: (i32, i32), b: (i32, i32), k: int)
    requires
        within_limit(a),
        within_limit(b),
        0 <= k,
        k + 1 < line_seq(a, b).len(),
    ensures
        iabs(line_seq(a, b)[k + 1].0 - line_seq(a, b)[k].0) <= 1,
        iabs(line_seq(a, b)[k + 1].1 - line_seq(a, b)[k].1) <= 1,
        line_seq(a, b)[k + 1] != line_seq(a, b)[k],
{
    lemma_line_norm(a, b);
    let dx = line_dx(a, b);
    let ady = line_ady(a, b);
    let sy = line_sy(a, b);
    lemma_line_point_range(a, b, k);
    lemma_line_point_range(a, b, k + 1);
    if dx == 0 {
        assert(false);
    } else {
        lemma_m_props(ady, dx, k);
        let m = bres_m(ady, dx, k);
        let m1 = bres_m(ady, dx, k + 1);
        assert(m <= m1 <= m + 1);
        assert(sy * m1 - sy * m == sy * (m1 - m)) by (nonlinear_arith)
        {
        }
        assert(iabs(sy * (m1 - m)) <= 1) by (nonlinear_arith)
            requires
                -1 <= sy <= 1,
                0 <= m1 - m <= 1,
        {
        }
    }
}

/// No point of the line repeats: the major coordinate is strictly
/// monotone.
pub proof fn lemma_line_no_repeat(a: (i32, i32), b: (i32, i32), i: int, j: int)
    requires
        within_limit(a),
        within_limit(b),
        0 <= i < j < line_seq(a, b).len(),
    ensures
        line_seq(a, b)[i] != line_seq(a, b)[j],
{
    lemma_line_norm(a, b);
    lemma_line_point_range(a, b, i);
    lemma_line_point_range(a, b, j);
    assert(line_point(a, b, i).0 != line_point(a, b, j).0 || line_point(a, b, i).1 != line_point(
        a,
        b,
        j,
    ).1);
}

/// A line iterator clipped to a viewport: out-of-bounds points are
/// filtered away, truncating the line at the viewport edge rather
/// than clamping it.
pub struct BresenhamBounded {
    /// The unclipped iterator.
    pub inner: Bresenham,
    /// Viewport width, exclusive upper bound on x.
    pub w: i32,
    /// Viewport height, exclusive upper bound on y.
    pub h: i32,
}

impl Bresenham {
    /// Create a new iterator that yields points from `a` to `b`,
    /// inclusive, skipping points outside the canvas's bounds.
    /// `size` is a higher-bound-exclusive viewport at the origin.
    pub fn new_bounded(a: (i32, i32), b: (i32, i32), size: Extent2) -> (r: BresenhamBounded)
        requires
            within_limit(a),
            within_limit(b),
            size.w <= 0x7fff_ffff,
            size.h <= 0x7fff_ffff,
        ensures
            bres_wf(r.inner),
            r.w == size.w,
            r.h == size.h,
            bres_emits(r.inner).filter(|p: (i32, i32)| in_rect(p, size.w as int, size.h as int))
                == line_seq(a, b).filter(
                |p: (i32, i32)| in_rect(p, size.w as int, size.h as int),
            ),
    {
        let inner = Bresenham::new(a, b);
        proof {
            lemma_inv_wf(inner, a, b, 0);
        }
        BresenhamBounded { inner, w: size.w as i32, h: size.h as i32 }
    }
}

impl BresenhamBounded {
    /// Yield the next in-bounds point of the line, or `None` once the
    /// line is exhausted.
    pub fn next(&mut self) -> (r: Option<(i32, i32)>)
        requires
            bres_wf(old(self).inner),
        ensures
            bres_wf(final(self).inner),
            final(self).w == old(self).w,
            final(self).h == old(self).h,
            final(self).inner.end == old(self).inner.end,
            match r {
                None => bres_emits(old(self).inner).filter(
                    |p: (i32, i32)| in_rect(p, old(self).w as int, old(self).h as int),
                ) == Seq::<(i32, i32)>::empty() && bres_done(final(self).inner),
                Some(p) => in_rect(p, old(self).w as int, old(self).h as int)
                    && final(self).inner.cur_x > old(self).inner.cur_x
                    && bres_emits(old(self).inner).filter(
                    |q: (i32, i32)| in_rect(q, old(self).w as int, old(self).h as int),
                ) == seq![p] + bres_emits(final(self).inner).filter(
                    |q: (i32, i32)| in_rect(q, old(self).w as int, old(self).h as int),
                ),
            },
    {
        let ghost pred = |q: (i32, i32)| in_rect(q, old(self).w as int, old(self).h as int);
        loop
            invariant
                bres_wf(self.inner),
                self.w == old(self).w,
                self.h == old(self).h,
                self.inner.end == old(self).inner.end,
                self.inner.cur_x >= old(self).inner.cur_x,
                bres_emits(old(self).inner).filter(pred) == bres_emits(self.inner).filter(pred),
                pred == (|q: (i32, i32)| in_rect(q, old(self).w as int, old(self).h as int)),
            ensures
                bres_wf(self.inner),
                self.w == old(self).w,
                self.h == old(self).h,
            decreases self.inner.end - self.inner.cur_x + 1,
        {
            let ghost prev = self.inner;
            match self.inner.next() {
                None => {
                    proof {
                        assert(bres_emits(prev) =~= Seq::<(i32, i32)>::empty());
                        assert(bres_emits(prev).filter(pred) =~= Seq::<(i32, i32)>::empty());
                    }
                    return None;
                },
                Some(p) => {
                    proof {
                        assert(bres_emits(prev) == seq![p] + bres_emits(self.inner));
                    }
                    if p.0 >= 0 && p.1 >= 0 && p.0 < self.w && p.1 < self.h {
                        proof {
                            lemma_filter_cons(p, bres_emits(self.inner), pred);
                        }
                        return Some(p);
                    } else {
                        proof {
                            lemma_filter_cons(p, bres_emits(self.inner), pred);
                        }
                    }
                },
            }
        }
    }
}

/// Prepending one element to a sequence keeps or drops exactly that
/// element under `filter`.
pub proof fn lemma_filter_cons<A>(x: A, s: Seq<A>, pred: spec_fn(A) -> bool)
    ensures
        (seq![x] + s).filter(pred) == if pred(x) {
            seq![x] + s.filter(pred)
        } else {
            s.filter(pred)
        },
    decreases s.len(),
{
    if s.len() == 0 {
        assert(seq![x] + s =~= seq![x]);
        assert(seq![x] =~= Seq::<A>::empty().push(x));
        lemma_filter_push(Seq::<A>::empty(), x, pred);
        reveal(Seq::filter);
        if pred(x) {
            assert(seq![x].filter(pred) =~= seq![x]);
        }
    } else {
        let y = s.last();
        let s0 = s.drop_last();
        lemma_filter_cons(x, s0, pred);
        lemma_filter_push(s0, y, pred);
        lemma_filter_push(seq![x] + s0, y, pred);
        assert((seq![x] + s0).push(y) =~= seq![x] + s);
        assert(s0.push(y) =~= s);
        if pred(x) {
            assert((seq![x] + s0.filter(pred)).push(y) =~= seq![x] + s0.filter(pred).push(y));
        }
    }
}

/// The points of the line from `a` to `b` that land inside a `size`
/// viewport at the origin, in line order: the bounded rasterization a
/// bitmap's `line` paints with.
pub fn line_points_bounded(a: (i32, i32), b: (i32, i32), size: Extent2) -> (r: Vec<(i32, i32)>)
    requires
        within_limit(a),
        within_limit(b),
        size.w <= 0x7fff_ffff,
        size.h <= 0x7fff_ffff,
    ensures
        r@ == line_seq(a, b).filter(|p: (i32, i32)| in_rect(p, size.w as int, size.h as int)),
        forall|i: int| 0 <= i < r@.len() ==> in_rect(r@[i], size.w as int, size.h as int),
{
    let ghost pred = |p: (i32, i32)| in_rect(p, size.w as int, size.h as int);
    let mut it = Bresenham::new_bounded(a, b, size);
    let mut out: Vec<(i32, i32)> = Vec::new();
    loop
        invariant
            bres_wf(it.inner),
            it.w == size.w,
            it.h == size.h,
            pred == (|p: (i32, i32)| in_rect(p, size.w as int, size.h as int)),
            out@ + bres_emits(it.inner).filter(pred) == line_seq(a, b).filter(pred),
            forall|i: int| 0 <= i < out@.len() ==> in_rect(out@[i], size.w as int, size.h as int),
        ensures
            out@ == line_seq(a, b).filter(pred),
            forall|i: int| 0 <= i < out@.len() ==> in_rect(out@[i], size.w as int, size.h as int),
        decreases it.inner.end - it.inner.cur_x + 1,
    {
        let ghost before = bres_emits(it.inner).filter(pred);
        match it.next() {
            None => {
                proof {
                    assert(out@ + before =~= out@);
                }
                break ;
            },
            Some(p) => {
                let ghost out0 = out@;
                out.push(p);
                proof {
                    assert(out@ + bres_emits(it.inner).filter(pred) =~= out0 + (seq![p]
                        + bres_emits(it.inner).filter(pred)));
                }
            },
        }
    }
    out
}

} // verus!
