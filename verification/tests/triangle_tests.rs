use framework::triangle::{bary_compute, triangle_points, Triangle};
use framework::{Barycentric, Bitmap, Extent2, Rgba};

fn canvas(w: usize, h: usize) -> Bitmap<(), Vec<Rgba>> {
    Bitmap::new(
        (),
        vec![Rgba::new(0, 0, 0, 0); w * h],
        Extent2::new(w, h),
    )
}

fn points_of(tri: [(i32, i32); 3], w: usize, h: usize) -> Vec<(i32, i32)> {
    triangle_points(tri, Extent2::new(w, h))
        .into_iter()
        .map(|(p, _)| p)
        .collect()
}

#[test]
fn containment_reference_triangle() {
    let pts = points_of([(0, 0), (10, 0), (0, 10)], 20, 20);
    assert!(pts.contains(&(1, 1)));
    assert!(!pts.contains(&(9, 9)));
}

#[test]
fn reference_triangle_point_count() {
    // The lattice points with x >= 0, y >= 0, x + y <= 10: the
    // discrete area of the right triangle with legs of length 10.
    let pts = points_of([(0, 0), (10, 0), (0, 10)], 20, 20);
    assert_eq!(pts.len(), 66);
}

#[test]
fn vertices_are_inside() {
    let pts = points_of([(2, 1), (8, 3), (4, 9)], 16, 16);
    assert!(pts.contains(&(2, 1)));
    assert!(pts.contains(&(8, 3)));
    assert!(pts.contains(&(4, 9)));
}

#[test]
fn winding_order_does_not_matter() {
    let a = points_of([(0, 0), (10, 0), (0, 10)], 20, 20);
    let b = points_of([(0, 10), (10, 0), (0, 0)], 20, 20);
    assert_eq!(a, b);
}

#[test]
fn degenerate_triangle_is_empty() {
    assert!(points_of([(1, 1), (5, 5), (9, 9)], 20, 20).is_empty());
    assert!(points_of([(3, 3), (3, 3), (3, 3)], 20, 20).is_empty());
}

#[test]
fn triangle_clipped_by_viewport() {
    let pts = points_of([(-5, -5), (5, -5), (-5, 5)], 3, 3);
    // Only the part of the triangle inside the 3x3 viewport remains.
    for &(x, y) in pts.iter() {
        assert!(x >= 0 && x < 3 && y >= 0 && y < 3);
    }
    assert!(pts.contains(&(0, 0)));
}

#[test]
fn scan_order_is_row_major() {
    let pts = points_of([(0, 0), (6, 0), (0, 6)], 10, 10);
    for k in 1..pts.len() {
        let (px, py) = pts[k - 1];
        let (qx, qy) = pts[k];
        assert!(py < qy || (py == qy && px < qx));
    }
}

#[test]
fn triangle_iterator_matches_collected_points() {
    let tri = [(1, 1), (7, 2), (3, 8)];
    let mut it = Triangle::new_bounded(tri, Extent2::new(10, 10));
    let mut got = Vec::new();
    while let Some((p, _)) = it.next() {
        got.push(p);
    }
    let want = points_of(tri, 10, 10);
    assert_eq!(got, want);
}

#[test]
fn barycentric_coordinates_sum_to_denominator() {
    let tri = [(0, 0), (10, 0), (0, 10)];
    let b = (2, 3).into_barycentric(tri);
    assert_eq!(b.den, 100);
    let u = b.u_num();
    assert_eq!(u + b.v_num + b.w_num, b.den);
    assert!(b.is_inside());
}

#[test]
fn barycentric_outside_point() {
    let tri = [(0, 0), (10, 0), (0, 10)];
    let b = bary_compute((9, 9), tri[0], tri[1], tri[2]);
    assert!(!b.is_inside());
}

#[test]
fn barycentric_exact_weights() {
    let tri = [(0, 0), (10, 0), (0, 10)];
    // At vertex b the second weight carries the whole denominator.
    let b = bary_compute((10, 0), tri[0], tri[1], tri[2]);
    assert_eq!(b.v_num, b.den);
    assert_eq!(b.w_num, 0);
    assert_eq!(b.u_num(), 0);
}

#[test]
fn draw_triangle_fills_interior() {
    let mut bm = canvas(12, 12);
    let fill = Rgba::new(0, 255, 0, 255);
    bm.fill(fill);
    bm.no_stroke();
    bm.triangle((0, 0), (10, 0), (0, 10));
    assert_eq!(bm.get((1, 1)), fill);
    assert_eq!(bm.get((9, 9)), Rgba::new(0, 0, 0, 0));
    let painted = bm.pixels().iter().filter(|&&p| p == fill).count();
    assert_eq!(painted, 66);
}

#[test]
fn draw_triangle_stroke_only_draws_edges() {
    let mut bm = canvas(12, 12);
    let stroke = Rgba::new(255, 0, 0, 255);
    bm.no_fill();
    bm.stroke(stroke);
    bm.triangle((0, 0), (10, 0), (0, 10));
    assert_eq!(bm.get((0, 0)), stroke);
    assert_eq!(bm.get((10, 0)), stroke);
    assert_eq!(bm.get((0, 10)), stroke);
    assert_eq!(bm.get((5, 0)), stroke);
    // An interior point stays untouched.
    assert_eq!(bm.get((2, 2)), Rgba::new(0, 0, 0, 0));
}

#[test]
fn draw_triangle_stroke_and_fill_can_differ() {
    let mut bm = canvas(12, 12);
    let fill = Rgba::new(0, 255, 0, 255);
    let stroke = Rgba::new(255, 0, 0, 255);
    bm.fill(fill);
    bm.stroke(stroke);
    bm.triangle((0, 0), (10, 0), (0, 10));
    // Edges end up in the stroke colour, the interior in the fill.
    assert_eq!(bm.get((0, 0)), stroke);
    assert_eq!(bm.get((2, 2)), fill);
}
