use framework::bresenham::{line_points, line_points_bounded, Bresenham};
use framework::{Bitmap, Extent2, Rgba};

fn canvas(w: usize, h: usize) -> Bitmap<(), Vec<Rgba>> {
    Bitmap::new(
        (),
        vec![Rgba::new(0, 0, 0, 0); w * h],
        Extent2::new(w, h),
    )
}

fn endpoints_included(a: (i32, i32), b: (i32, i32)) {
    let pts = line_points(a, b);
    assert!(pts.contains(&a), "line {:?}->{:?} misses {:?}", a, b, a);
    assert!(pts.contains(&b), "line {:?}->{:?} misses {:?}", a, b, b);
}

#[test]
fn endpoints_horizontal() {
    endpoints_included((2, 5), (9, 5));
    endpoints_included((9, 5), (2, 5));
}

#[test]
fn endpoints_vertical() {
    endpoints_included((4, -3), (4, 11));
    endpoints_included((4, 11), (4, -3));
}

#[test]
fn endpoints_diagonals() {
    endpoints_included((0, 0), (7, 7));
    endpoints_included((7, 7), (0, 0));
    endpoints_included((0, 0), (10, 3));
    endpoints_included((0, 0), (3, 10));
    endpoints_included((-5, 2), (3, -9));
}

#[test]
fn single_point_line() {
    let pts = line_points((3, 4), (3, 4));
    assert_eq!(pts, vec![(3, 4)]);
}

#[test]
fn line_length_is_major_span_plus_one() {
    assert_eq!(line_points((0, 0), (9, 3)).len(), 10);
    assert_eq!(line_points((0, 0), (3, 9)).len(), 10);
    assert_eq!(line_points((2, 2), (2, 2)).len(), 1);
}

#[test]
fn connectivity_and_no_repeats() {
    let cases = [
        ((0, 0), (10, 4)),
        ((0, 0), (4, 10)),
        ((-3, 7), (8, -2)),
        ((5, 5), (-5, -5)),
        ((1, 0), (0, 1)),
    ];
    for &(a, b) in cases.iter() {
        let pts = line_points(a, b);
        for k in 1..pts.len() {
            let dx = (pts[k].0 - pts[k - 1].0).abs();
            let dy = (pts[k].1 - pts[k - 1].1).abs();
            assert!(dx <= 1 && dy <= 1, "gap in line {:?}->{:?}", a, b);
            assert!(dx + dy > 0, "repeat in line {:?}->{:?}", a, b);
        }
        for i in 0..pts.len() {
            for j in i + 1..pts.len() {
                assert_ne!(pts[i], pts[j]);
            }
        }
    }
}

#[test]
fn exact_shallow_line() {
    // A classic shallow line: x advances every step, y roughly every
    // other step.
    let pts = line_points((0, 0), (6, 3));
    assert_eq!(
        pts,
        vec![(0, 0), (1, 0), (2, 1), (3, 1), (4, 2), (5, 2), (6, 3)]
    );
}

#[test]
fn bounded_filters_outside_points() {
    let pts = line_points_bounded((-2, -2), (4, 4), Extent2::new(3, 3));
    assert_eq!(pts, vec![(0, 0), (1, 1), (2, 2)]);
}

#[test]
fn bounded_empty_when_line_misses_viewport() {
    let pts = line_points_bounded((10, 10), (20, 20), Extent2::new(5, 5));
    assert!(pts.is_empty());
}

#[test]
fn line_iterator_matches_collected_points() {
    let a = (-3, 2);
    let b = (9, -4);
    let mut it = Bresenham::new(a, b);
    let mut got = Vec::new();
    while let Some(p) = it.next() {
        got.push(p);
    }
    assert_eq!(got, line_points(a, b));
}

#[test]
fn bounded_iterator_matches_collected_points() {
    let a = (-3, -1);
    let b = (8, 6);
    let size = Extent2::new(5, 4);
    let mut it = Bresenham::new_bounded(a, b, size);
    let mut got = Vec::new();
    while let Some(p) = it.next() {
        got.push(p);
    }
    assert_eq!(got, line_points_bounded(a, b, size));
}

#[test]
fn draw_line_paints_stroke_colour() {
    let mut bm = canvas(8, 8);
    let red = Rgba::new(255, 0, 0, 255);
    bm.stroke(red);
    bm.no_fill();
    bm.line((0, 0), (7, 7));
    for k in 0..8 {
        assert_eq!(bm.get((k, k)), red);
    }
    assert_eq!(bm.get((1, 0)), Rgba::new(0, 0, 0, 0));
}

#[test]
fn draw_line_without_stroke_is_noop() {
    let mut bm = canvas(8, 8);
    bm.no_stroke();
    bm.line((0, 0), (7, 7));
    assert!(bm.pixels().iter().all(|&p| p == Rgba::new(0, 0, 0, 0)));
}

#[test]
fn draw_line_clips_to_bitmap() {
    let mut bm = canvas(4, 4);
    let c = Rgba::new(1, 2, 3, 4);
    bm.stroke(c);
    bm.line((-5, 1), (10, 1));
    for x in 0..4 {
        assert_eq!(bm.get((x, 1)), c);
    }
    for x in 0..4 {
        assert_eq!(bm.get((x, 0)), Rgba::new(0, 0, 0, 0));
    }
}
