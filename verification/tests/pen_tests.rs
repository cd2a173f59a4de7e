use framework::{Bitmap, Extent2, Rgba};

fn canvas(w: usize, h: usize) -> Bitmap<(), Vec<Rgba>> {
    Bitmap::new(
        (),
        vec![Rgba::new(0, 0, 0, 0); w * h],
        Extent2::new(w, h),
    )
}

#[test]
fn fill_and_stroke_set_pen_state() {
    let mut bm = canvas(2, 2);
    let c = Rgba::new(1, 2, 3, 4);
    bm.fill(c);
    bm.stroke(c);
    assert_eq!(bm.fill, Some(c));
    assert_eq!(bm.stroke, Some(c));
    bm.no_fill();
    bm.no_stroke();
    assert_eq!(bm.fill, None);
    assert_eq!(bm.stroke, None);
}

#[test]
fn fill_reset_is_idempotent() {
    // no_fill / fill(C) / no_fill leaves the pen exactly as a single
    // no_fill would.
    let mut a = canvas(2, 2);
    a.no_fill();
    a.fill(Rgba::new(50, 60, 70, 80));
    a.no_fill();
    let mut b = canvas(2, 2);
    b.no_fill();
    assert_eq!(a.fill, b.fill);
    assert_eq!(a.stroke, b.stroke);
}

#[test]
fn fill_reset_disables_interiors() {
    let blank = Rgba::new(0, 0, 0, 0);
    let mut bm = canvas(12, 12);
    bm.no_stroke();
    bm.no_fill();
    bm.fill(Rgba::new(200, 0, 0, 255));
    bm.no_fill();
    // Subsequent triangle and rect calls draw no interior.
    bm.triangle((0, 0), (10, 0), (0, 10));
    bm.rect((1, 1), (5, 5));
    assert!(bm.pixels().iter().all(|&p| p == blank));
}

#[test]
fn pen_state_persists_across_draw_calls() {
    let stroke = Rgba::new(9, 9, 9, 255);
    let mut bm = canvas(8, 8);
    bm.no_fill();
    bm.stroke(stroke);
    bm.line((0, 0), (0, 7));
    bm.line((7, 0), (7, 7));
    assert_eq!(bm.get((0, 3)), stroke);
    assert_eq!(bm.get((7, 3)), stroke);
}

#[test]
fn toggling_stroke_off_still_fills_triangle() {
    let fill = Rgba::new(0, 0, 200, 255);
    let mut bm = canvas(12, 12);
    bm.fill(fill);
    bm.no_stroke();
    bm.triangle((0, 0), (10, 0), (0, 10));
    assert_eq!(bm.get((1, 1)), fill);
}

#[test]
fn drawing_does_not_change_pen() {
    let stroke = Rgba::new(1, 1, 1, 255);
    let fill = Rgba::new(2, 2, 2, 255);
    let mut bm = canvas(8, 8);
    bm.stroke(stroke);
    bm.fill(fill);
    bm.line((0, 0), (5, 5));
    bm.rect((1, 1), (3, 3));
    bm.triangle((0, 0), (4, 0), (0, 4));
    bm.background(Rgba::white());
    assert_eq!(bm.stroke, Some(stroke));
    assert_eq!(bm.fill, Some(fill));
}
