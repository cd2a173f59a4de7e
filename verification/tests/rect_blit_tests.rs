use framework::{Bitmap, Extent2, Rgba};

fn black() -> Rgba {
    Rgba::new(0, 0, 0, 0)
}

fn canvas(w: usize, h: usize) -> Bitmap<(), Vec<Rgba>> {
    Bitmap::new((), vec![black(); w * h], Extent2::new(w, h))
}

#[test]
fn rect_clipped_from_negative_corner() {
    let mut bm = canvas(10, 10);
    let fill = Rgba::new(200, 100, 50, 255);
    bm.fill(fill);
    bm.no_stroke();
    bm.rect((-5, -5), (20, 20));
    // The clipped region is the whole 10x10 bitmap.
    assert!(bm.pixels().iter().all(|&p| p == fill));
}

#[test]
fn rect_fully_outside_is_noop() {
    let mut bm = canvas(10, 10);
    bm.fill(Rgba::new(200, 100, 50, 255));
    bm.stroke(Rgba::new(1, 1, 1, 255));
    bm.rect((12, 0), (5, 5));
    bm.rect((0, -9), (5, 5));
    bm.rect((-7, -7), (5, 5));
    assert!(bm.pixels().iter().all(|&p| p == black()));
}

#[test]
fn rect_interior_exact_region() {
    let mut bm = canvas(8, 6);
    let fill = Rgba::new(10, 20, 30, 255);
    bm.fill(fill);
    bm.no_stroke();
    bm.rect((2, 1), (3, 4));
    for y in 0..6 {
        for x in 0..8 {
            let inside = x >= 2 && x < 5 && y >= 1 && y < 5;
            let want = if inside { fill } else { black() };
            assert_eq!(bm.get((x, y)), want, "at ({}, {})", x, y);
        }
    }
}

#[test]
fn rect_zero_size_is_noop() {
    let mut bm = canvas(6, 6);
    bm.fill(Rgba::white());
    bm.rect((2, 2), (0, 4));
    bm.rect((2, 2), (4, 0));
    bm.rect((2, 2), (-1, 3));
    assert!(bm.pixels().iter().all(|&p| p == black()));
}

#[test]
fn rect_stroke_draws_border() {
    let mut bm = canvas(10, 10);
    let stroke = Rgba::new(255, 255, 0, 255);
    bm.no_fill();
    bm.stroke(stroke);
    bm.rect((1, 1), (4, 4));
    // Corners of the outline.
    assert_eq!(bm.get((1, 1)), stroke);
    assert_eq!(bm.get((5, 1)), stroke);
    assert_eq!(bm.get((1, 5)), stroke);
    assert_eq!(bm.get((5, 5)), stroke);
    // A point inside the outline stays untouched.
    assert_eq!(bm.get((3, 3)), black());
}

#[test]
fn blit_clipped_negative_offset() {
    let red = Rgba::new(255, 0, 0, 255);
    let blue = Rgba::new(0, 0, 255, 255);
    let mut dst = canvas(10, 10);
    dst.background(blue);
    let mut src = canvas(5, 5);
    src.background(red);
    dst.image(&src, (-2, -2));
    // Only the visible 3x3 overlap is copied.
    for y in 0..10 {
        for x in 0..10 {
            let copied = x < 3 && y < 3;
            let want = if copied { red } else { blue };
            assert_eq!(dst.get((x, y)), want, "at ({}, {})", x, y);
        }
    }
    // The source bitmap is untouched.
    assert!(src.pixels().iter().all(|&p| p == red));
}

#[test]
fn blit_fully_outside_is_noop() {
    let mut dst = canvas(6, 6);
    let mut src = canvas(3, 3);
    src.background(Rgba::white());
    dst.image(&src, (7, 0));
    dst.image(&src, (0, -4));
    assert!(dst.pixels().iter().all(|&p| p == black()));
}

#[test]
fn blit_interior_offset_copies_whole_source() {
    let mut dst = canvas(8, 8);
    let mut src = canvas(3, 2);
    // Give the source a distinct pixel per position.
    for y in 0..2 {
        for x in 0..3 {
            src.set((x, y), Rgba::new(x as u8, y as u8, 7, 255));
        }
    }
    dst.image(&src, (4, 5));
    for y in 0..2 {
        for x in 0..3 {
            assert_eq!(dst.get((4 + x, 5 + y)), Rgba::new(x as u8, y as u8, 7, 255));
        }
    }
    assert_eq!(dst.get((3, 5)), black());
    assert_eq!(dst.get((4, 4)), black());
    assert_eq!(dst.get((7, 7)), black());
}

#[test]
fn blit_clips_right_and_bottom_edges() {
    let green = Rgba::new(0, 200, 0, 255);
    let mut dst = canvas(6, 6);
    let mut src = canvas(4, 4);
    src.background(green);
    dst.image(&src, (4, 5));
    for y in 0..6 {
        for x in 0..6 {
            let copied = x >= 4 && y >= 5;
            let want = if copied { green } else { black() };
            assert_eq!(dst.get((x, y)), want, "at ({}, {})", x, y);
        }
    }
}

#[test]
fn paste_matches_image() {
    let mut src = canvas(4, 3);
    for y in 0..3 {
        for x in 0..4 {
            src.set((x, y), Rgba::new((x * 4 + y) as u8, 0, 0, 255));
        }
    }
    let mut a = canvas(7, 7);
    let mut b = canvas(7, 7);
    a.image(&src, (-1, 2));
    b.paste((-1, 2), &src);
    assert_eq!(a.pixels(), b.pixels());
}

#[test]
fn blit_from_chunk_source() {
    // A chunk is a read-only row-sparse bitmap; it can be blitted
    // onto a flat destination.
    let mut parent = canvas(6, 6);
    for y in 0..6 {
        for x in 0..6 {
            parent.set((x, y), Rgba::new(x as u8, y as u8, 0, 255));
        }
    }
    let chunks = parent.iter_pixel_chunks(Extent2::new(3, 3));
    assert_eq!(chunks.len(), 4);
    let mut dst = canvas(3, 3);
    // The last chunk covers the parent's bottom-right quarter.
    dst.image(&chunks[3], (0, 0));
    for y in 0..3 {
        for x in 0..3 {
            assert_eq!(dst.get((x, y)), Rgba::new((x + 3) as u8, (y + 3) as u8, 0, 255));
        }
    }
}
