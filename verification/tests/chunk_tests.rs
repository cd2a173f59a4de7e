use framework::{Bitmap, Extent2, Rgba};

fn coded(w: usize, h: usize) -> Bitmap<(), Vec<Rgba>> {
    // Each pixel encodes its own position, so sub-region comparisons
    // are exact.
    let mut bm = Bitmap::new(
        (),
        vec![Rgba::new(0, 0, 0, 0); w * h],
        Extent2::new(w, h),
    );
    for y in 0..h {
        for x in 0..w {
            bm.set((x as i32, y as i32), Rgba::new(x as u8, y as u8, 0, 255));
        }
    }
    bm
}

#[test]
fn chunk_count_exact_division() {
    let bm = coded(8, 6);
    let chunks = bm.iter_pixel_chunks(Extent2::new(2, 3));
    assert_eq!(chunks.len(), (6 / 3) * (8 / 2));
}

#[test]
fn chunk_count_with_remainder() {
    let bm = coded(7, 5);
    let chunks = bm.iter_pixel_chunks(Extent2::new(2, 2));
    assert_eq!(chunks.len(), (5 / 2) * (7 / 2));
}

#[test]
fn chunk_ids_are_top_left_corners() {
    let bm = coded(7, 5);
    let chunks = bm.iter_pixel_chunks(Extent2::new(2, 2));
    let ids: Vec<(i32, i32)> = chunks.iter().map(|c| *c.id()).collect();
    assert_eq!(
        ids,
        vec![(0, 0), (2, 0), (4, 0), (0, 2), (2, 2), (4, 2)]
    );
}

#[test]
fn chunk_pixels_match_parent_subregion() {
    let bm = coded(7, 5);
    let chunks = bm.iter_pixel_chunks(Extent2::new(2, 2));
    for chunk in chunks.iter() {
        let (cx, cy) = *chunk.id();
        assert_eq!(chunk.size(), Extent2::new(2, 2));
        for y in 0..2 {
            for x in 0..2 {
                let want = bm.get((cx + x, cy + y));
                assert_eq!(chunk.get((x, y)), want);
            }
        }
    }
}

#[test]
fn chunk_covering_whole_bitmap() {
    let bm = coded(4, 4);
    let chunks = bm.iter_pixel_chunks(Extent2::new(4, 4));
    assert_eq!(chunks.len(), 1);
    assert_eq!(*chunks[0].id(), (0, 0));
    for y in 0..4 {
        for x in 0..4 {
            assert_eq!(chunks[0].get((x, y)), bm.get((x, y)));
        }
    }
}

#[test]
fn chunk_larger_than_bitmap_yields_nothing() {
    let bm = coded(3, 3);
    assert!(bm.iter_pixel_chunks(Extent2::new(4, 4)).is_empty());
}

#[test]
fn window_count_is_dense() {
    let bm = coded(4, 3);
    let windows = bm.iter_pixel_windows(Extent2::new(2, 2));
    assert_eq!(windows.len(), (3 - 2 + 1) * (4 - 2 + 1));
}

#[test]
fn window_ids_advance_by_one_pixel() {
    let bm = coded(4, 3);
    let windows = bm.iter_pixel_windows(Extent2::new(2, 2));
    let ids: Vec<(i32, i32)> = windows.iter().map(|c| *c.id()).collect();
    assert_eq!(
        ids,
        vec![(0, 0), (1, 0), (2, 0), (0, 1), (1, 1), (2, 1)]
    );
}

#[test]
fn window_contents_match_parent() {
    let bm = coded(5, 4);
    for window in bm.iter_pixel_windows(Extent2::new(3, 2)).iter() {
        let (wx, wy) = *window.id();
        for y in 0..2 {
            for x in 0..3 {
                assert_eq!(window.get((x, y)), bm.get((wx + x, wy + y)));
            }
        }
    }
}

#[test]
fn window_larger_than_bitmap_yields_nothing() {
    let bm = coded(3, 3);
    assert!(bm.iter_pixel_windows(Extent2::new(4, 2)).is_empty());
}

#[test]
fn overlapping_chunk_count_and_ids() {
    let bm = coded(8, 8);
    let chunks = bm.iter_pixel_overlapping_chunks(Extent2::new(4, 4), (2, 2));
    assert_eq!(chunks.len(), ((8 - 4) / 2 + 1) * ((8 - 4) / 2 + 1));
    let ids: Vec<(i32, i32)> = chunks.iter().map(|c| *c.id()).collect();
    assert_eq!(ids[0], (0, 0));
    assert_eq!(ids[1], (2, 0));
    assert_eq!(ids[3], (0, 2));
    assert_eq!(ids[8], (4, 4));
}

#[test]
fn overlapping_chunk_contents_match_parent() {
    let bm = coded(6, 6);
    for chunk in bm
        .iter_pixel_overlapping_chunks(Extent2::new(4, 4), (2, 2))
        .iter()
    {
        let (cx, cy) = *chunk.id();
        for y in 0..4 {
            for x in 0..4 {
                assert_eq!(chunk.get((x, y)), bm.get((cx + x, cy + y)));
            }
        }
    }
}

#[test]
fn overlapping_with_stride_equal_to_size_is_partition() {
    let bm = coded(6, 4);
    let plain = bm.iter_pixel_chunks(Extent2::new(2, 2));
    let strided = bm.iter_pixel_overlapping_chunks(Extent2::new(2, 2), (2, 2));
    assert_eq!(plain.len(), strided.len());
    for (a, b) in plain.iter().zip(strided.iter()) {
        assert_eq!(a.id(), b.id());
        for y in 0..2 {
            for x in 0..2 {
                assert_eq!(a.get((x, y)), b.get((x, y)));
            }
        }
    }
}
