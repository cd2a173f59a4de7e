use framework::{incremental_fill, Bitmap, Extent2, Rgba};

fn solid(w: usize, h: usize, c: Rgba) -> Vec<Rgba> {
    vec![c; w * h]
}

fn canvas(w: usize, h: usize) -> Bitmap<(), Vec<Rgba>> {
    Bitmap::new((), solid(w, h, Rgba::new(0, 0, 0, 0)), Extent2::new(w, h))
}

#[test]
fn incremental_fill_single_element() {
    let mut v: Vec<u32> = vec![7];
    incremental_fill(&mut v, 42);
    assert_eq!(v, vec![42]);
}

#[test]
fn incremental_fill_non_power_of_two() {
    let mut v: Vec<u32> = vec![0; 7];
    incremental_fill(&mut v, 9);
    assert_eq!(v, vec![9; 7]);
}

#[test]
fn incremental_fill_larger_buffer() {
    let mut v: Vec<u8> = vec![1; 1000];
    incremental_fill(&mut v, 5);
    assert!(v.iter().all(|&b| b == 5));
}

#[test]
fn background_1x1() {
    let mut bm = canvas(1, 1);
    let c = Rgba::new(1, 2, 3, 4);
    bm.background(c);
    assert_eq!(bm.get((0, 0)), c);
}

#[test]
fn background_3x5_every_pixel() {
    let mut bm = canvas(3, 5);
    let c = Rgba::new(10, 20, 30, 40);
    bm.background(c);
    for y in 0..5 {
        for x in 0..3 {
            assert_eq!(bm.get((x, y)), c);
        }
    }
}

#[test]
fn background_non_power_of_two_extent() {
    let mut bm = canvas(513, 17);
    let c = Rgba::new(0xab, 0xcd, 0xef, 0xff);
    bm.background(c);
    assert!(bm.pixels().iter().all(|&p| p == c));
}

#[test]
fn background_large() {
    let mut bm = canvas(1024, 1024);
    let c = Rgba::new(7, 8, 9, 10);
    bm.background(c);
    assert!(bm.pixels().iter().all(|&p| p == c));
}

#[test]
fn clear_matches_background() {
    let c = Rgba::new(5, 6, 7, 8);
    let mut a = canvas(37, 11);
    let mut b = canvas(37, 11);
    a.background(c);
    b.clear(c);
    assert_eq!(a.pixels(), b.pixels());
}

#[test]
fn clear_overwrites_previous_contents() {
    let mut bm = canvas(4, 4);
    bm.clear(Rgba::new(1, 1, 1, 1));
    bm.clear(Rgba::new(2, 2, 2, 2));
    assert!(bm.pixels().iter().all(|&p| p == Rgba::new(2, 2, 2, 2)));
}

#[test]
fn background_ignores_pen_state() {
    let mut bm = canvas(3, 3);
    bm.no_fill();
    bm.no_stroke();
    let c = Rgba::new(9, 9, 9, 9);
    bm.background(c);
    assert!(bm.pixels().iter().all(|&p| p == c));
}

#[test]
fn background_empty_bitmap_is_noop() {
    let mut bm = canvas(0, 5);
    bm.background(Rgba::white());
    assert_eq!(bm.pixels().len(), 0);
}
