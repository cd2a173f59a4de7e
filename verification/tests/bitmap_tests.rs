use framework::color::{pixels_from_bytes, pixels_to_bytes};
use framework::{Bitmap, BitmapError, Canvas, CanvasId, Extent2, Rgba, Vec2};

fn canvas(w: usize, h: usize) -> Bitmap<(), Vec<Rgba>> {
    Bitmap::new(
        (),
        vec![Rgba::new(0, 0, 0, 0); w * h],
        Extent2::new(w, h),
    )
}

#[test]
fn new_bitmap_has_default_pen() {
    let bm = canvas(4, 4);
    assert_eq!(bm.stroke, Some(Rgba::white()));
    assert_eq!(bm.fill, Some(Rgba::grey(0x80)));
}

#[test]
fn size_accessors() {
    let bm = canvas(7, 3);
    assert_eq!(bm.size(), Extent2::new(7, 3));
    assert_eq!(bm.width(), 7);
    assert_eq!(bm.height(), 3);
    assert_eq!(bm.area(), 21);
    assert_eq!(Extent2::new(7, 3).area(), 21);
}

#[test]
fn set_then_get_roundtrip() {
    let mut bm = canvas(5, 5);
    let c = Rgba::new(1, 2, 3, 4);
    bm.set((2, 3), c);
    assert_eq!(bm.get((2, 3)), c);
    assert_eq!(bm.get((3, 2)), Rgba::new(0, 0, 0, 0));
}

#[test]
fn try_get_out_of_bounds() {
    let bm = canvas(4, 4);
    assert_eq!(bm.try_get((4, 0)), Err(BitmapError::OutOfBounds));
    assert_eq!(bm.try_get((0, -1)), Err(BitmapError::OutOfBounds));
    assert_eq!(bm.try_get((3, 3)), Ok(Rgba::new(0, 0, 0, 0)));
}

#[test]
fn try_set_out_of_bounds_leaves_bitmap_unchanged() {
    let mut bm = canvas(4, 4);
    assert_eq!(bm.try_set((9, 9), Rgba::white()), Err(BitmapError::OutOfBounds));
    assert!(bm.pixels().iter().all(|&p| p == Rgba::new(0, 0, 0, 0)));
    assert_eq!(bm.try_set((1, 1), Rgba::white()), Ok(()));
    assert_eq!(bm.get((1, 1)), Rgba::white());
}

#[test]
fn try_new_rejects_shape_mismatch() {
    let buf = vec![Rgba::new(0, 0, 0, 0); 10];
    let r = Bitmap::try_new((), buf, Extent2::new(3, 4));
    assert!(matches!(r, Err(BitmapError::ShapeMismatch)));
}

#[test]
fn try_new_accepts_matching_shape() {
    let buf = vec![Rgba::new(0, 0, 0, 0); 12];
    let r = Bitmap::try_new((), buf, Extent2::new(3, 4));
    assert!(r.is_ok());
}

#[test]
fn error_descriptions() {
    assert_eq!(
        BitmapError::ShapeMismatch.describe(),
        "storage length does not match bitmap size"
    );
    assert_eq!(
        BitmapError::OutOfBounds.describe(),
        "position outside bitmap bounds"
    );
}

#[test]
fn iter_pixels_positions_are_row_major() {
    let mut bm = canvas(3, 2);
    bm.set((2, 1), Rgba::white());
    let px = bm.iter_pixels();
    assert_eq!(px.len(), 6);
    assert_eq!(px[0].0, (0, 0));
    assert_eq!(px[1].0, (1, 0));
    assert_eq!(px[3].0, (0, 1));
    assert_eq!(px[5], ((2, 1), Rgba::white()));
}

#[test]
fn pixels_from_bytes_groups_channels() {
    let bytes = [1u8, 2, 3, 4, 5, 6, 7, 8];
    let px = pixels_from_bytes(&bytes).unwrap();
    assert_eq!(px, vec![Rgba::new(1, 2, 3, 4), Rgba::new(5, 6, 7, 8)]);
}

#[test]
fn pixels_from_bytes_rejects_ragged_length() {
    let bytes = [1u8, 2, 3, 4, 5];
    assert_eq!(pixels_from_bytes(&bytes), Err(BitmapError::ShapeMismatch));
}

#[test]
fn pixel_byte_roundtrip() {
    let px = vec![
        Rgba::new(0, 0, 0, 0),
        Rgba::new(255, 128, 64, 32),
        Rgba::new(17, 34, 51, 68),
    ];
    let bytes = pixels_to_bytes(&px);
    assert_eq!(bytes.len(), 12);
    assert_eq!(pixels_from_bytes(&bytes).unwrap(), px);
}

#[test]
fn frame_buffer_roundtrip_through_bitmap() {
    // The host hands raw bytes; the library views them as pixels,
    // draws, and lays them back out.
    let frame = vec![0u8; 4 * 4 * 4];
    let px = pixels_from_bytes(&frame).unwrap();
    let mut bm = Bitmap::new(CanvasId::zero(), px, Extent2::new(4, 4));
    bm.background(Rgba::new(9, 8, 7, 6));
    let out = pixels_to_bytes(&bm.pixels().to_vec());
    assert_eq!(out.len(), frame.len());
    assert_eq!(&out[0..4], &[9, 8, 7, 6]);
    assert_eq!(&out[60..64], &[9, 8, 7, 6]);
}

#[test]
fn canvas_ids_count_up() {
    let a = CanvasId::zero();
    let b = a.next();
    let c = b.next();
    assert_eq!(a, CanvasId(0));
    assert_eq!(b, CanvasId(1));
    assert_eq!(c, CanvasId(2));
    assert!(a < b && b < c);
}

#[test]
fn canvas_is_a_bitmap_with_canvas_id() {
    let mut cv: Canvas = Bitmap::new(
        CanvasId::zero(),
        vec![Rgba::new(0, 0, 0, 0); 4],
        Extent2::new(2, 2),
    );
    cv.background(Rgba::white());
    assert_eq!(*cv.id(), CanvasId(0));
    assert_eq!(cv.get((1, 1)), Rgba::white());
}

#[test]
fn vec2_pair_accessors() {
    let mut p: (i32, i32) = (3, -7);
    assert_eq!(p.x(), 3);
    assert_eq!(p.y(), -7);
    p.set_x(10);
    p.set_y(20);
    assert_eq!(p, (10, 20));
}

#[test]
fn rgba_constructors() {
    assert_eq!(Rgba::white(), Rgba::new(255, 255, 255, 255));
    assert_eq!(Rgba::black(), Rgba::new(0, 0, 0, 255));
    assert_eq!(Rgba::grey(7), Rgba::new(7, 7, 7, 255));
}
