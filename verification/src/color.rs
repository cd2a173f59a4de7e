//! The pixel type: four 8-bit channels in R, G, B, A order, together
//! with the checked conversions between pixel vectors and raw byte
//! buffers (four bytes per pixel, row-major).

use vstd::prelude::*;

use crate::error::BitmapError;

verus! {

/// A single pixel: red, green, blue and alpha, each 0–255.
#[derive(Clone, Copy, Debug, PartialEq, Eq, Structural, Hash)]
pub struct Rgba {
    pub r: u8,
    pub g: u8,
    pub b: u8,
    pub a: u8,
}

impl Rgba {
    /// Build a pixel from its four channels.
    pub fn new(r: u8, g: u8, b: u8, a: u8) -> (c: Rgba)
        ensures
            c == (Rgba { r, g, b, a }),
    {
        Rgba { r, g, b, a }
    }

    /// Opaque white; the default stroke colour of a fresh bitmap.
    pub fn white() -> (c: Rgba)
        ensures
            c == (Rgba { r: 0xff, g: 0xff, b: 0xff, a: 0xff }),
    {
        Rgba { r: 0xff, g: 0xff, b: 0xff, a: 0xff }
    }

    /// Opaque black.
    pub fn black() -> (c: Rgba)
        ensures
            c == (Rgba { r: 0, g: 0, b: 0, a: 0xff }),
    {
        Rgba { r: 0, g: 0, b: 0, a: 0xff }
    }

    /// An opaque grey with all three colour channels equal to `v`;
    /// `grey(0x80)` is the default fill colour of a fresh bitmap.
    pub fn grey(v: u8) -> (c: Rgba)
        ensures
            c == (Rgba { r: v, g: v, b: v, a: 0xff }),
    {
        Rgba { r: v, g: v, b: v, a: 0xff }
    }
}

/// The four bytes of one pixel, in storage order.
pub open spec fn pixel_bytes(c: Rgba) -> Seq<u8> {
    seq![c.r, c.g, c.b, c.a]
}

/// The pixel stored at index `i` of a raw byte buffer.
pub open spec fn pixel_at(bytes: Seq<u8>, i: int) -> Rgba {
    Rgba { r: bytes[4 * i], g: bytes[4 * i + 1], b: bytes[4 * i + 2], a: bytes[4 * i + 3] }
}

/// Reinterpret a raw byte buffer as pixels, four bytes per pixel.
///
/// Succeeds exactly when the length is a multiple of four; a buffer of
/// any other shape is rejected with [`BitmapError::ShapeMismatch`].
pub fn pixels_from_bytes(bytes: &[u8]) -> (r: Result<Vec<Rgba>, BitmapError>)
    ensures
        match r {
            Ok(px) => {
                &&& bytes@.len() % 4 == 0
                &&& px@.len() == bytes@.len() / 4
                &&& forall|i: int| 0 <= i < px@.len() ==> px@[i] == pixel_at(bytes@, i)
            },
            Err(e) => e == BitmapError::ShapeMismatch && bytes@.len() % 4 != 0,
        },
{
    let n = bytes.len();
    if n % 4 != 0 {
        return Err(BitmapError::ShapeMismatch);
    }
    let count = n / 4;
    let mut px: Vec<Rgba> = Vec::new();
    let mut i: usize = 0;
    while i < count
        invariant
            bytes@.len() <= usize::MAX,
            bytes@.len() % 4 == 0,
            count == bytes@.len() / 4,
            i <= count,
            px@.len() == i,
            forall|j: int| 0 <= j < i ==> px@[j] == pixel_at(bytes@, j),
        decreases count - i,
    {
        assert(4 * i + 3 < bytes@.len()) by (nonlinear_arith)
            requires
                bytes@.len() % 4 == 0,
                count == bytes@.len() / 4,
                i < count,
        {
        }
        let c = Rgba {
            r: *vstd::slice::slice_index_get(bytes, 4 * i),
            g: *vstd::slice::slice_index_get(bytes, 4 * i + 1),
            b: *vstd::slice::slice_index_get(bytes, 4 * i + 2),
            a: *vstd::slice::slice_index_get(bytes, 4 * i + 3),
        };
        px.push(c);
        i = i + 1;
    }
    Ok(px)
}

/// Lay pixels out as a raw byte buffer, four bytes per pixel.
pub fn pixels_to_bytes(px: &Vec<Rgba>) -> (r: Vec<u8>)
    ensures
        r@.len() == 4 * px@.len(),
        forall|i: int| 0 <= i < px@.len() ==> pixel_at(r@, i) == px@[i],
{
    let mut out: Vec<u8> = Vec::new();
    let mut i: usize = 0;
    while i < px.len()
        invariant
            i <= px@.len(),
            out@.len() == 4 * i,
            forall|j: int| 0 <= j < i ==> pixel_at(out@, j) == px@[j],
        decreases px@.len() - i,
    {
        let c = px[i];
        out.push(c.r);
        out.push(c.g);
        out.push(c.b);
        out.push(c.a);
        i = i + 1;
    }
    out
}

/// Converting pixels to bytes and back yields the original pixels.
pub proof fn lemma_pixel_bytes_roundtrip(px: Seq<Rgba>, bytes: Seq<u8>)
    requires
        bytes.len() == 4 * px.len(),
        forall|i: int| 0 <= i < px.len() ==> pixel_at(bytes, i) == px[i],
    ensures
        bytes.len() % 4 == 0,
        bytes.len() / 4 == px.len(),
        forall|i: int| 0 <= i < bytes.len() / 4 ==> pixel_at(bytes, i) == px[i],
{
    assert(bytes.len() % 4 == 0 && bytes.len() / 4 == px.len()) by (nonlinear_arith)
        requires
            bytes.len() == 4 * px.len(),
    {
    }
}

} // verus!
