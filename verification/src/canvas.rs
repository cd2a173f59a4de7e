//! The canvas: a bitmap standing for one window's frame buffer,
//! distinguished by a [`CanvasId`].

use vstd::prelude::*;

use crate::bitmap::Bitmap;
use crate::color::Rgba;

verus! {

/// A framebuffer bitmap: owns its pixels for the duration of a frame
/// and carries the identifier of the window it belongs to.
pub type Canvas = Bitmap<CanvasId, Vec<Rgba>>;

/// Unique identifier for each [`Canvas`], and thereby each window.
#[derive(Debug, Clone, Copy, PartialEq, Eq, Structural, PartialOrd, Ord, Hash)]
pub struct CanvasId(pub i32);

impl CanvasId {
    /// The first canvas id.
    pub fn zero() -> (r: CanvasId)
        ensures
            r == (CanvasId(0)),
    {
        CanvasId(0)
    }

    /// Get the next [`CanvasId`] (`self + 1`).
    pub fn next(self) -> (r: CanvasId)
        requires
            self.0 < i32::MAX,
        ensures
            r == (CanvasId((self.0 + 1) as i32)),
    {
        CanvasId(self.0 + 1)
    }
}

} // verus!
