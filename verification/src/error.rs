//! Errors raised at the bitmap boundary.
//!
//! Geometry edge cases (degenerate triangles, empty clip regions) are
//! never errors: the drawing operations handle them locally as no-ops.
//! Only shape-invariant violations are reported.

use vstd::prelude::*;

verus! {

/// Why a bitmap operation was refused.
#[derive(Clone, Copy, Debug, PartialEq, Eq, Structural)]
pub enum BitmapError {
    /// A storage buffer's length does not match `width * height`
    /// pixels (or, for raw bytes, is not a multiple of four).
    ShapeMismatch,
    /// A direct pixel access lies outside `[0, width) x [0, height)`.
    OutOfBounds,
}

impl BitmapError {
    /// A short human-readable name for the error.
    pub fn describe(&self) -> (s: &'static str)
        ensures
            self is ShapeMismatch ==> s@ == "storage length does not match bitmap size"@,
            self is OutOfBounds ==> s@ == "position outside bitmap bounds"@,
    {
        match self {
            BitmapError::ShapeMismatch => "storage length does not match bitmap size",
            BitmapError::OutOfBounds => "position outside bitmap bounds",
        }
    }
}

} // verus!
