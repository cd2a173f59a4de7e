//! Small geometric value types: a width/height extent and a trait view
//! of two-component vectors.
//!
//! Drawing positions are plain `(i32, i32)` pairs — x first, y second —
//! which may be negative or out of range while clipping maths is in
//! flight; they are only used as indices after clamping.

use vstd::prelude::*;

verus! {

/// Absolute value over mathematical integers.
pub open spec fn iabs(v: int) -> int {
    if v < 0 {
        -v
    } else {
        v
    }
}

/// Sign over mathematical integers: `-1`, `0` or `1`.
pub open spec fn isign(v: int) -> int {
    if v < 0 {
        -1
    } else if v > 0 {
        1
    } else {
        0
    }
}

/// A width and height in pixels.
#[derive(Clone, Copy, Debug, PartialEq, Eq, Structural, Hash)]
pub struct Extent2 {
    pub w: usize,
    pub h: usize,
}

impl Extent2 {
    /// Build an extent from a width and a height.
    pub fn new(w: usize, h: usize) -> (e: Extent2)
        ensures
            e == (Extent2 { w, h }),
    {
        Extent2 { w, h }
    }

    /// The number of pixels covered: `w * h`.
    pub fn area(&self) -> (a: usize)
        requires
            self.w * self.h <= usize::MAX,
        ensures
            a == self.w * self.h,
    {
        self.w * self.h
    }
}

/// A value with two components of the same type, readable and writable
/// by position.  Implemented for plain pairs, the crate's vector
/// currency.
pub trait Vec2<T: Copy> {
    /// The first component, as seen by contracts.
    spec fn spec_x(&self) -> T;

    /// The second component, as seen by contracts.
    spec fn spec_y(&self) -> T;

    /// Get the first (of two) components in this vector.
    fn x(&self) -> (r: T)
        ensures
            r == self.spec_x(),
    ;

    /// Get the second (of two) components in this vector.
    fn y(&self) -> (r: T)
        ensures
            r == self.spec_y(),
    ;

    /// Set the first (of two) components in this vector.
    fn set_x(&mut self, x: T)
        ensures
            final(self).spec_x() == x,
            final(self).spec_y() == old(self).spec_y(),
    ;

    /// Set the second (of two) components in this vector.
    fn set_y(&mut self, y: T)
        ensures
            final(self).spec_y() == y,
            final(self).spec_x() == old(self).spec_x(),
    ;
}

impl<T: Copy> Vec2<T> for (T, T) {
    open spec fn spec_x(&self) -> T {
        self.0
    }

    open spec fn spec_y(&self) -> T {
        self.1
    }

    fn x(&self) -> (r: T) {
        self.0
    }

    fn y(&self) -> (r: T) {
        self.1
    }

    fn set_x(&mut self, x: T) {
        self.0 = x;
    }

    fn set_y(&mut self, y: T) {
        self.1 = y;
    }
}

} // verus!
