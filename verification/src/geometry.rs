//! Axis-aligned rectangles and the strict overlap test every entity uses.

use vstd::prelude::*;

verus! {

/// An axis-aligned rectangle: integer position of its top-left corner and a
/// strictly positive size.
#[derive(Clone, Copy, PartialEq, Eq, Structural, Debug)]
pub struct Rect {
    pub x: i32,
    pub y: i32,
    pub width: u32,
    pub height: u32,
}

/// Two rectangles overlap when they share interior area.  All four
/// inequalities are strict: rectangles that merely touch along an edge or at
/// a corner do not overlap.
pub open spec fn rects_overlap(a: Rect, b: Rect) -> bool {
    &&& a.x < b.x + b.width
    &&& a.x + a.width > b.x
    &&& a.y < b.y + b.height
    &&& a.y + a.height > b.y
}

impl Rect {
    /// Both sides have positive length.
    pub open spec fn wf(self) -> bool {
        self.width > 0 && self.height > 0
    }

    pub fn new(x: i32, y: i32, width: u32, height: u32) -> (r: Rect)
        requires
            width > 0,
            height > 0,
        ensures
            r == (Rect { x, y, width, height }),
    {
        Rect { x, y, width, height }
    }

    /// The strict overlap test of `rects_overlap`, free of side effects.
    pub fn overlaps(&self, other: &Rect) -> (r: bool)
        ensures
            r == rects_overlap(*self, *other),
    {
        (self.x as i64) < (other.x as i64) + (other.width as i64)
            && (self.x as i64) + (self.width as i64) > (other.x as i64)
            && (self.y as i64) < (other.y as i64) + (other.height as i64)
            && (self.y as i64) + (self.height as i64) > (other.y as i64)
    }
}

} // verus!
