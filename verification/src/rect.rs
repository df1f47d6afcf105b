use vstd::prelude::*;

verus! {

/// An axis-aligned rectangle on the map grid, with inclusive corner
/// coordinates `(x1, y1)` and `(x2, y2)`.  Rooms are rectangles; only their
/// strict interior (`x1 < x < x2`, `y1 < y < y2`) is carved open.
#[derive(Clone, Copy, Debug, PartialEq, Eq, Structural)]
pub struct Rect {
    pub x1: i32,
    pub y1: i32,
    pub x2: i32,
    pub y2: i32,
}

impl Rect {
    /// The centre cell of the rectangle, rounding halves down.
    pub open spec fn spec_center(self) -> (int, int) {
        ((self.x1 + self.x2) / 2, (self.y1 + self.y2) / 2)
    }

    /// Inclusive bounding-box intersection: true as soon as the two
    /// rectangles share at least one cell.
    pub open spec fn spec_intersects(self, other: Rect) -> bool {
        self.x1 <= other.x2 && self.x2 >= other.x1 && self.y1 <= other.y2 && self.y2 >= other.y1
    }

    /// True of every rectangle built by `Rect::new` from non-negative
    /// coordinates: corners ordered and non-negative.
    pub open spec fn well_formed(self) -> bool {
        0 <= self.x1 <= self.x2 && 0 <= self.y1 <= self.y2
    }

    /// A cell of the strict interior of the rectangle.
    pub open spec fn interior_contains(self, x: int, y: int) -> bool {
        self.x1 < x < self.x2 && self.y1 < y < self.y2
    }

    pub fn new(x: i32, y: i32, w: i32, h: i32) -> (r: Rect)
        requires
            0 <= x,
            0 <= y,
            0 <= w,
            0 <= h,
            x + w <= i32::MAX,
            y + h <= i32::MAX,
        ensures
            r == (Rect { x1: x, y1: y, x2: (x + w) as i32, y2: (y + h) as i32 }),
            r.well_formed(),
    {
        Rect { x1: x, y1: y, x2: x + w, y2: y + h }
    }

    pub fn center(&self) -> (c: (i32, i32))
        requires
            self.well_formed(),
            self.x1 + self.x2 <= i32::MAX,
            self.y1 + self.y2 <= i32::MAX,
        ensures
            (c.0 as int, c.1 as int) == self.spec_center(),
    {
        ((self.x1 + self.x2) / 2, (self.y1 + self.y2) / 2)
    }

    /// Inclusive overlap test against another rectangle.
    pub fn intersects_with(&self, other: &Rect) -> (r: bool)
        ensures
            r == self.spec_intersects(*other),
    {
        self.x1 <= other.x2 && self.x2 >= other.x1 && self.y1 <= other.y2 && self.y2 >= other.y1
    }
}

} // verus!
