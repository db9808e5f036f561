use vstd::prelude::*;

use crate::point::Point;

verus! {

/// An axis-aligned rectangle. `x1`/`y1` are the low corner; `x2`/`y2` are one
/// past the high corner, so the interior cells are `[x1, x2) x [y1, y2)`.
#[derive(Clone, Copy, PartialEq, Eq, Structural, Debug)]
pub struct Rect {
    pub x1: i32,
    pub y1: i32,
    pub x2: i32,
    pub y2: i32,
}

impl Rect {
    /// Whether this rectangle touches or overlaps `other` (closed-interval
    /// comparison on both axes).
    pub open spec fn spec_intersect(self, other: Rect) -> bool {
        self.x1 <= other.x2 && self.x2 >= other.x1 && self.y1 <= other.y2 && self.y2 >= other.y1
    }

    /// The midpoint of the rectangle.
    pub open spec fn spec_center(self) -> Point {
        Point { x: ((self.x1 + self.x2) / 2) as i32, y: ((self.y1 + self.y2) / 2) as i32 }
    }

    /// Whether `point` lies in the interior cells of the rectangle.
    pub open spec fn spec_contains(self, point: Point) -> bool {
        self.x1 <= point.x < self.x2 && self.y1 <= point.y < self.y2
    }

    /// The rectangle with low corner (x, y), width w and height h.
    pub fn with_size(x: i32, y: i32, w: i32, h: i32) -> (r: Rect)
        requires
            i32::MIN <= x + w <= i32::MAX,
            i32::MIN <= y + h <= i32::MAX,
        ensures
            r.x1 == x,
            r.y1 == y,
            r.x2 == x + w,
            r.y2 == y + h,
    {
        Rect { x1: x, y1: y, x2: x + w, y2: y + h }
    }

    /// Whether this rectangle touches or overlaps `other`.
    pub fn intersect(&self, other: &Rect) -> (r: bool)
        ensures
            r == self.spec_intersect(*other),
    {
        self.x1 <= other.x2 && self.x2 >= other.x1 && self.y1 <= other.y2 && self.y2 >= other.y1
    }

    /// The center point of the rectangle.
    pub fn center(&self) -> (p: Point)
        requires
            0 <= self.x1 + self.x2 <= i32::MAX,
            0 <= self.y1 + self.y2 <= i32::MAX,
        ensures
            p == self.spec_center(),
    {
        Point::new((self.x1 + self.x2) / 2, (self.y1 + self.y2) / 2)
    }

    /// Whether a point lies inside the rectangle.
    pub fn point_in_rect(&self, point: Point) -> (r: bool)
        ensures
            r == self.spec_contains(point),
    {
        point.x >= self.x1 && point.x < self.x2 && point.y >= self.y1 && point.y < self.y2
    }
}

} // verus!
