use vstd::prelude::*;

verus! {

/// A cell coordinate on the tile grid.
#[derive(Clone, Copy, PartialEq, Eq, Structural, Debug)]
pub struct Point {
    pub x: i32,
    pub y: i32,
}

impl Point {
    pub fn new(x: i32, y: i32) -> (p: Point)
        ensures
            p.x == x,
            p.y == y,
    {
        Point { x, y }
    }

    pub fn zero() -> (p: Point)
        ensures
            p.x == 0,
            p.y == 0,
    {
        Point { x: 0, y: 0 }
    }

    /// The point moved by (dx, dy).
    pub fn offset(self, dx: i32, dy: i32) -> (p: Point)
        requires
            i32::MIN <= self.x + dx <= i32::MAX,
            i32::MIN <= self.y + dy <= i32::MAX,
        ensures
            p.x == self.x + dx,
            p.y == self.y + dy,
    {
        Point { x: self.x + dx, y: self.y + dy }
    }

    /// Squared Euclidean distance between two points, kept in integers.
    pub fn dist2(self, other: Point) -> (d: i64)
        requires
            -1000000 <= self.x - other.x <= 1000000,
            -1000000 <= self.y - other.y <= 1000000,
        ensures
            d == spec_dist2(self, other),
    {
        let dx: i64 = self.x as i64 - other.x as i64;
        let dy: i64 = self.y as i64 - other.y as i64;
        assert(0 <= dx * dx <= 1000000000000 && 0 <= dy * dy <= 1000000000000) by (nonlinear_arith)
            requires
                -1000000 <= dx <= 1000000,
                -1000000 <= dy <= 1000000,
        ;
        dx * dx + dy * dy
    }
}

/// Squared Euclidean distance between two points.
pub open spec fn spec_dist2(a: Point, b: Point) -> int {
    (a.x - b.x) * (a.x - b.x) + (a.y - b.y) * (a.y - b.y)
}

/// The squared distance is symmetric in its two arguments.
pub proof fn lemma_dist2_symmetric(a: Point, b: Point)
    ensures
        spec_dist2(a, b) == spec_dist2(b, a),
{
    assert(spec_dist2(a, b) == spec_dist2(b, a)) by (nonlinear_arith);
}

} // verus!
