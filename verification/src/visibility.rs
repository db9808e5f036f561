use vstd::prelude::*;

use crate::map::{index_to_point, spec_idx, spec_in_bounds, spec_point_of, GridMap};
use crate::point::{spec_dist2, Point};
use crate::NUM_TILES;

verus! {

/// Magnitude of an integer.
pub open spec fn abs_i(v: int) -> int {
    if v < 0 {
        -v
    } else {
        v
    }
}

/// Direction of an integer: -1, 0 or 1.
pub open spec fn sign_i(v: int) -> int {
    if v > 0 {
        1
    } else if v < 0 {
        -1
    } else {
        0
    }
}

/// One step of the discrete line from `a` toward `b`: move along the axis
/// with the larger remaining distance, or diagonally when they tie.
pub open spec fn spec_line_step(a: Point, b: Point) -> Point {
    let dx = b.x - a.x;
    let dy = b.y - a.y;
    if abs_i(dx) > abs_i(dy) {
        Point { x: (a.x + sign_i(dx)) as i32, y: a.y }
    } else if abs_i(dy) > abs_i(dx) {
        Point { x: a.x, y: (a.y + sign_i(dy)) as i32 }
    } else {
        Point { x: (a.x + sign_i(dx)) as i32, y: (a.y + sign_i(dy)) as i32 }
    }
}

/// The cells of the discrete line from `a` toward `b`, walking at most
/// `fuel` steps.
pub open spec fn line_points_n(a: Point, b: Point, fuel: nat) -> Seq<Point>
    decreases fuel,
{
    if a == b || fuel == 0 {
        seq![a]
    } else {
        seq![a] + line_points_n(spec_line_step(a, b), b, (fuel - 1) as nat)
    }
}

/// The cells of the discrete line from `a` to `b`.
pub open spec fn line_points(a: Point, b: Point) -> Seq<Point> {
    line_points_n(a, b, (abs_i(b.x - a.x) + abs_i(b.y - a.y)) as nat)
}

/// Whether sight between `a` and `b` is blocked: some cell other than the
/// endpoints, on the discrete line in either direction, cannot be seen
/// through. Taking both directions makes the predicate symmetric.
pub open spec fn spec_blocked(m: GridMap, a: Point, b: Point) -> bool {
    exists|c: Point|
        (line_points(a, b).contains(c) || line_points(b, a).contains(c)) && c != a && c != b
            && !m.spec_can_enter(c)
}

/// Whether the viewer standing at `origin` with the given radius sees `p`:
/// `p` is on the grid, within Euclidean distance `radius`, and either is the
/// viewer's own cell or has unblocked sight to the viewer.
pub open spec fn spec_visible(m: GridMap, origin: Point, radius: int, p: Point) -> bool {
    &&& spec_in_bounds(p)
    &&& spec_dist2(origin, p) <= radius * radius
    &&& (p == origin || !spec_blocked(m, origin, p))
}

/// Sight is symmetric: with equal radii, two cells see each other or neither
/// sees the other.
pub proof fn lemma_visibility_symmetric(m: GridMap, a: Point, b: Point, radius: int)
    requires
        spec_in_bounds(a),
        spec_in_bounds(b),
    ensures
        spec_visible(m, a, radius, b) == spec_visible(m, b, radius, a),
{
    crate::point::lemma_dist2_symmetric(a, b);
    assert(spec_blocked(m, a, b) == spec_blocked(m, b, a)) by {
        if spec_blocked(m, a, b) {
            let c = choose|c: Point|
                (line_points(a, b).contains(c) || line_points(b, a).contains(c)) && c != a && c != b
                    && !m.spec_can_enter(c);
            assert((line_points(b, a).contains(c) || line_points(a, b).contains(c)) && c != b
                && c != a && !m.spec_can_enter(c));
        }
        if spec_blocked(m, b, a) {
            let c = choose|c: Point|
                (line_points(b, a).contains(c) || line_points(a, b).contains(c)) && c != b && c != a
                    && !m.spec_can_enter(c);
            assert((line_points(a, b).contains(c) || line_points(b, a).contains(c)) && c != a
                && c != b && !m.spec_can_enter(c));
        }
    }
}

/// A viewer on the grid always sees its own cell.
pub proof fn lemma_fov_includes_self(m: GridMap, origin: Point, radius: int)
    requires
        spec_in_bounds(origin),
        radius >= 0,
    ensures
        spec_visible(m, origin, radius, origin),
{
    assert(spec_dist2(origin, origin) == 0);
    assert(radius * radius >= 0) by (nonlinear_arith)
        requires
            radius >= 0,
    ;
}

/// The cells of the discrete line from `a` to `b`.
fn line_points_exec(a: Point, b: Point) -> (r: Vec<Point>)
    requires
        spec_in_bounds(a),
        spec_in_bounds(b),
    ensures
        r@ == line_points(a, b),
{
    let dx0 = if b.x >= a.x {
        b.x - a.x
    } else {
        a.x - b.x
    };
    let dy0 = if b.y >= a.y {
        b.y - a.y
    } else {
        a.y - b.y
    };
    let mut fuel = dx0 + dy0;
    let mut cur = a;
    let mut r: Vec<Point> = Vec::new();
    proof {
        assert(fuel == abs_i(b.x - a.x) + abs_i(b.y - a.y));
    }
    while !((cur.x == b.x && cur.y == b.y) || fuel == 0)
        invariant
            spec_in_bounds(a),
            spec_in_bounds(b),
            spec_in_bounds(cur),
            0 <= fuel <= 200,
            line_points(a, b) == r@ + line_points_n(cur, b, fuel as nat),
        decreases fuel,
    {
        proof {
            assert(cur != b);
            assert(line_points_n(cur, b, fuel as nat) == seq![cur] + line_points_n(
                spec_line_step(cur, b),
                b,
                (fuel - 1) as nat,
            ));
        }
        r.push(cur);
        let dx = b.x - cur.x;
        let dy = b.y - cur.y;
        let adx = if dx >= 0 {
            dx
        } else {
            -dx
        };
        let ady = if dy >= 0 {
            dy
        } else {
            -dy
        };
        let sx: i32 = if dx > 0 {
            1
        } else if dx < 0 {
            -1
        } else {
            0
        };
        let sy: i32 = if dy > 0 {
            1
        } else if dy < 0 {
            -1
        } else {
            0
        };
        let stepped: Point = if adx > ady {
            Point::new(cur.x + sx, cur.y)
        } else if ady > adx {
            Point::new(cur.x, cur.y + sy)
        } else {
            Point::new(cur.x + sx, cur.y + sy)
        };
        proof {
            assert(stepped == spec_line_step(cur, b));
            assert(r@ + (seq![cur] + line_points_n(stepped, b, (fuel - 1) as nat)) =~= (r@
                + seq![cur]) + line_points_n(stepped, b, (fuel - 1) as nat));
        }
        cur = stepped;
        fuel = fuel - 1;
    }
    proof {
        assert(line_points_n(cur, b, fuel as nat) == seq![cur]);
    }
    r.push(cur);
    proof {
        assert(r@ =~= line_points(a, b));
    }
    r
}

/// Whether every cell strictly between `a` and `b`, on the discrete line in
/// either direction, can be seen through.
fn is_line_clear(map: &GridMap, a: Point, b: Point) -> (r: bool)
    requires
        map.wf(),
        spec_in_bounds(a),
        spec_in_bounds(b),
    ensures
        r == !spec_blocked(*map, a, b),
{
    let la = line_points_exec(a, b);
    let lb = line_points_exec(b, a);
    let mut i: usize = 0;
    while i < la.len()
        invariant
            map.wf(),
            la@ == line_points(a, b),
            lb@ == line_points(b, a),
            i <= la@.len(),
            forall|j: int|
                0 <= j < i ==> (#[trigger] la@[j]) == a || la@[j] == b || map.spec_can_enter(
                    la@[j],
                ),
        decreases la@.len() - i,
    {
        let c = la[i];
        if !(c.x == a.x && c.y == a.y) && !(c.x == b.x && c.y == b.y) && !map.can_enter_tile(c) {
            proof {
                assert(line_points(a, b).contains(la@[i as int]));
            }
            return false;
        }
        i = i + 1;
    }
    let mut i: usize = 0;
    while i < lb.len()
        invariant
            map.wf(),
            la@ == line_points(a, b),
            lb@ == line_points(b, a),
            i <= lb@.len(),
            forall|j: int|
                0 <= j < la@.len() ==> (#[trigger] la@[j]) == a || la@[j] == b
                    || map.spec_can_enter(la@[j]),
            forall|j: int|
                0 <= j < i ==> (#[trigger] lb@[j]) == a || lb@[j] == b || map.spec_can_enter(
                    lb@[j],
                ),
        decreases lb@.len() - i,
    {
        let c = lb[i];
        if !(c.x == a.x && c.y == a.y) && !(c.x == b.x && c.y == b.y) && !map.can_enter_tile(c) {
            proof {
                assert(line_points(b, a).contains(lb@[i as int]));
            }
            return false;
        }
        i = i + 1;
    }
    proof {
        if spec_blocked(*map, a, b) {
            let c = choose|c: Point|
                (line_points(a, b).contains(c) || line_points(b, a).contains(c)) && c != a && c != b
                    && !map.spec_can_enter(c);
            if line_points(a, b).contains(c) {
                let j = choose|j: int| 0 <= j < la@.len() && la@[j] == c;
                assert(false);
            } else {
                let j = choose|j: int| 0 <= j < lb@.len() && lb@[j] == c;
                assert(false);
            }
        }
    }
    true
}

/// The set of cells the viewer at `origin` sees with the given radius,
/// as a vector of points.
pub fn field_of_view_set(origin: Point, radius: i32, map: &GridMap) -> (r: Vec<Point>)
    requires
        map.wf(),
        spec_in_bounds(origin),
        0 <= radius <= 1000,
    ensures
        forall|p: Point| #[trigger] r@.contains(p) <==> spec_visible(*map, origin, radius as int, p),
{
    let ri: i64 = radius as i64;
    proof {
        assert(0 <= ri * ri <= 1000000) by (nonlinear_arith)
            requires
                0 <= ri <= 1000,
        ;
    }
    let rr: i64 = ri * ri;
    let mut result: Vec<Point> = Vec::new();
    let mut idx: usize = 0;
    while idx < NUM_TILES
        invariant
            map.wf(),
            spec_in_bounds(origin),
            0 <= radius <= 1000,
            rr == (radius as int) * (radius as int),
            idx <= NUM_TILES,
            forall|p: Point|
                #[trigger] result@.contains(p) ==> spec_visible(*map, origin, radius as int, p)
                    && spec_idx(p) < idx,
            forall|i: int|
                0 <= i < idx && spec_visible(*map, origin, radius as int, spec_point_of(i))
                    ==> result@.contains(spec_point_of(i)),
        decreases NUM_TILES - idx,
    {
        let p = index_to_point(idx);
        let d = origin.dist2(p);
        let ghost result_pre = result@;
        if d <= rr {
            if (p.x == origin.x && p.y == origin.y) || is_line_clear(map, origin, p) {
                result.push(p);
            }
        }
        proof {
            assert forall|q: Point| #[trigger] result@.contains(q) implies spec_visible(
                *map,
                origin,
                radius as int,
                q,
            ) && spec_idx(q) < idx + 1 by {
                if result@ == result_pre {
                    assert(result_pre.contains(q));
                } else {
                    let w = choose|w: int| 0 <= w < result@.len() && result@[w] == q;
                    if w < result_pre.len() {
                        assert(result_pre.contains(q));
                    } else {
                        assert(q == p);
                    }
                }
            }
            assert forall|i: int|
                0 <= i < idx + 1 && spec_visible(
                    *map,
                    origin,
                    radius as int,
                    spec_point_of(i),
                ) implies result@.contains(spec_point_of(i)) by {
                if i < idx {
                    assert(result_pre.contains(spec_point_of(i)));
                    let w = choose|w: int| 0 <= w < result_pre.len() && result_pre[w] == spec_point_of(i);
                    assert(result@[w] == spec_point_of(i));
                } else {
                    assert(spec_point_of(i) == p);
                    assert(result@[result@.len() - 1] == p);
                }
            }
        }
        idx = idx + 1;
    }
    proof {
        assert forall|p: Point| spec_visible(*map, origin, radius as int, p) implies result@.contains(
            p,
        ) by {
            crate::map::lemma_point_roundtrip(p.x, p.y);
            assert(0 <= spec_idx(p) < NUM_TILES);
            assert(spec_point_of(spec_idx(p)) == p);
        }
    }
    result
}

/// Whether the vector of points holds `p`.
pub fn contains_point(v: &Vec<Point>, p: Point) -> (r: bool)
    ensures
        r == v@.contains(p),
{
    let mut i: usize = 0;
    while i < v.len()
        invariant
            i <= v@.len(),
            forall|j: int| 0 <= j < i ==> (#[trigger] v@[j]) != p,
        decreases v@.len() - i,
    {
        let c = v[i];
        if c.x == p.x && c.y == p.y {
            proof {
                assert(v@[i as int] == p);
            }
            return true;
        }
        i = i + 1;
    }
    false
}

} // verus!
