use vstd::prelude::*;

use crate::map::{spec_available_exits, spec_idx, spec_point_of, GridMap};
use crate::point::Point;
use crate::NUM_TILES;

verus! {

/// Whether two cells touch along an axis (the 4-neighborhood).
pub open spec fn spec_adjacent(p: Point, q: Point) -> bool {
    (p.x == q.x && (q.y == p.y + 1 || q.y == p.y - 1)) || (p.y == q.y && (q.x == p.x + 1
        || q.x == p.x - 1))
}

/// A walk over the grid: at least one cell, every cell enterable, and each
/// step moving to an axis-aligned neighbor.
pub open spec fn is_path(m: GridMap, s: Seq<Point>) -> bool {
    &&& s.len() >= 1
    &&& forall|i: int| 0 <= i < s.len() ==> m.spec_can_enter(#[trigger] s[i])
    &&& forall|i: int| 0 <= i < s.len() - 1 ==> spec_adjacent(#[trigger] s[i], s[i + 1])
}

/// A walk from `a` to `b`.
pub open spec fn is_path_between(m: GridMap, s: Seq<Point>, a: Point, b: Point) -> bool {
    is_path(m, s) && s.first() == a && s.last() == b
}

/// `b` can be walked to from `a` over floor tiles.
pub open spec fn reachable(m: GridMap, a: Point, b: Point) -> bool {
    exists|s: Seq<Point>| is_path_between(m, s, a, b)
}

/// `b` can be walked to from `a` in at most `n` steps.
pub open spec fn reachable_within(m: GridMap, a: Point, b: Point, n: int) -> bool {
    exists|s: Seq<Point>| is_path_between(m, s, a, b) && s.len() <= n + 1
}

/// A bounded walk is in particular a walk.
pub proof fn lemma_reachable_within_implies_reachable(m: GridMap, a: Point, b: Point, n: int)
    requires
        reachable_within(m, a, b, n),
    ensures
        reachable(m, a, b),
{
    let s = choose|s: Seq<Point>| is_path_between(m, s, a, b) && s.len() <= n + 1;
    assert(is_path_between(m, s, a, b));
}

/// Two cells at squared distance one are axis-aligned neighbors.
pub proof fn lemma_dist2_one_is_adjacent(a: Point, b: Point)
    requires
        crate::point::spec_dist2(a, b) == 1,
    ensures
        spec_adjacent(a, b),
{
    let dx = a.x - b.x;
    let dy = a.y - b.y;
    assert(-1 <= dx <= 1 && -1 <= dy <= 1 && !(dx != 0 && dy != 0)) by (nonlinear_arith)
        requires
            dx * dx + dy * dy == 1,
    ;
    assert(!(dx == 0 && dy == 0)) by (nonlinear_arith)
        requires
            dx * dx + dy * dy == 1,
    ;
}

/// A cell that can be entered reaches itself.
pub proof fn lemma_reachable_self(m: GridMap, p: Point)
    requires
        m.spec_can_enter(p),
    ensures
        reachable(m, p, p),
{
    let s: Seq<Point> = seq![p];
    assert(is_path_between(m, s, p, p));
}

/// Walks compose: a walk to `b` followed by a walk from `b` gives a walk
/// from end to end.
pub proof fn lemma_reachable_trans(m: GridMap, a: Point, b: Point, c: Point)
    requires
        reachable(m, a, b),
        reachable(m, b, c),
    ensures
        reachable(m, a, c),
{
    let s1 = choose|s: Seq<Point>| is_path_between(m, s, a, b);
    let s2 = choose|s: Seq<Point>| is_path_between(m, s, b, c);
    let s = s1 + s2.subrange(1, s2.len() as int);
    assert(s.len() >= 1);
    assert(s.first() == a);
    assert(s.last() == c) by {
        if s2.len() == 1 {
            assert(s =~= s1);
        } else {
            assert(s.last() == s2.last());
        }
    }
    assert forall|i: int| 0 <= i < s.len() implies m.spec_can_enter(#[trigger] s[i]) by {
        if i < s1.len() {
            assert(s[i] == s1[i]);
        } else {
            assert(s[i] == s2[i - s1.len() + 1]);
        }
    }
    assert forall|i: int| 0 <= i < s.len() - 1 implies spec_adjacent(#[trigger] s[i], s[i + 1]) by {
        if i < s1.len() - 1 {
            assert(s[i] == s1[i] && s[i + 1] == s1[i + 1]);
        } else if i == s1.len() - 1 {
            assert(s[i] == s1[i] && s[i] == b);
            assert(s[i + 1] == s2[1]);
            assert(spec_adjacent(s2[0], s2[1]));
        } else {
            assert(s[i] == s2[i - s1.len() + 1] && s[i + 1] == s2[i - s1.len() + 2]);
        }
    }
    assert(is_path_between(m, s, a, c));
}

/// Walks reverse: adjacency has no direction, so reachability is symmetric.
pub proof fn lemma_reachable_sym(m: GridMap, a: Point, b: Point)
    requires
        reachable(m, a, b),
    ensures
        reachable(m, b, a),
{
    let s = choose|s: Seq<Point>| is_path_between(m, s, a, b);
    let r = Seq::new(s.len(), |i: int| s[s.len() - 1 - i]);
    assert(r.first() == b);
    assert(r.last() == a);
    assert forall|i: int| 0 <= i < r.len() - 1 implies spec_adjacent(#[trigger] r[i], r[i + 1]) by {
        assert(r[i] == s[s.len() - 1 - i]);
        assert(r[i + 1] == s[s.len() - 2 - i]);
        assert(spec_adjacent(s[s.len() - 2 - i], s[s.len() - 1 - i]));
    }
    assert(is_path_between(m, r, b, a));
}

/// What membership in the exit list means: the exit is an in-range index of
/// an enterable cell adjacent to the cell it was listed for.
pub proof fn lemma_exit_properties(m: GridMap, t: int, n: usize)
    requires
        m.wf(),
        0 <= t < NUM_TILES,
        spec_available_exits(m, t).contains(n),
    ensures
        n < NUM_TILES,
        m.spec_can_enter(spec_point_of(n as int)),
        spec_adjacent(spec_point_of(t), spec_point_of(n as int)),
{
    reveal(crate::map::spec_available_exits);
    crate::map::lemma_idx_roundtrip(t);
    let loc = spec_point_of(t);
    let deltas: Seq<Point> = seq![
        Point { x: -1i32, y: 0i32 },
        Point { x: 1i32, y: 0i32 },
        Point { x: 0i32, y: -1i32 },
        Point { x: 0i32, y: 1i32 },
    ];
    assert(exists|k: int|
        0 <= k < 4 && crate::map::spec_exit_seq(m, loc, deltas[k]).contains(n)) by {
        let s = spec_available_exits(m, t);
        let j = choose|j: int| 0 <= j < s.len() && s[j] == n;
        let s0 = crate::map::spec_exit_seq(m, loc, deltas[0]);
        let s1 = crate::map::spec_exit_seq(m, loc, deltas[1]);
        let s2 = crate::map::spec_exit_seq(m, loc, deltas[2]);
        let s3 = crate::map::spec_exit_seq(m, loc, deltas[3]);
        assert(s == s0 + s1 + s2 + s3);
        if j < s0.len() {
            assert(s0.contains(n));
        } else if j < s0.len() + s1.len() {
            assert(s1[j - s0.len()] == n);
            assert(s1.contains(n));
        } else if j < s0.len() + s1.len() + s2.len() {
            assert(s2[j - s0.len() - s1.len()] == n);
            assert(s2.contains(n));
        } else {
            assert(s3[j - s0.len() - s1.len() - s2.len()] == n);
            assert(s3.contains(n));
        }
    }
    let k = choose|k: int|
        0 <= k < 4 && crate::map::spec_exit_seq(m, loc, deltas[k]).contains(n);
    let delta = deltas[k];
    let destination = Point {
        x: (loc.x + delta.x) as i32,
        y: (loc.y + delta.y) as i32,
    };
    assert(m.spec_can_enter(destination));
    assert(n == spec_idx(destination) as usize);
    crate::map::lemma_point_roundtrip(destination.x, destination.y);
}

/// The converse: an enterable neighbor of an in-range cell is listed among
/// that cell's exits.
pub proof fn lemma_neighbor_is_exit(m: GridMap, t: int, q: Point)
    requires
        m.wf(),
        0 <= t < NUM_TILES,
        m.spec_can_enter(q),
        spec_adjacent(spec_point_of(t), q),
    ensures
        spec_available_exits(m, t).contains((spec_idx(q)) as usize),
{
    reveal(crate::map::spec_available_exits);
    crate::map::lemma_idx_roundtrip(t);
    let loc = spec_point_of(t);
    let n = spec_idx(q) as usize;
    let s0 = crate::map::spec_exit_seq(m, loc, Point { x: -1i32, y: 0i32 });
    let s1 = crate::map::spec_exit_seq(m, loc, Point { x: 1i32, y: 0i32 });
    let s2 = crate::map::spec_exit_seq(m, loc, Point { x: 0i32, y: -1i32 });
    let s3 = crate::map::spec_exit_seq(m, loc, Point { x: 0i32, y: 1i32 });
    assert(spec_available_exits(m, t) == s0 + s1 + s2 + s3);
    if q.x == loc.x - 1 {
        assert(s0 == seq![n]);
        assert((s0 + s1 + s2 + s3)[0] == n);
    } else if q.x == loc.x + 1 {
        assert(s1 == seq![n]);
        assert((s0 + s1 + s2 + s3)[s0.len() as int] == n);
    } else if q.y == loc.y - 1 {
        assert(s2 == seq![n]);
        assert((s0 + s1 + s2 + s3)[s0.len() + s1.len() as int] == n);
    } else {
        assert(s3 == seq![n]);
        assert((s0 + s1 + s2 + s3)[s0.len() + s1.len() + s2.len() as int] == n);
    }
}

} // verus!
