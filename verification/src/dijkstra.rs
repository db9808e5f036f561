use vstd::prelude::*;

use crate::map::{spec_available_exits, spec_idx, spec_point_of, GridMap};
use crate::path::{
    is_path, is_path_between, lemma_exit_properties, lemma_neighbor_is_exit, reachable_within,
    spec_adjacent,
};
use crate::point::Point;
use crate::NUM_TILES;

verus! {

/// Cost held by tiles that no walk from a start tile can reach.
pub const UNREACHABLE: i32 = 2147483647;

/// A cost field ("flow map") over the grid: `map[i]` is the number of steps
/// from the nearest start tile to the cell at index `i`, or `UNREACHABLE`.
pub struct DijkstraMap {
    pub map: Vec<i32>,
}

/// Every start index is in range and names an enterable cell.
pub open spec fn starts_ok(m: GridMap, starts: Seq<usize>) -> bool {
    forall|j: int|
        0 <= j < starts.len() ==> (#[trigger] starts[j]) < NUM_TILES && m.spec_can_enter(
            spec_point_of(starts[j] as int),
        )
}

/// Some start tile reaches `p` in at most `n` steps.
pub open spec fn reachable_from_starts(m: GridMap, starts: Seq<usize>, p: Point, n: int) -> bool {
    exists|j: int|
        0 <= j < starts.len() && reachable_within(m, spec_point_of(#[trigger] starts[j] as int), p, n)
}

/// Every cost is either the sentinel or between 0 and `bound`.
pub open spec fn cost_range_ok(cm: Seq<i32>, bound: int) -> bool {
    forall|i: int| 0 <= i < cm.len() ==> #[trigger] cm[i] == UNREACHABLE || 0 <= cm[i] <= bound
}

/// Every start tile has cost zero.
pub open spec fn starts_zero(cm: Seq<i32>, starts: Seq<usize>) -> bool {
    forall|j: int| 0 <= j < starts.len() ==> cm[#[trigger] starts[j] as int] == 0
}

/// Every tile with a finite cost is enterable and is indeed reached from a
/// start in that many steps.
pub open spec fn costs_sound(m: GridMap, starts: Seq<usize>, cm: Seq<i32>) -> bool {
    forall|i: int|
        0 <= i < cm.len() && #[trigger] cm[i] != UNREACHABLE ==> m.spec_can_enter(spec_point_of(i))
            && reachable_from_starts(m, starts, spec_point_of(i), cm[i] as int)
}

/// Every exit of a tile whose finite cost is below `bound` has a finite cost
/// of at most one more.
pub open spec fn closed_below(m: GridMap, cm: Seq<i32>, bound: int) -> bool {
    forall|i: int, n: usize|
        0 <= i < cm.len() && cm[i] != UNREACHABLE && cm[i] < bound && #[trigger] spec_available_exits(
            m,
            i,
        ).contains(n) ==> cm[n as int] != UNREACHABLE && cm[n as int] <= cm[i] + 1
}

/// Every tile with a positive finite cost has an exit whose cost is exactly
/// one less: walking downhill always makes progress toward a start.
pub open spec fn has_downhill(m: GridMap, cm: Seq<i32>) -> bool {
    forall|i: int|
        0 <= i < cm.len() && #[trigger] cm[i] != UNREACHABLE && cm[i] > 0 ==> exists|n: usize|
            #[trigger] spec_available_exits(m, i).contains(n) && cm[n as int] == cm[i] - 1
}

/// What `find_lowest_exit` returns: the first exit holding the minimum cost
/// among the exits, provided that minimum undercuts the tile's own cost.
pub open spec fn lowest_exit_ok(cm: Seq<i32>, m: GridMap, idx: int, r: Option<usize>) -> bool {
    let e = spec_available_exits(m, idx);
    match r {
        Some(n) => {
            &&& e.contains(n)
            &&& cm[n as int] < cm[idx]
            &&& forall|k: int| 0 <= k < e.len() ==> cm[#[trigger] e[k] as int] >= cm[n as int]
            &&& exists|k: int|
                0 <= k < e.len() && e[k] == n && forall|k2: int|
                    0 <= k2 < k ==> cm[#[trigger] e[k2] as int] > cm[n as int]
        },
        None => forall|k: int| 0 <= k < e.len() ==> cm[#[trigger] e[k] as int] >= cm[idx],
    }
}

/// A cell reaches itself in no steps.
proof fn lemma_self_path(m: GridMap, p: Point)
    requires
        m.spec_can_enter(p),
    ensures
        reachable_within(m, p, p, 0),
{
    let s: Seq<Point> = seq![p];
    assert(is_path_between(m, s, p, p) && s.len() <= 0 + 1);
}

/// A bounded walk extends by one step to an enterable neighbor.
proof fn lemma_walk_extend(m: GridMap, starts: Seq<usize>, p: Point, q: Point, n: int)
    requires
        reachable_from_starts(m, starts, p, n),
        m.spec_can_enter(q),
        spec_adjacent(p, q),
    ensures
        reachable_from_starts(m, starts, q, n + 1),
{
    let j = choose|j: int|
        0 <= j < starts.len() && reachable_within(m, spec_point_of(#[trigger] starts[j] as int), p, n);
    let a = spec_point_of(starts[j] as int);
    let s = choose|s: Seq<Point>| is_path_between(m, s, a, p) && s.len() <= n + 1;
    let s2 = s.push(q);
    assert(s2.last() == q);
    assert(forall|i: int| 0 <= i < s.len() ==> s2[i] == s[i]);
    assert(is_path_between(m, s2, a, q)) by {
        assert(forall|i: int| 0 <= i < s2.len() - 1 ==> spec_adjacent(#[trigger] s2[i], s2[i + 1]))
            by {
            assert(s2[s.len() - 1] == p);
        }
    }
    assert(s2.len() <= n + 2);
    assert(reachable_within(m, spec_point_of(starts[j] as int), q, n + 1));
}
/// The state holding between edge relaxations of one breadth-first round at
/// depth `d`: `cm0` is the field as the round began, `frontier` the tiles of
/// cost `d`, `next` the tiles given cost `d + 1` so far.
pub open spec fn round_inv(
    m: GridMap,
    starts: Seq<usize>,
    cm0: Seq<i32>,
    cm: Seq<i32>,
    frontier: Seq<usize>,
    next: Seq<usize>,
    d: int,
) -> bool {
    &&& cm.len() == NUM_TILES
    &&& cm0.len() == NUM_TILES
    &&& cost_range_ok(cm0, d)
    &&& cost_range_ok(cm, d + 1)
    &&& (forall|t: int|
        0 <= t < NUM_TILES && cm0[t] != UNREACHABLE ==> #[trigger] cm[t] == cm0[t])
    &&& (forall|t: int|
        0 <= t < NUM_TILES && #[trigger] cm[t] != UNREACHABLE ==> cm0[t] != UNREACHABLE || cm[t]
            == d + 1)
    &&& (forall|kk: int|
        0 <= kk < frontier.len() ==> (#[trigger] frontier[kk]) < NUM_TILES && cm[frontier[kk] as int]
            == d)
    &&& (forall|t: int|
        0 <= t < NUM_TILES && #[trigger] cm[t] == d ==> frontier.contains(t as usize))
    &&& (forall|kk: int|
        0 <= kk < next.len() ==> (#[trigger] next[kk]) < NUM_TILES && cm[next[kk] as int] == d + 1)
    &&& (forall|t: int|
        0 <= t < NUM_TILES && #[trigger] cm[t] == d + 1 ==> next.contains(t as usize))
    &&& starts_zero(cm, starts)
    &&& costs_sound(m, starts, cm)
    &&& closed_below(m, cm, d)
    &&& has_downhill(m, cm)
}

/// Relax one edge of the round: give the exit `n` of the frontier tile `t`
/// cost `d + 1` if it has no cost yet.
#[verifier::rlimit(100)]
fn settle_exit(
    costs: &mut Vec<i32>,
    next: &mut Vec<usize>,
    t: usize,
    n: usize,
    d: i32,
    map: &GridMap,
    Ghost(starts): Ghost<Seq<usize>>,
    Ghost(cm0): Ghost<Seq<i32>>,
    Ghost(frontier): Ghost<Seq<usize>>,
)
    requires
        map.wf(),
        starts_ok(*map, starts),
        0 <= d < 1000000,
        round_inv(*map, starts, cm0, old(costs)@, frontier, old(next)@, d as int),
        t < NUM_TILES,
        old(costs)@[t as int] == d,
        spec_available_exits(*map, t as int).contains(n),
    ensures
        round_inv(*map, starts, cm0, final(costs)@, frontier, final(next)@, d as int),
        final(costs)@[n as int] != UNREACHABLE,
        forall|i: int|
            0 <= i < NUM_TILES && old(costs)@[i] != UNREACHABLE ==> #[trigger] final(costs)@[i]
                == old(costs)@[i],
{
    proof {
        lemma_exit_properties(*map, t as int, n);
    }
    if costs[n] == UNREACHABLE {
        let ghost costs_pre = costs@;
        let ghost next_pre = next@;
        costs[n] = d + 1;
        next.push(n);
        proof {
            let pn = spec_point_of(n as int);
            let pt = spec_point_of(t as int);
            // soundness of the new value
            assert(reachable_from_starts(*map, starts, pt, d as int));
            lemma_walk_extend(*map, starts, pt, pn, d as int);
            // membership in `next` survives the push
            assert forall|tt: int|
                0 <= tt < NUM_TILES && #[trigger] costs@[tt] == d + 1 implies next@.contains(
                tt as usize,
            ) by {
                if tt == n as int {
                    assert(next@[next@.len() - 1] == n);
                } else {
                    assert(next_pre.contains(tt as usize));
                    let w = choose|w: int|
                        0 <= w < next_pre.len() && next_pre[w] == tt as usize;
                    assert(next@[w] == tt as usize);
                }
            }
            // the new tile has a downhill exit: the tile it was found from
            assert(spec_available_exits(*map, n as int).contains(t) && costs@[t as int]
                == costs@[n as int] - 1) by {
                lemma_neighbor_is_exit(*map, n as int, pt);
                crate::map::lemma_idx_roundtrip(t as int);
            }
            assert forall|i: int|
                0 <= i < costs@.len() && #[trigger] costs@[i] != UNREACHABLE && costs@[i]
                    > 0 implies exists|w: usize|
                #[trigger] spec_available_exits(*map, i).contains(w) && costs@[w as int] == costs@[i]
                    - 1 by {
                if i == n as int {
                    assert(spec_available_exits(*map, i).contains(t));
                } else {
                    assert(costs_pre[i] == costs@[i]);
                    let w = choose|w: usize|
                        #[trigger] spec_available_exits(*map, i).contains(w) && costs_pre[w as int]
                            == costs_pre[i] - 1;
                    lemma_exit_properties(*map, i, w);
                    assert(costs_pre[w as int] != UNREACHABLE);
                    assert(costs@[w as int] == costs_pre[w as int]);
                }
            }
            // closure below d survives: every exit it speaks of already had
            // a finite cost
            assert forall|i: int, w: usize|
                0 <= i < costs@.len() && costs@[i] != UNREACHABLE && costs@[i] < d as int
                    && #[trigger] spec_available_exits(*map, i).contains(w) implies costs@[w as int]
                != UNREACHABLE && costs@[w as int] <= costs@[i] + 1 by {
                lemma_exit_properties(*map, i, w);
                assert(costs_pre[i] == costs@[i]);
                assert(costs_pre[w as int] != UNREACHABLE);
                assert(costs@[w as int] == costs_pre[w as int]);
            }
        }
    }
}

impl DijkstraMap {
    /// Build the cost field over `map` from the given start tiles by
    /// breadth-first relaxation over unit-cost 4-neighbor edges, exploring
    /// no further than `max_depth` steps.
    #[verifier::rlimit(100)]
    pub fn new(
        size_x: i32,
        size_y: i32,
        starts: &Vec<usize>,
        map: &GridMap,
        max_depth: i32,
    ) -> (r: DijkstraMap)
        requires
            map.wf(),
            size_x == crate::SCREEN_WIDTH,
            size_y == crate::SCREEN_HEIGHT,
            starts_ok(*map, starts@),
            1 <= max_depth <= 1000000,
        ensures
            r.map@.len() == NUM_TILES,
            cost_range_ok(r.map@, max_depth as int),
            starts_zero(r.map@, starts@),
            costs_sound(*map, starts@, r.map@),
            closed_below(*map, r.map@, max_depth as int),
            has_downhill(*map, r.map@),
    {
        let mut costs: Vec<i32> = Vec::new();
        let mut i: usize = 0;
        while i < NUM_TILES
            invariant
                i <= NUM_TILES,
                costs@.len() == i,
                forall|t: int| 0 <= t < i ==> costs@[t] == UNREACHABLE,
            decreases NUM_TILES - i,
        {
            costs.push(UNREACHABLE);
            i = i + 1;
        }

        let mut frontier: Vec<usize> = Vec::new();
        let mut j: usize = 0;
        while j < starts.len()
            invariant
                map.wf(),
                starts_ok(*map, starts@),
                j <= starts@.len(),
                costs@.len() == NUM_TILES,
                forall|t: int| 0 <= t < NUM_TILES ==> #[trigger] costs@[t] == UNREACHABLE
                    || costs@[t] == 0,
                forall|jj: int| 0 <= jj < j ==> costs@[#[trigger] starts@[jj] as int] == 0,
                forall|kk: int|
                    0 <= kk < frontier@.len() ==> (#[trigger] frontier@[kk]) < NUM_TILES
                        && costs@[frontier@[kk] as int] == 0,
                forall|t: int|
                    0 <= t < NUM_TILES && #[trigger] costs@[t] == 0 ==> frontier@.contains(
                        t as usize,
                    ),
                costs_sound(*map, starts@, costs@),
            decreases starts@.len() - j,
        {
            let s = starts[j];
            if costs[s] == UNREACHABLE {
                let ghost frontier_pre = frontier@;
                costs[s] = 0;
                frontier.push(s);
                proof {
                    lemma_self_path(*map, spec_point_of(s as int));
                    assert(reachable_from_starts(*map, starts@, spec_point_of(s as int), 0));
                    assert forall|t: int|
                        0 <= t < NUM_TILES && #[trigger] costs@[t] == 0 implies frontier@.contains(
                        t as usize,
                    ) by {
                        if t == s as int {
                            assert(frontier@[frontier@.len() - 1] == s);
                        } else {
                            assert(frontier_pre.contains(t as usize));
                            let w = choose|w: int|
                                0 <= w < frontier_pre.len() && frontier_pre[w] == t as usize;
                            assert(frontier@[w] == t as usize);
                        }
                    }
                }
            }
            j = j + 1;
        }

        let mut d: i32 = 0;
        while frontier.len() > 0 && d < max_depth
            invariant
                map.wf(),
                starts_ok(*map, starts@),
                1 <= max_depth <= 1000000,
                0 <= d <= max_depth,
                costs@.len() == NUM_TILES,
                cost_range_ok(costs@, d as int),
                forall|kk: int|
                    0 <= kk < frontier@.len() ==> (#[trigger] frontier@[kk]) < NUM_TILES
                        && costs@[frontier@[kk] as int] == d,
                forall|t: int|
                    0 <= t < NUM_TILES && #[trigger] costs@[t] == d ==> frontier@.contains(
                        t as usize,
                    ),
                starts_zero(costs@, starts@),
                costs_sound(*map, starts@, costs@),
                closed_below(*map, costs@, d as int),
                has_downhill(*map, costs@),
            decreases max_depth - d,
        {
            let ghost costs0 = costs@;
            let ghost frontier0 = frontier@;
            let mut next: Vec<usize> = Vec::new();
            let mut k: usize = 0;
            while k < frontier.len()
                invariant
                    map.wf(),
                    starts_ok(*map, starts@),
                    1 <= max_depth <= 1000000,
                    0 <= d < max_depth,
                    k <= frontier@.len(),
                    frontier@ == frontier0,
                    round_inv(*map, starts@, costs0, costs@, frontier0, next@, d as int),
                    forall|kp: int, n: usize|
                        0 <= kp < k && #[trigger] spec_available_exits(
                            *map,
                            frontier0[kp] as int,
                        ).contains(n) ==> n < NUM_TILES && costs@[n as int] != UNREACHABLE,
                decreases frontier@.len() - k,
            {
                let t = frontier[k];
                let exits = map.get_available_exits(t);
                let mut q: usize = 0;
                while q < exits.len()
                    invariant
                        map.wf(),
                        starts_ok(*map, starts@),
                        1 <= max_depth <= 1000000,
                        0 <= d < max_depth,
                        k < frontier@.len(),
                        frontier@ == frontier0,
                        t == frontier@[k as int],
                        t < NUM_TILES,
                        costs@[t as int] == d,
                        exits@ == spec_available_exits(*map, t as int),
                        q <= exits@.len(),
                        round_inv(*map, starts@, costs0, costs@, frontier0, next@, d as int),
                        forall|kp: int, n: usize|
                            0 <= kp < k && #[trigger] spec_available_exits(
                                *map,
                                frontier0[kp] as int,
                            ).contains(n) ==> n < NUM_TILES && costs@[n as int] != UNREACHABLE,
                        forall|kk: int|
                            0 <= kk < exits@.len() ==> (#[trigger] exits@[kk]) < NUM_TILES,
                        forall|qp: int|
                            0 <= qp < q ==> costs@[#[trigger] exits@[qp] as int] != UNREACHABLE,
                    decreases exits@.len() - q,
                {
                    let n = exits[q];
                    proof {
                        assert(spec_available_exits(*map, t as int).contains(exits@[q as int]));
                    }
                    settle_exit(
                        &mut costs,
                        &mut next,
                        t,
                        n,
                        d,
                        map,
                        Ghost(starts@),
                        Ghost(costs0),
                        Ghost(frontier0),
                    );
                    q = q + 1;
                }
                k = k + 1;
            }
            proof {
                // every exit of a cost-`d` tile was relaxed this round, so
                // the field is now closed one level deeper
                assert forall|i: int, w: usize|
                    0 <= i < costs@.len() && costs@[i] != UNREACHABLE && costs@[i] < d + 1
                        && #[trigger] spec_available_exits(*map, i).contains(w) implies (costs@[w as int]
                    != UNREACHABLE && costs@[w as int] <= costs@[i] + 1) by {
                    lemma_exit_properties(*map, i, w);
                    if costs@[i] < d as int {
                        assert(costs@[w as int] != UNREACHABLE && costs@[w as int] <= costs@[i] + 1);
                    } else {
                        assert(costs@[i] == d as int);
                        assert(frontier0.contains(i as usize));
                        let kp = choose|kp: int|
                            0 <= kp < frontier0.len() && frontier0[kp] == i as usize;
                        assert(spec_available_exits(*map, frontier0[kp] as int).contains(w));
                        assert(costs@[w as int] != UNREACHABLE);
                        assert(costs@[w as int] <= d + 1);
                    }
                }
            }
            frontier = next;
            d = d + 1;
        }
        proof {
            if frontier@.len() == 0 {
                assert forall|i: int, w: usize|
                    0 <= i < costs@.len() && costs@[i] != UNREACHABLE && costs@[i]
                        < max_depth as int && #[trigger] spec_available_exits(*map, i).contains(
                        w,
                    ) implies costs@[w as int] != UNREACHABLE && costs@[w as int] <= costs@[i]
                    + 1 by {
                    assert(costs@[i] != d || frontier@.contains(i as usize));
                    assert(costs@[i] < d);
                }
            }
        }
        DijkstraMap { map: costs }
    }
    /// Among the exits of `idx`, the first one holding the minimum cost,
    /// provided that cost is strictly below the cost of `idx` itself;
    /// `None` when `idx` is already a local minimum of the field.
    pub fn find_lowest_exit(dm: &DijkstraMap, idx: usize, map: &GridMap) -> (r: Option<usize>)
        requires
            map.wf(),
            dm.map@.len() == NUM_TILES,
            idx < NUM_TILES,
        ensures
            lowest_exit_ok(dm.map@, *map, idx as int, r),
    {
        let exits = map.get_available_exits(idx);
        let mut best: Option<usize> = None;
        let mut best_cost: i32 = UNREACHABLE;
        let mut k: usize = 0;
        let ghost mut best_at: int = 0;
        while k < exits.len()
            invariant
                map.wf(),
                dm.map@.len() == NUM_TILES,
                idx < NUM_TILES,
                exits@ == spec_available_exits(*map, idx as int),
                k <= exits@.len(),
                forall|kk: int|
                    0 <= kk < exits@.len() ==> (#[trigger] exits@[kk]) < NUM_TILES,
                match best {
                    Some(n) => {
                        &&& 0 <= best_at < k
                        &&& exits@[best_at] == n
                        &&& dm.map@[n as int] == best_cost
                        &&& forall|k2: int|
                            0 <= k2 < best_at ==> dm.map@[#[trigger] exits@[k2] as int] > best_cost
                        &&& forall|k2: int|
                            0 <= k2 < k ==> dm.map@[#[trigger] exits@[k2] as int] >= best_cost
                    },
                    None => best_cost == UNREACHABLE && forall|k2: int|
                        0 <= k2 < k ==> dm.map@[#[trigger] exits@[k2] as int] == UNREACHABLE,
                },
            decreases exits@.len() - k,
        {
            proof {
                assert(spec_available_exits(*map, idx as int).contains(exits@[k as int]));
                lemma_exit_properties(*map, idx as int, exits@[k as int]);
            }
            let n = exits[k];
            let c = dm.map[n];
            if c < best_cost {
                best = Some(n);
                best_cost = c;
                proof {
                    best_at = k as int;
                }
            }
            k = k + 1;
        }
        match best {
            Some(n) => {
                if best_cost < dm.map[idx] {
                    Some(n)
                } else {
                    None
                }
            },
            None => None,
        }
    }
}

/// Along any walk that begins at a start tile and is no longer than the
/// exploration ceiling, the finished cost field never exceeds the walk's
/// length: together with `costs_sound`, the field holds exact shortest
/// distances for every tile reachable within the ceiling.
pub proof fn lemma_cost_bounds_walk(
    m: GridMap,
    starts: Seq<usize>,
    cm: Seq<i32>,
    max_depth: int,
    s: Seq<Point>,
    j: int,
)
    requires
        m.wf(),
        cm.len() == NUM_TILES,
        starts_zero(cm, starts),
        closed_below(m, cm, max_depth),
        cost_range_ok(cm, max_depth),
        0 <= j < starts.len(),
        starts[j] < NUM_TILES,
        is_path(m, s),
        s.first() == spec_point_of(starts[j] as int),
        s.len() - 1 <= max_depth,
    ensures
        cm[spec_idx(s.last())] != UNREACHABLE,
        cm[spec_idx(s.last())] <= s.len() - 1,
    decreases s.len(),
{
    crate::map::lemma_idx_roundtrip(starts[j] as int);
    if s.len() == 1 {
        assert(s.last() == s.first());
    } else {
        let prev = s.drop_last();
        assert(is_path(m, prev)) by {
            assert(forall|i: int| 0 <= i < prev.len() ==> prev[i] == s[i]);
        }
        assert(prev.first() == s.first());
        lemma_cost_bounds_walk(m, starts, cm, max_depth, prev, j);
        let pi = spec_idx(prev.last());
        let q = s.last();
        assert(spec_adjacent(s[s.len() - 2], s[s.len() - 1]));
        assert(prev.last() == s[s.len() - 2]);
        assert(m.spec_can_enter(prev.last()));
        assert(0 <= pi < NUM_TILES);
        assert(spec_point_of(pi) == prev.last()) by {
            crate::map::lemma_point_roundtrip(prev.last().x, prev.last().y);
        }
        lemma_neighbor_is_exit(m, pi, q);
        assert(cm[pi] < max_depth);
        assert(spec_available_exits(m, pi).contains(spec_idx(q) as usize));
    }
}

} // verus!
