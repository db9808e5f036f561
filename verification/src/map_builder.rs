use vstd::prelude::*;

use crate::dijkstra::{
    cost_range_ok, closed_below, costs_sound, has_downhill, reachable_from_starts, starts_ok,
    starts_zero, DijkstraMap, UNREACHABLE,
};
use crate::map::{map_idx, index_to_point, spec_idx, spec_in_bounds, spec_point_of, GridMap, TileType};
use crate::path::reachable;
use crate::point::Point;
use crate::random::random_range;
use crate::rect::Rect;
use crate::{NUM_TILES, SCREEN_HEIGHT, SCREEN_WIDTH};

verus! {

/// Number of rooms the builder places.
pub const NUM_ROOMS: usize = 20;

/// How many room samples the builder will try before giving up on reaching
/// `NUM_ROOMS`; rejections are common but run out long before this bound.
pub const ROOM_ATTEMPTS: u32 = 1000000;

/// Exploration ceiling handed to the cost field when placing the amulet.
pub const AMULET_SEARCH_DEPTH: i32 = 1024;

/// A room the builder accepts: between 2 and 9 cells wide and high (the
/// sampler draws both sides from that range), strictly inside the map
/// border.
pub open spec fn room_ok(r: Rect) -> bool {
    &&& 1 <= r.x1
    &&& r.x1 + 2 <= r.x2
    &&& r.x2 <= r.x1 + 9
    &&& r.x2 <= SCREEN_WIDTH - 1
    &&& 1 <= r.y1
    &&& r.y1 + 2 <= r.y2
    &&& r.y2 <= r.y1 + 9
    &&& r.y2 <= SCREEN_HEIGHT - 1
}

/// Every room in the sequence is acceptable.
pub open spec fn all_rooms_ok(rooms: Seq<Rect>) -> bool {
    forall|j: int| 0 <= j < rooms.len() ==> room_ok(#[trigger] rooms[j])
}

/// No two distinct rooms touch or overlap.
pub open spec fn rooms_disjoint(rooms: Seq<Rect>) -> bool {
    forall|i: int, j: int|
        0 <= i < j < rooms.len() ==> !(#[trigger] rooms[i]).spec_intersect(#[trigger] rooms[j])
}

/// Some room's interior covers the point.
pub open spec fn room_covers(rooms: Seq<Rect>, p: Point) -> bool {
    exists|j: int| 0 <= j < rooms.len() && (#[trigger] rooms[j]).spec_contains(p)
}

/// A smallest acceptable room with low corner (x, y) would overlap none of
/// the given rooms.
pub open spec fn room_fits(rooms: Seq<Rect>, x: int, y: int) -> bool {
    forall|j: int|
        0 <= j < rooms.len() ==> !(#[trigger] rooms[j]).spec_intersect(
            Rect { x1: x as i32, y1: y as i32, x2: (x + 2) as i32, y2: (y + 2) as i32 },
        )
}

/// No smallest acceptable room fits anywhere in the sampling window: the
/// map is saturated and no placement of any size could be accepted either.
pub open spec fn no_small_room_fits(rooms: Seq<Rect>) -> bool {
    forall|x: int, y: int|
        1 <= x < SCREEN_WIDTH - 10 && 1 <= y < SCREEN_HEIGHT - 10 ==> !#[trigger] room_fits(
            rooms,
            x,
            y,
        )
}

/// Candidate spots twelve or more cells apart on an axis: no single
/// acceptable room can overlap the smallest rooms at both.
pub open spec fn spots_apart(a: (i32, i32), b: (i32, i32)) -> bool {
    ||| a.0 - b.0 >= 12
    ||| b.0 - a.0 >= 12
    ||| a.1 - b.1 >= 12
    ||| b.1 - a.1 >= 12
}

/// The smallest acceptable room with low corner at the spot.
pub open spec fn spot_rect(a: (i32, i32)) -> Rect {
    Rect { x1: a.0, y1: a.1, x2: (a.0 + 2) as i32, y2: (a.1 + 2) as i32 }
}

/// Some room of the list overlaps the smallest room at the spot.
pub open spec fn spot_blocked(rooms: Seq<Rect>, a: (i32, i32)) -> bool {
    exists|j: int| 0 <= j < rooms.len() && (#[trigger] rooms[j]).spec_intersect(spot_rect(a))
}

/// An acceptable room spans at most 9 cells per axis, so it cannot overlap
/// the smallest rooms at two spots twelve apart.
proof fn lemma_room_blocks_one_spot(r: Rect, a: (i32, i32), b: (i32, i32))
    requires
        room_ok(r),
        spots_apart(a, b),
        1 <= a.0 < SCREEN_WIDTH - 10,
        1 <= a.1 < SCREEN_HEIGHT - 10,
        1 <= b.0 < SCREEN_WIDTH - 10,
        1 <= b.1 < SCREEN_HEIGHT - 10,
        r.spec_intersect(spot_rect(a)),
    ensures
        !r.spec_intersect(spot_rect(b)),
{
}

/// If every spot in a pairwise-separated list is overlapped by some room of
/// the list, there are at least as many rooms as spots.
proof fn lemma_blocked_spots_need_rooms(rooms: Seq<Rect>, spots: Seq<(i32, i32)>)
    requires
        all_rooms_ok(rooms),
        forall|c: int|
            0 <= c < spots.len() ==> 1 <= (#[trigger] spots[c]).0 < SCREEN_WIDTH - 10 && 1
                <= spots[c].1 < SCREEN_HEIGHT - 10,
        forall|c1: int, c2: int|
            0 <= c1 < c2 < spots.len() ==> spots_apart(
                #[trigger] spots[c1],
                #[trigger] spots[c2],
            ),
        forall|c: int| 0 <= c < spots.len() ==> #[trigger] spot_blocked(rooms, spots[c]),
    ensures
        rooms.len() >= spots.len(),
    decreases spots.len(),
{
    if spots.len() > 0 {
        assert(spot_blocked(rooms, spots[0]));
        let j = choose|j: int|
            0 <= j < rooms.len() && (#[trigger] rooms[j]).spec_intersect(spot_rect(spots[0]));
        let blocker = rooms[j];
        let rest_rooms = rooms.remove(j);
        let rest_spots = spots.subrange(1, spots.len() as int);
        assert forall|c: int|
            0 <= c < rest_spots.len() implies #[trigger] spot_blocked(
            rest_rooms,
            rest_spots[c],
        ) by {
            assert(rest_spots[c] == spots[c + 1]);
            assert(spot_blocked(rooms, spots[c + 1]));
            let j2 = choose|j2: int|
                0 <= j2 < rooms.len() && (#[trigger] rooms[j2]).spec_intersect(
                    spot_rect(spots[c + 1]),
                );
            assert(j2 != j) by {
                if j2 == j {
                    assert(spots_apart(spots[0], spots[c + 1]));
                    lemma_room_blocks_one_spot(blocker, spots[0], spots[c + 1]);
                }
            }
            if j2 < j {
                assert(rest_rooms[j2] == rooms[j2]);
                assert(rest_rooms[j2].spec_intersect(spot_rect(rest_spots[c])));
            } else {
                assert(rest_rooms[j2 - 1] == rooms[j2]);
                assert(rest_rooms[j2 - 1].spec_intersect(spot_rect(rest_spots[c])));
            }
        }
        assert forall|jj: int| 0 <= jj < rest_rooms.len() implies room_ok(
            #[trigger] rest_rooms[jj],
        ) by {
            if jj < j {
                assert(rest_rooms[jj] == rooms[jj]);
            } else {
                assert(rest_rooms[jj] == rooms[jj + 1]);
            }
        }
        assert forall|c1: int, c2: int|
            0 <= c1 < c2 < rest_spots.len() implies spots_apart(
            #[trigger] rest_spots[c1],
            #[trigger] rest_spots[c2],
        ) by {
            assert(rest_spots[c1] == spots[c1 + 1] && rest_spots[c2] == spots[c2 + 1]);
        }
        lemma_blocked_spots_need_rooms(rest_rooms, rest_spots);
    }
}

/// Fewer rooms than the twenty-four separated probe spots cannot saturate
/// the sampling window: somewhere a smallest room still fits.
proof fn lemma_room_always_fits(rooms: Seq<Rect>)
    requires
        all_rooms_ok(rooms),
        rooms.len() < NUM_ROOMS,
    ensures
        !no_small_room_fits(rooms),
{
    if no_small_room_fits(rooms) {
        let spots: Seq<(i32, i32)> = seq![
            (1i32, 1i32),
            (13i32, 1i32),
            (25i32, 1i32),
            (37i32, 1i32),
            (49i32, 1i32),
            (61i32, 1i32),
            (1i32, 13i32),
            (13i32, 13i32),
            (25i32, 13i32),
            (37i32, 13i32),
            (49i32, 13i32),
            (61i32, 13i32),
            (1i32, 25i32),
            (13i32, 25i32),
            (25i32, 25i32),
            (37i32, 25i32),
            (49i32, 25i32),
            (61i32, 25i32),
            (1i32, 37i32),
            (13i32, 37i32),
            (25i32, 37i32),
            (37i32, 37i32),
            (49i32, 37i32),
            (61i32, 37i32),
        ];
        assert forall|c: int|
            0 <= c < spots.len() implies #[trigger] spot_blocked(rooms, spots[c]) by {
            assert(!room_fits(rooms, spots[c].0 as int, spots[c].1 as int));
            let j = choose|j: int|
                0 <= j < rooms.len() && (#[trigger] rooms[j]).spec_intersect(
                    Rect {
                        x1: (spots[c].0 as int) as i32,
                        y1: (spots[c].1 as int) as i32,
                        x2: (spots[c].0 as int + 2) as i32,
                        y2: (spots[c].1 as int + 2) as i32,
                    },
                );
            assert(rooms[j].spec_intersect(spot_rect(spots[c])));
        }
        lemma_blocked_spots_need_rooms(rooms, spots);
    }
}

/// Every cell interior to a room holds a floor tile.
pub open spec fn room_tiles_floor(m: GridMap, rooms: Seq<Rect>) -> bool {
    forall|j: int, p: Point|
        0 <= j < rooms.len() && #[trigger] rooms[j].spec_contains(p) ==> m.spec_can_enter(p)
}

/// Every in-bounds cell of the horizontal segment at row `y` between the
/// two columns is walkable floor.
pub open spec fn horizontal_floor(m: GridMap, x1: int, x2: int, y: int) -> bool {
    forall|x: int|
        (if x1 <= x2 {
            x1
        } else {
            x2
        }) <= x <= (if x1 <= x2 {
            x2
        } else {
            x1
        }) && spec_in_bounds(Point { x: x as i32, y: y as i32 }) ==> #[trigger] m.spec_can_enter(
            Point { x: x as i32, y: y as i32 },
        )
}

/// Every in-bounds cell of the vertical segment at column `x` between the
/// two rows is walkable floor.
pub open spec fn vertical_floor(m: GridMap, y1: int, y2: int, x: int) -> bool {
    forall|y: int|
        (if y1 <= y2 {
            y1
        } else {
            y2
        }) <= y <= (if y1 <= y2 {
            y2
        } else {
            y1
        }) && spec_in_bounds(Point { x: x as i32, y: y as i32 }) ==> #[trigger] m.spec_can_enter(
            Point { x: x as i32, y: y as i32 },
        )
}

/// An L-shaped floor corridor joins `p` to `q`: one of the two bends,
/// horizontal-then-vertical or vertical-then-horizontal, is entirely floor.
pub open spec fn corridor_between(m: GridMap, p: Point, q: Point) -> bool {
    ||| (horizontal_floor(m, p.x as int, q.x as int, p.y as int) && vertical_floor(
        m,
        p.y as int,
        q.y as int,
        q.x as int,
    ))
    ||| (vertical_floor(m, p.y as int, q.y as int, p.x as int) && horizontal_floor(
        m,
        p.x as int,
        q.x as int,
        q.y as int,
    ))
}

/// The rooms stand in ascending order of center x-coordinate.
pub open spec fn sorted_by_center(s: Seq<Rect>) -> bool {
    forall|i: int, j: int|
        0 <= i < j < s.len() ==> (#[trigger] s[i]).spec_center().x
            <= (#[trigger] s[j]).spec_center().x
}

/// Each consecutive pair of rooms has an L-shaped floor corridor between
/// their centers.
pub open spec fn corridors_connect(m: GridMap, s: Seq<Rect>) -> bool {
    forall|j: int|
        1 <= j < s.len() ==> corridor_between(
            m,
            (#[trigger] s[j - 1]).spec_center(),
            s[j].spec_center(),
        )
}

/// The point lies on the horizontal segment at row `y` between the two
/// columns.
pub open spec fn on_row_segment(x1: int, x2: int, y: int, p: Point) -> bool {
    p.y == y && (if x1 <= x2 {
        x1
    } else {
        x2
    }) <= p.x <= (if x1 <= x2 {
        x2
    } else {
        x1
    })
}

/// The point lies on the vertical segment at column `x` between the two
/// rows.
pub open spec fn on_col_segment(y1: int, y2: int, x: int, p: Point) -> bool {
    p.x == x && (if y1 <= y2 {
        y1
    } else {
        y2
    }) <= p.y <= (if y1 <= y2 {
        y2
    } else {
        y1
    })
}

/// The point lies on one of the two L-shaped bends joining `a` to `b`.
pub open spec fn on_l_corridors(a: Point, b: Point, p: Point) -> bool {
    ||| on_row_segment(a.x as int, b.x as int, a.y as int, p)
    ||| on_col_segment(a.y as int, b.y as int, b.x as int, p)
    ||| on_col_segment(a.y as int, b.y as int, a.x as int, p)
    ||| on_row_segment(a.x as int, b.x as int, b.y as int, p)
}

/// The point lies on a corridor joining some consecutive pair of the
/// room chain.
pub open spec fn on_connecting_corridor(s: Seq<Rect>, p: Point) -> bool {
    exists|j: int|
        1 <= j < s.len() && on_l_corridors(
            (#[trigger] s[j - 1]).spec_center(),
            s[j].spec_center(),
            p,
        )
}

/// A carved corridor survives any later carving: turning more tiles to
/// floor never breaks a floor corridor.
proof fn lemma_corridor_preserved(m1: GridMap, m2: GridMap, p: Point, q: Point)
    requires
        m1.wf(),
        m2.wf(),
        corridor_between(m1, p, q),
        forall|i: int|
            0 <= i < NUM_TILES && m1.tiles@[i] == TileType::Floor ==> m2.tiles@[i]
                == TileType::Floor,
    ensures
        corridor_between(m2, p, q),
{
    if horizontal_floor(m1, p.x as int, q.x as int, p.y as int) && vertical_floor(
        m1,
        p.y as int,
        q.y as int,
        q.x as int,
    ) {
        lemma_horizontal_floor_preserved(m1, m2, p.x as int, q.x as int, p.y as int);
        lemma_vertical_floor_preserved(m1, m2, p.y as int, q.y as int, q.x as int);
    } else {
        lemma_vertical_floor_preserved(m1, m2, p.y as int, q.y as int, p.x as int);
        lemma_horizontal_floor_preserved(m1, m2, p.x as int, q.x as int, q.y as int);
    }
}

/// A floor segment survives further carving.
proof fn lemma_horizontal_floor_preserved(m1: GridMap, m2: GridMap, x1: int, x2: int, y: int)
    requires
        m1.wf(),
        m2.wf(),
        horizontal_floor(m1, x1, x2, y),
        forall|i: int|
            0 <= i < NUM_TILES && m1.tiles@[i] == TileType::Floor ==> m2.tiles@[i]
                == TileType::Floor,
    ensures
        horizontal_floor(m2, x1, x2, y),
{
    let lo = if x1 <= x2 {
        x1
    } else {
        x2
    };
    let hi = if x1 <= x2 {
        x2
    } else {
        x1
    };
    assert forall|x: int|
        lo <= x <= hi && spec_in_bounds(Point { x: x as i32, y: y as i32 }) implies #[trigger] m2.spec_can_enter(
        Point { x: x as i32, y: y as i32 },
    ) by {
        let c = Point { x: x as i32, y: y as i32 };
        assert(m1.spec_can_enter(c));
        assert(0 <= spec_idx(c) < NUM_TILES);
    }
}

/// A floor segment survives further carving.
proof fn lemma_vertical_floor_preserved(m1: GridMap, m2: GridMap, y1: int, y2: int, x: int)
    requires
        m1.wf(),
        m2.wf(),
        vertical_floor(m1, y1, y2, x),
        forall|i: int|
            0 <= i < NUM_TILES && m1.tiles@[i] == TileType::Floor ==> m2.tiles@[i]
                == TileType::Floor,
    ensures
        vertical_floor(m2, y1, y2, x),
{
    let lo = if y1 <= y2 {
        y1
    } else {
        y2
    };
    let hi = if y1 <= y2 {
        y2
    } else {
        y1
    };
    assert forall|y: int|
        lo <= y <= hi && spec_in_bounds(Point { x: x as i32, y: y as i32 }) implies #[trigger] m2.spec_can_enter(
        Point { x: x as i32, y: y as i32 },
    ) by {
        let c = Point { x: x as i32, y: y as i32 };
        assert(m1.spec_can_enter(c));
        assert(0 <= spec_idx(c) < NUM_TILES);
    }
}

/// A row band of floor tiles gives the horizontal segment predicate.
proof fn lemma_row_floor(m: GridMap, x1: int, x2: int, y: int)
    requires
        m.wf(),
        -100000 <= x1 <= 100000,
        -100000 <= x2 <= 100000,
        -100000 <= y <= 100000,
        forall|i: int|
            0 <= i < NUM_TILES && spec_point_of(i).y == y && (if x1 <= x2 {
                x1
            } else {
                x2
            }) <= spec_point_of(i).x && spec_point_of(i).x <= (if x1 <= x2 {
                x2
            } else {
                x1
            }) ==> m.tiles@[i] == TileType::Floor,
    ensures
        horizontal_floor(m, x1, x2, y),
{
    assert forall|x: int|
        (if x1 <= x2 {
            x1
        } else {
            x2
        }) <= x <= (if x1 <= x2 {
            x2
        } else {
            x1
        }) && spec_in_bounds(Point { x: x as i32, y: y as i32 }) implies #[trigger] m.spec_can_enter(
        Point { x: x as i32, y: y as i32 },
    ) by {
        let c = Point { x: x as i32, y: y as i32 };
        crate::map::lemma_point_roundtrip(c.x, c.y);
        assert(0 <= spec_idx(c) < NUM_TILES);
        assert(spec_point_of(spec_idx(c)) == c);
        assert(m.tiles@[spec_idx(c)] == TileType::Floor);
    }
}

/// A column band of floor tiles gives the vertical segment predicate.
proof fn lemma_col_floor(m: GridMap, y1: int, y2: int, x: int)
    requires
        m.wf(),
        -100000 <= y1 <= 100000,
        -100000 <= y2 <= 100000,
        -100000 <= x <= 100000,
        forall|i: int|
            0 <= i < NUM_TILES && spec_point_of(i).x == x && (if y1 <= y2 {
                y1
            } else {
                y2
            }) <= spec_point_of(i).y && spec_point_of(i).y <= (if y1 <= y2 {
                y2
            } else {
                y1
            }) ==> m.tiles@[i] == TileType::Floor,
    ensures
        vertical_floor(m, y1, y2, x),
{
    assert forall|y: int|
        (if y1 <= y2 {
            y1
        } else {
            y2
        }) <= y <= (if y1 <= y2 {
            y2
        } else {
            y1
        }) && spec_in_bounds(Point { x: x as i32, y: y as i32 }) implies #[trigger] m.spec_can_enter(
        Point { x: x as i32, y: y as i32 },
    ) by {
        let c = Point { x: x as i32, y: y as i32 };
        crate::map::lemma_point_roundtrip(c.x, c.y);
        assert(0 <= spec_idx(c) < NUM_TILES);
        assert(spec_point_of(spec_idx(c)) == c);
        assert(m.tiles@[spec_idx(c)] == TileType::Floor);
    }
}

/// One cell of a floor row segment can be entered.
proof fn lemma_row_floor_cell(m: GridMap, x1: int, x2: int, y: int, c: Point)
    requires
        horizontal_floor(m, x1, x2, y),
        (if x1 <= x2 {
            x1
        } else {
            x2
        }) <= c.x as int <= (if x1 <= x2 {
            x2
        } else {
            x1
        }),
        c.y as int == y,
        spec_in_bounds(c),
    ensures
        m.spec_can_enter(c),
{
    assert(c == (Point { x: (c.x as int) as i32, y: y as i32 }));
    assert(m.spec_can_enter(Point { x: (c.x as int) as i32, y: y as i32 }));
}

/// One cell of a floor column segment can be entered.
proof fn lemma_col_floor_cell(m: GridMap, y1: int, y2: int, x: int, c: Point)
    requires
        vertical_floor(m, y1, y2, x),
        (if y1 <= y2 {
            y1
        } else {
            y2
        }) <= c.y as int <= (if y1 <= y2 {
            y2
        } else {
            y1
        }),
        c.x as int == x,
        spec_in_bounds(c),
    ensures
        m.spec_can_enter(c),
{
    assert(c == (Point { x: x as i32, y: (c.y as int) as i32 }));
    assert(m.spec_can_enter(Point { x: x as i32, y: (c.y as int) as i32 }));
}

/// A floor row segment can be walked from one end to the other.
proof fn lemma_row_reachable(m: GridMap, p: Point, q: Point)
    requires
        m.wf(),
        p.y == q.y,
        spec_in_bounds(p),
        spec_in_bounds(q),
        horizontal_floor(m, p.x as int, q.x as int, p.y as int),
    ensures
        reachable(m, p, q),
    decreases (if p.x <= q.x {
        q.x - p.x
    } else {
        p.x - q.x
    }),
{
    lemma_row_floor_cell(m, p.x as int, q.x as int, p.y as int, p);
    if p.x == q.x {
        crate::path::lemma_reachable_self(m, p);
    } else {
        let step = Point { x: (if p.x < q.x { p.x + 1 } else { p.x - 1 }) as i32, y: p.y };
        lemma_row_floor_cell(m, p.x as int, q.x as int, p.y as int, step);
        assert(horizontal_floor(m, step.x as int, q.x as int, p.y as int)) by {
            assert forall|x: int|
                (if step.x as int <= q.x as int {
                    step.x as int
                } else {
                    q.x as int
                }) <= x <= (if step.x as int <= q.x as int {
                    q.x as int
                } else {
                    step.x as int
                }) && spec_in_bounds(Point { x: x as i32, y: (p.y as int) as i32 }) implies #[trigger] m.spec_can_enter(
                Point { x: x as i32, y: (p.y as int) as i32 },
            ) by {}
        }
        lemma_row_reachable(m, step, q);
        let s0: Seq<Point> = seq![p, step];
        assert(crate::path::is_path_between(m, s0, p, step));
        assert(reachable(m, p, step));
        crate::path::lemma_reachable_trans(m, p, step, q);
    }
}

/// A floor column segment can be walked from one end to the other.
proof fn lemma_col_reachable(m: GridMap, p: Point, q: Point)
    requires
        m.wf(),
        p.x == q.x,
        spec_in_bounds(p),
        spec_in_bounds(q),
        vertical_floor(m, p.y as int, q.y as int, p.x as int),
    ensures
        reachable(m, p, q),
    decreases (if p.y <= q.y {
        q.y - p.y
    } else {
        p.y - q.y
    }),
{
    lemma_col_floor_cell(m, p.y as int, q.y as int, p.x as int, p);
    if p.y == q.y {
        crate::path::lemma_reachable_self(m, p);
    } else {
        let step = Point { x: p.x, y: (if p.y < q.y { p.y + 1 } else { p.y - 1 }) as i32 };
        lemma_col_floor_cell(m, p.y as int, q.y as int, p.x as int, step);
        assert(vertical_floor(m, step.y as int, q.y as int, p.x as int)) by {
            assert forall|y: int|
                (if step.y as int <= q.y as int {
                    step.y as int
                } else {
                    q.y as int
                }) <= y <= (if step.y as int <= q.y as int {
                    q.y as int
                } else {
                    step.y as int
                }) && spec_in_bounds(Point { x: (p.x as int) as i32, y: y as i32 }) implies #[trigger] m.spec_can_enter(
                Point { x: (p.x as int) as i32, y: y as i32 },
            ) by {}
        }
        lemma_col_reachable(m, step, q);
        let s0: Seq<Point> = seq![p, step];
        assert(crate::path::is_path_between(m, s0, p, step));
        assert(reachable(m, p, step));
        crate::path::lemma_reachable_trans(m, p, step, q);
    }
}

/// An L-shaped floor corridor can be walked from one end to the other.
proof fn lemma_corridor_reachable(m: GridMap, p: Point, q: Point)
    requires
        m.wf(),
        spec_in_bounds(p),
        spec_in_bounds(q),
        corridor_between(m, p, q),
    ensures
        reachable(m, p, q),
{
    if horizontal_floor(m, p.x as int, q.x as int, p.y as int) && vertical_floor(
        m,
        p.y as int,
        q.y as int,
        q.x as int,
    ) {
        let corner = Point { x: q.x, y: p.y };
        lemma_row_reachable(m, p, corner);
        lemma_col_reachable(m, corner, q);
        crate::path::lemma_reachable_trans(m, p, corner, q);
    } else {
        let corner = Point { x: p.x, y: q.y };
        lemma_col_reachable(m, p, corner);
        lemma_row_reachable(m, corner, q);
        crate::path::lemma_reachable_trans(m, p, corner, q);
    }
}

/// Along a corridor-connected room chain, the first room's center reaches
/// every other center.
proof fn lemma_chain_reachable(m: GridMap, s: Seq<Rect>, j: int)
    requires
        m.wf(),
        all_rooms_ok(s),
        corridors_connect(m, s),
        room_tiles_floor(m, s),
        0 <= j < s.len(),
    ensures
        reachable(m, s[0].spec_center(), s[j].spec_center()),
    decreases j,
{
    lemma_center_in_room(s[j]);
    assert(m.spec_can_enter(s[j].spec_center()));
    if j == 0 {
        crate::path::lemma_reachable_self(m, s[0].spec_center());
    } else {
        lemma_chain_reachable(m, s, j - 1);
        lemma_center_in_room(s[j - 1]);
        lemma_corridor_reachable(m, s[j - 1].spec_center(), s[j].spec_center());
        crate::path::lemma_reachable_trans(
            m,
            s[0].spec_center(),
            s[j - 1].spec_center(),
            s[j].spec_center(),
        );
    }
}

/// An acceptable room contains its own center.
pub proof fn lemma_center_in_room(r: Rect)
    requires
        room_ok(r),
    ensures
        r.spec_contains(r.spec_center()),
{
    assert(r.x1 + 1 <= (r.x1 + r.x2) / 2 <= r.x2 - 1);
    assert(r.y1 + 1 <= (r.y1 + r.y2) / 2 <= r.y2 - 1);
}

/// Carve the interior of `room` to floor, leaving every other cell alone.
fn carve_room(map: &mut GridMap, room: Rect)
    requires
        old(map).wf(),
        room_ok(room),
    ensures
        final(map).wf(),
        forall|i: int|
            0 <= i < NUM_TILES ==> final(map).tiles@[i] == (if room.spec_contains(
                spec_point_of(i),
            ) {
                TileType::Floor
            } else {
                old(map).tiles@[i]
            }),
        final(map).revealed_tiles == old(map).revealed_tiles,
{
    let mut y = room.y1;
    while y < room.y2
        invariant
            map.wf(),
            room_ok(room),
            room.y1 <= y <= room.y2,
            forall|i: int|
                0 <= i < NUM_TILES ==> map.tiles@[i] == (if room.spec_contains(spec_point_of(i))
                    && spec_point_of(i).y < y {
                    TileType::Floor
                } else {
                    old(map).tiles@[i]
                }),
            map.revealed_tiles == old(map).revealed_tiles,
        decreases room.y2 - y,
    {
        let mut x = room.x1;
        while x < room.x2
            invariant
                map.wf(),
                room_ok(room),
                room.y1 <= y < room.y2,
                room.x1 <= x <= room.x2,
                forall|i: int|
                    0 <= i < NUM_TILES ==> map.tiles@[i] == (if room.spec_contains(spec_point_of(i))
                        && (spec_point_of(i).y < y || (spec_point_of(i).y == y && spec_point_of(
                        i,
                    ).x < x)) {
                        TileType::Floor
                    } else {
                        old(map).tiles@[i]
                    }),
                map.revealed_tiles == old(map).revealed_tiles,
            decreases room.x2 - x,
        {
            if x > 0 && x < SCREEN_WIDTH && y > 0 && y < SCREEN_HEIGHT {
                let idx = map_idx(x, y);
                self_set_tile(map, idx, TileType::Floor);
                proof {
                    crate::map::lemma_point_roundtrip(x, y);
                    assert forall|i: int| 0 <= i < NUM_TILES && i != idx as int implies spec_point_of(
                        i,
                    ) != (Point { x, y }) by {
                        crate::map::lemma_idx_roundtrip(i);
                    }
                }
            }
            x = x + 1;
        }
        y = y + 1;
    }
}

/// Set one tile of the grid.
fn self_set_tile(map: &mut GridMap, idx: usize, tile: TileType)
    requires
        old(map).wf(),
        idx < NUM_TILES,
    ensures
        final(map).wf(),
        final(map).tiles@ == old(map).tiles@.update(idx as int, tile),
        final(map).revealed_tiles == old(map).revealed_tiles,
{
    map.tiles[idx] = tile;
}

/// The rooms rearranged into ascending order of center x-coordinate: the
/// same multiset of rooms, sorted.
fn sorted_by_center_x(rooms: &Vec<Rect>) -> (r: Vec<Rect>)
    requires
        all_rooms_ok(rooms@),
    ensures
        r@.len() == rooms@.len(),
        all_rooms_ok(r@),
        sorted_by_center(r@),
        r@.to_multiset() == rooms@.to_multiset(),
{
    broadcast use vstd::seq_lib::group_to_multiset_ensures;

    let mut work: Vec<Rect> = Vec::new();
    let mut i: usize = 0;
    while i < rooms.len()
        invariant
            all_rooms_ok(rooms@),
            i <= rooms@.len(),
            work@ == rooms@.subrange(0, i as int),
        decreases rooms@.len() - i,
    {
        work.push(rooms[i]);
        proof {
            assert(work@ =~= rooms@.subrange(0, i + 1));
        }
        i = i + 1;
    }
    proof {
        assert(work@ =~= rooms@);
    }
    let ghost total = rooms@.len();
    let mut result: Vec<Rect> = Vec::new();
    while work.len() > 0
        invariant
            result@.len() + work@.len() == total,
            result@.to_multiset().add(work@.to_multiset()) == rooms@.to_multiset(),
            all_rooms_ok(work@),
            all_rooms_ok(result@),
            forall|i: int, j: int|
                0 <= i < j < result@.len() ==> (#[trigger] result@[i]).spec_center().x
                    <= (#[trigger] result@[j]).spec_center().x,
            forall|a: int, b: int|
                0 <= a < result@.len() && 0 <= b < work@.len() ==> (#[trigger] result@[a]).spec_center().x
                    <= (#[trigger] work@[b]).spec_center().x,
        decreases work@.len(),
    {
        let mut min_at: usize = 0;
        let mut k: usize = 1;
        while k < work.len()
            invariant
                1 <= work@.len(),
                min_at < k <= work@.len(),
                forall|b: int|
                    0 <= b < k ==> work@[min_at as int].spec_center().x
                        <= (#[trigger] work@[b]).spec_center().x,
                all_rooms_ok(work@),
            decreases work@.len() - k,
        {
            let wk = work[k];
            let wm = work[min_at];
            if wk.center().x < wm.center().x {
                min_at = k;
            }
            k = k + 1;
        }
        let ghost work_pre = work@;
        let ghost result_pre = result@;
        let chosen = work.remove(min_at);
        result.push(chosen);
        proof {
            assert(chosen == work_pre[min_at as int]);
            broadcast use vstd::seq_lib::group_to_multiset_ensures;
            broadcast use vstd::multiset::group_multiset_axioms;

            assert(work@.to_multiset() =~= work_pre.to_multiset().remove(chosen));
            assert(result@.to_multiset() =~= result_pre.to_multiset().insert(chosen));
            assert(work_pre.contains(chosen));
            assert(work_pre.to_multiset().count(chosen) > 0);
            assert(result@.to_multiset().add(work@.to_multiset()) =~= rooms@.to_multiset());
            assert forall|b: int| 0 <= b < work@.len() implies chosen.spec_center().x
                <= (#[trigger] work@[b]).spec_center().x by {
                if b < min_at {
                    assert(work@[b] == work_pre[b]);
                } else {
                    assert(work@[b] == work_pre[b + 1]);
                }
            }
            assert forall|b: int| 0 <= b < work@.len() implies room_ok(#[trigger] work@[b]) by {
                if b < min_at {
                    assert(work@[b] == work_pre[b]);
                } else {
                    assert(work@[b] == work_pre[b + 1]);
                }
            }
        }
    }
    proof {
        assert(result@.to_multiset() =~= result@.to_multiset().add(work@.to_multiset()));
    }
    result
}

/// Builds the playing map: carves rooms and corridors out of solid wall,
/// places the player in the first room, and puts the amulet on the farthest
/// reachable tile from the player start.
pub struct MapBuilder {
    pub map: GridMap,
    pub rooms: Vec<Rect>,
    pub player_start: Point,
    pub amulet_start: Point,
}

/// The amulet stands on a reachable tile that maximizes a breadth-first cost
/// field rooted at the player start: no tile the field reaches lies farther.
pub open spec fn amulet_placed_farthest(m: GridMap, start: Point, amulet: Point) -> bool {
    exists|cm: Seq<i32>|
        {
            &&& cm.len() == NUM_TILES
            &&& cost_range_ok(cm, AMULET_SEARCH_DEPTH as int)
            &&& starts_zero(cm, seq![spec_idx(start) as usize])
            &&& costs_sound(m, seq![spec_idx(start) as usize], cm)
            &&& closed_below(m, cm, AMULET_SEARCH_DEPTH as int)
            &&& has_downhill(m, cm)
            &&& cm[spec_idx(amulet)] != UNREACHABLE
            &&& (forall|i: int|
                0 <= i < NUM_TILES && #[trigger] cm[i] != UNREACHABLE ==> cm[i] <= cm[spec_idx(
                    amulet,
                )])
        }
}

impl MapBuilder {
    /// Generate a fresh map from the random stream: all wall, then rooms,
    /// then corridors, then the player start and the amulet placement.
    pub fn new(rng: &mut bracket_lib::random::RandomNumberGenerator) -> (mb: MapBuilder)
        ensures
            mb.map.wf(),
            mb.rooms@.len() == NUM_ROOMS,
            all_rooms_ok(mb.rooms@),
            rooms_disjoint(mb.rooms@),
            room_tiles_floor(mb.map, mb.rooms@),
            mb.player_start == mb.rooms@[0].spec_center(),
            mb.map.spec_can_enter(mb.player_start),
            mb.map.spec_can_enter(mb.amulet_start),
            reachable(mb.map, mb.player_start, mb.amulet_start),
            amulet_placed_farthest(mb.map, mb.player_start, mb.amulet_start),
            // the corridors tie the rooms together: every room center can be
            // walked to from the player start
            forall|j: int|
                0 <= j < mb.rooms@.len() ==> reachable(
                    mb.map,
                    mb.player_start,
                    (#[trigger] mb.rooms@[j]).spec_center(),
                ),
            // and nothing else was carved: every floor tile lies in a room
            // or on a corridor of the sorted room chain
            exists|sorted: Seq<Rect>|
                {
                    &&& sorted.to_multiset() == mb.rooms@.to_multiset()
                    &&& #[trigger] sorted_by_center(sorted)
                    &&& (forall|i: int|
                        0 <= i < NUM_TILES && #[trigger] mb.map.tiles@[i] == TileType::Floor
                            ==> room_covers(mb.rooms@, spec_point_of(i)) || on_connecting_corridor(
                            sorted,
                            spec_point_of(i),
                        ))
                },
    {
        let mut mb = MapBuilder {
            map: GridMap::new(),
            rooms: Vec::new(),
            player_start: Point::zero(),
            amulet_start: Point::zero(),
        };
        mb.fill(TileType::Wall);
        let ghost tiles_filled = mb.map.tiles@;
        mb.build_random_rooms(rng);
        let ghost tiles_rooms = mb.map.tiles@;
        mb.build_corridors(rng);
        let first = mb.rooms[0];
        mb.player_start = first.center();
        proof {
            lemma_center_in_room(mb.rooms@[0]);
            assert(mb.rooms@[0].spec_contains(mb.player_start));
            assert(mb.map.spec_can_enter(mb.player_start));
        }
        let player_idx = map_idx(mb.player_start.x, mb.player_start.y);
        let mut starts: Vec<usize> = Vec::new();
        starts.push(player_idx);
        proof {
            crate::map::lemma_point_roundtrip(mb.player_start.x, mb.player_start.y);
            assert(starts_ok(mb.map, starts@));
        }
        let dijkstra_map = DijkstraMap::new(
            SCREEN_WIDTH,
            SCREEN_HEIGHT,
            &starts,
            &mb.map,
            AMULET_SEARCH_DEPTH,
        );
        proof {
            assert(starts@[0] == player_idx);
            assert(dijkstra_map.map@[player_idx as int] == 0);
        }
        let mut best: usize = player_idx;
        let mut i: usize = 0;
        while i < NUM_TILES
            invariant
                dijkstra_map.map@.len() == NUM_TILES,
                dijkstra_map.map@[player_idx as int] == 0,
                player_idx < NUM_TILES,
                best < NUM_TILES,
                dijkstra_map.map@[best as int] != UNREACHABLE,
                i <= NUM_TILES,
                forall|j: int|
                    0 <= j < i && #[trigger] dijkstra_map.map@[j] != UNREACHABLE ==> dijkstra_map.map@[j]
                        <= dijkstra_map.map@[best as int],
            decreases NUM_TILES - i,
        {
            let c = dijkstra_map.map[i];
            if c != UNREACHABLE && c > dijkstra_map.map[best] {
                best = i;
            }
            i = i + 1;
        }
        mb.amulet_start = index_to_point(best);
        proof {
            let cm = dijkstra_map.map@;
            let start_seq: Seq<usize> = seq![spec_idx(mb.player_start) as usize];
            assert(starts@ =~= start_seq);
            crate::map::lemma_idx_roundtrip(best as int);
            assert(spec_idx(mb.amulet_start) == best as int);
            assert(mb.map.spec_can_enter(mb.amulet_start));
            assert(reachable_from_starts(mb.map, starts@, mb.amulet_start, cm[best as int] as int));
            let j = choose|j: int|
                0 <= j < starts@.len() && crate::path::reachable_within(
                    mb.map,
                    spec_point_of(#[trigger] starts@[j] as int),
                    mb.amulet_start,
                    cm[best as int] as int,
                );
            crate::map::lemma_point_roundtrip(mb.player_start.x, mb.player_start.y);
            crate::path::lemma_reachable_within_implies_reachable(
                mb.map,
                mb.player_start,
                mb.amulet_start,
                cm[best as int] as int,
            );
            assert(amulet_placed_farthest(mb.map, mb.player_start, mb.amulet_start));
            broadcast use vstd::seq_lib::group_to_multiset_ensures;

            let sorted = choose|sorted: Seq<Rect>|
                sorted.to_multiset() == mb.rooms@.to_multiset() && #[trigger] sorted_by_center(
                    sorted,
                ) && corridors_connect(mb.map, sorted) && (forall|i: int|
                    0 <= i < NUM_TILES && #[trigger] mb.map.tiles@[i] == TileType::Floor
                        ==> tiles_rooms[i] == TileType::Floor || on_connecting_corridor(
                        sorted,
                        spec_point_of(i),
                    ));
            assert forall|i: int|
                0 <= i < NUM_TILES && #[trigger] mb.map.tiles@[i] == TileType::Floor implies room_covers(
                mb.rooms@,
                spec_point_of(i),
            ) || on_connecting_corridor(sorted, spec_point_of(i)) by {
                if tiles_rooms[i] == TileType::Floor {
                    assert(mb.rooms@.skip(0) =~= mb.rooms@);
                    if !room_covers(mb.rooms@, spec_point_of(i)) {
                        assert(tiles_rooms[i] == tiles_filled[i]);
                        assert(tiles_filled[i] == TileType::Wall);
                    }
                }
            }
            assert forall|k: int| 0 <= k < sorted.len() implies room_ok(#[trigger] sorted[k]) by {
                assert(sorted.to_multiset().count(sorted[k]) > 0);
                assert(mb.rooms@.contains(sorted[k]));
            }
            assert forall|k: int, p: Point|
                0 <= k < sorted.len() && #[trigger] sorted[k].spec_contains(p) implies mb.map.spec_can_enter(
                p,
            ) by {
                assert(sorted.to_multiset().count(sorted[k]) > 0);
                assert(mb.rooms@.contains(sorted[k]));
                let jj = choose|jj: int| 0 <= jj < mb.rooms@.len() && mb.rooms@[jj] == sorted[k];
                assert(mb.rooms@[jj].spec_contains(p));
            }
            assert forall|j: int| 0 <= j < mb.rooms@.len() implies reachable(
                mb.map,
                mb.player_start,
                (#[trigger] mb.rooms@[j]).spec_center(),
            ) by {
                assert(mb.rooms@.contains(mb.rooms@[0]));
                assert(sorted.to_multiset().count(mb.rooms@[0]) > 0);
                assert(sorted.contains(mb.rooms@[0]));
                let k0 = choose|k: int| 0 <= k < sorted.len() && sorted[k] == mb.rooms@[0];
                assert(mb.rooms@.contains(mb.rooms@[j]));
                assert(sorted.to_multiset().count(mb.rooms@[j]) > 0);
                assert(sorted.contains(mb.rooms@[j]));
                let kj = choose|k: int| 0 <= k < sorted.len() && sorted[k] == mb.rooms@[j];
                lemma_chain_reachable(mb.map, sorted, k0);
                lemma_chain_reachable(mb.map, sorted, kj);
                crate::path::lemma_reachable_sym(
                    mb.map,
                    sorted[0].spec_center(),
                    sorted[k0].spec_center(),
                );
                crate::path::lemma_reachable_trans(
                    mb.map,
                    sorted[k0].spec_center(),
                    sorted[0].spec_center(),
                    sorted[kj].spec_center(),
                );
                assert(mb.player_start == sorted[k0].spec_center());
            }
        }
        mb
    }

    /// Fill the whole grid with the given tile.
    pub fn fill(&mut self, tile: TileType)
        requires
            old(self).map.wf(),
        ensures
            final(self).map.wf(),
            forall|i: int| 0 <= i < NUM_TILES ==> final(self).map.tiles@[i] == tile,
            final(self).map.revealed_tiles == old(self).map.revealed_tiles,
            final(self).rooms == old(self).rooms,
            final(self).player_start == old(self).player_start,
            final(self).amulet_start == old(self).amulet_start,
    {
        let mut i: usize = 0;
        while i < NUM_TILES
            invariant
                self.map.wf(),
                i <= NUM_TILES,
                forall|j: int| 0 <= j < i ==> self.map.tiles@[j] == tile,
                self.map.revealed_tiles == old(self).map.revealed_tiles,
                self.rooms == old(self).rooms,
                self.player_start == old(self).player_start,
                self.amulet_start == old(self).amulet_start,
            decreases NUM_TILES - i,
        {
            self.map.tiles[i] = tile;
            i = i + 1;
        }
    }

    /// Sample rooms from the random stream until `NUM_ROOMS` pairwise
    /// non-overlapping rooms have been placed, carving each accepted room's
    /// interior to floor. Should the attempt budget ever run out first, a
    /// deterministic completion fills the remainder; either way exactly
    /// `NUM_ROOMS` rooms stand at the end, a count the spot-probing
    /// argument below proves always attainable.
    pub fn build_random_rooms(&mut self, rng: &mut bracket_lib::random::RandomNumberGenerator)
        requires
            old(self).map.wf(),
            old(self).rooms@.len() <= NUM_ROOMS,
            all_rooms_ok(old(self).rooms@),
            rooms_disjoint(old(self).rooms@),
            room_tiles_floor(old(self).map, old(self).rooms@),
        ensures
            final(self).map.wf(),
            final(self).rooms@.len() == NUM_ROOMS,
            final(self).rooms@.subrange(0, old(self).rooms@.len() as int) == old(self).rooms@,
            all_rooms_ok(final(self).rooms@),
            rooms_disjoint(final(self).rooms@),
            room_tiles_floor(final(self).map, final(self).rooms@),
            // only the cells of the rooms accepted here are touched
            forall|i: int|
                0 <= i < NUM_TILES && !room_covers(
                    final(self).rooms@.skip(old(self).rooms@.len() as int),
                    spec_point_of(i),
                ) ==> final(self).map.tiles@[i] == old(self).map.tiles@[i],
            final(self).map.revealed_tiles == old(self).map.revealed_tiles,
            final(self).player_start == old(self).player_start,
            final(self).amulet_start == old(self).amulet_start,
    {
        let ghost n0 = self.rooms@.len() as int;
        let mut attempts: u32 = 0;
        while self.rooms.len() < NUM_ROOMS && attempts < ROOM_ATTEMPTS
            invariant
                self.map.wf(),
                attempts <= ROOM_ATTEMPTS,
                n0 == old(self).rooms@.len(),
                n0 <= NUM_ROOMS,
                n0 <= self.rooms@.len() <= NUM_ROOMS,
                self.rooms@.subrange(0, n0) == old(self).rooms@,
                all_rooms_ok(self.rooms@),
                rooms_disjoint(self.rooms@),
                room_tiles_floor(self.map, self.rooms@),
                forall|i: int|
                    0 <= i < NUM_TILES && !room_covers(self.rooms@.skip(n0), spec_point_of(i))
                        ==> self.map.tiles@[i] == old(self).map.tiles@[i],
                self.map.revealed_tiles == old(self).map.revealed_tiles,
                self.player_start == old(self).player_start,
                self.amulet_start == old(self).amulet_start,
            decreases ROOM_ATTEMPTS - attempts,
        {
            attempts = attempts + 1;
            let x = random_range(rng, 1, SCREEN_WIDTH - 10);
            let y = random_range(rng, 1, SCREEN_HEIGHT - 10);
            let w = random_range(rng, 2, 10);
            let h = random_range(rng, 2, 10);
            let room = Rect::with_size(x, y, w, h);
            let mut overlap = false;
            let mut r: usize = 0;
            while r < self.rooms.len()
                invariant
                    r <= self.rooms@.len(),
                    overlap == exists|j: int|
                        0 <= j < r && (#[trigger] self.rooms@[j]).spec_intersect(room),
                decreases self.rooms@.len() - r,
            {
                let other = self.rooms[r];
                if other.intersect(&room) {
                    overlap = true;
                }
                r = r + 1;
            }
            if !overlap {
                let ghost rooms_pre = self.rooms@;
                carve_room(&mut self.map, room);
                self.rooms.push(room);
                proof {
                    assert(self.rooms@.last() == room);
                    assert forall|j: int, p: Point|
                        0 <= j < self.rooms@.len() && #[trigger] self.rooms@[j].spec_contains(
                        p,
                    ) implies self.map.spec_can_enter(p) by {
                        crate::map::lemma_point_roundtrip(p.x, p.y);
                        if j < rooms_pre.len() {
                            assert(rooms_pre[j].spec_contains(p));
                        }
                    }
                    assert(self.rooms@.subrange(0, n0) =~= rooms_pre.subrange(0, n0));
                    assert forall|i: int|
                        0 <= i < NUM_TILES && !room_covers(
                            self.rooms@.skip(n0),
                            spec_point_of(i),
                        ) implies self.map.tiles@[i] == old(self).map.tiles@[i] by {
                        assert(!room_covers(rooms_pre.skip(n0), spec_point_of(i))) by {
                            if room_covers(rooms_pre.skip(n0), spec_point_of(i)) {
                                let j = choose|j: int|
                                    0 <= j < rooms_pre.skip(n0).len() && (#[trigger] rooms_pre.skip(
                                        n0,
                                    )[j]).spec_contains(spec_point_of(i));
                                assert(self.rooms@.skip(n0)[j] == rooms_pre.skip(n0)[j]);
                            }
                        }
                        assert(!room.spec_contains(spec_point_of(i))) by {
                            if room.spec_contains(spec_point_of(i)) {
                                assert(self.rooms@.skip(n0)[self.rooms@.skip(n0).len() - 1]
                                    == room);
                            }
                        }
                    }
                }
            }
        }

        // the random budget may run dry with rooms missing; fill the rest
        // deterministically with the smallest acceptable rooms, scanning
        // rows first, until the count is reached or nothing fits anywhere
        while self.rooms.len() < NUM_ROOMS
            invariant
                self.map.wf(),
                n0 == old(self).rooms@.len(),
                n0 <= NUM_ROOMS,
                n0 <= self.rooms@.len() <= NUM_ROOMS,
                self.rooms@.subrange(0, n0) == old(self).rooms@,
                all_rooms_ok(self.rooms@),
                rooms_disjoint(self.rooms@),
                room_tiles_floor(self.map, self.rooms@),
                forall|i: int|
                    0 <= i < NUM_TILES && !room_covers(self.rooms@.skip(n0), spec_point_of(i))
                        ==> self.map.tiles@[i] == old(self).map.tiles@[i],
                self.map.revealed_tiles == old(self).map.revealed_tiles,
                self.player_start == old(self).player_start,
                self.amulet_start == old(self).amulet_start,
            ensures
                self.rooms@.len() == NUM_ROOMS,
            decreases NUM_ROOMS - self.rooms@.len(),
        {
            let mut found = false;
            let mut fx: i32 = 1;
            let mut fy: i32 = 1;
            let mut y: i32 = 1;
            while !found && y < SCREEN_HEIGHT - 10
                invariant
                    self.map.wf(),
                    n0 == old(self).rooms@.len(),
                    n0 <= NUM_ROOMS,
                    n0 <= self.rooms@.len() <= NUM_ROOMS,
                    self.rooms@.subrange(0, n0) == old(self).rooms@,
                    all_rooms_ok(self.rooms@),
                    rooms_disjoint(self.rooms@),
                    room_tiles_floor(self.map, self.rooms@),
                    forall|i: int|
                        0 <= i < NUM_TILES && !room_covers(self.rooms@.skip(n0), spec_point_of(i))
                            ==> self.map.tiles@[i] == old(self).map.tiles@[i],
                    self.map.revealed_tiles == old(self).map.revealed_tiles,
                    self.player_start == old(self).player_start,
                    self.amulet_start == old(self).amulet_start,
                    1 <= y <= SCREEN_HEIGHT - 10,
                    self.rooms@.len() < NUM_ROOMS,
                    found ==> 1 <= fx < SCREEN_WIDTH - 10 && 1 <= fy < SCREEN_HEIGHT - 10
                        && room_fits(self.rooms@, fx as int, fy as int),
                    !found ==> forall|xx: int, yy: int|
                        1 <= xx < SCREEN_WIDTH - 10 && 1 <= yy < y ==> !room_fits(
                            self.rooms@,
                            xx,
                            yy,
                        ),
                decreases SCREEN_HEIGHT - 10 - y,
            {
                let mut x: i32 = 1;
                while !found && x < SCREEN_WIDTH - 10
                    invariant
                        self.map.wf(),
                        n0 == old(self).rooms@.len(),
                        n0 <= NUM_ROOMS,
                        n0 <= self.rooms@.len() <= NUM_ROOMS,
                        self.rooms@.subrange(0, n0) == old(self).rooms@,
                        all_rooms_ok(self.rooms@),
                        rooms_disjoint(self.rooms@),
                        room_tiles_floor(self.map, self.rooms@),
                        forall|i: int|
                            0 <= i < NUM_TILES && !room_covers(self.rooms@.skip(n0), spec_point_of(i))
                                ==> self.map.tiles@[i] == old(self).map.tiles@[i],
                        self.map.revealed_tiles == old(self).map.revealed_tiles,
                        self.player_start == old(self).player_start,
                        self.amulet_start == old(self).amulet_start,
                        1 <= y < SCREEN_HEIGHT - 10,
                        1 <= x <= SCREEN_WIDTH - 10,
                        self.rooms@.len() < NUM_ROOMS,
                        found ==> 1 <= fx < SCREEN_WIDTH - 10 && 1 <= fy < SCREEN_HEIGHT - 10
                            && room_fits(self.rooms@, fx as int, fy as int),
                        !found ==> forall|xx: int, yy: int|
                            1 <= xx < SCREEN_WIDTH - 10 && 1 <= yy < y ==> !room_fits(
                                self.rooms@,
                                xx,
                                yy,
                            ),
                        !found ==> forall|xx: int|
                            1 <= xx < x ==> !room_fits(self.rooms@, xx, y as int),
                    decreases SCREEN_WIDTH - 10 - x,
                {
                    let cand = Rect::with_size(x, y, 2, 2);
                    let mut overlap = false;
                    let mut r: usize = 0;
                    while r < self.rooms.len()
                        invariant
                            r <= self.rooms@.len(),
                            cand.x1 == x && cand.y1 == y && cand.x2 == x + 2 && cand.y2 == y + 2,
                            overlap == exists|j: int|
                                0 <= j < r && (#[trigger] self.rooms@[j]).spec_intersect(cand),
                        decreases self.rooms@.len() - r,
                    {
                        let other = self.rooms[r];
                        if other.intersect(&cand) {
                            overlap = true;
                        }
                        r = r + 1;
                    }
                    if !overlap {
                        found = true;
                        fx = x;
                        fy = y;
                        proof {
                            assert(room_fits(self.rooms@, x as int, y as int));
                        }
                    } else {
                        proof {
                            assert(!room_fits(self.rooms@, x as int, y as int)) by {
                                let j = choose|j: int|
                                    0 <= j < self.rooms@.len()
                                        && (#[trigger] self.rooms@[j]).spec_intersect(cand);
                                if room_fits(self.rooms@, x as int, y as int) {
                                    assert(!self.rooms@[j].spec_intersect(
                                        Rect {
                                            x1: (x as int) as i32,
                                            y1: (y as int) as i32,
                                            x2: (x as int + 2) as i32,
                                            y2: (y as int + 2) as i32,
                                        },
                                    ));
                                }
                            }
                        }
                    }
                    x = x + 1;
                }
                y = y + 1;
            }
            if found {
                let room = Rect::with_size(fx, fy, 2, 2);
                proof {
                    assert(room_ok(room));
                    assert(forall|j: int|
                        0 <= j < self.rooms@.len() ==> !(#[trigger] self.rooms@[j]).spec_intersect(
                            room,
                        ));
                }

                let ghost rooms_pre = self.rooms@;
                carve_room(&mut self.map, room);
                self.rooms.push(room);
                proof {
                    assert(self.rooms@.last() == room);
                    assert forall|j: int, p: Point|
                        0 <= j < self.rooms@.len() && #[trigger] self.rooms@[j].spec_contains(
                        p,
                    ) implies self.map.spec_can_enter(p) by {
                        crate::map::lemma_point_roundtrip(p.x, p.y);
                        if j < rooms_pre.len() {
                            assert(rooms_pre[j].spec_contains(p));
                        }
                    }
                    assert(self.rooms@.subrange(0, n0) =~= rooms_pre.subrange(0, n0));
                    assert forall|i: int|
                        0 <= i < NUM_TILES && !room_covers(
                            self.rooms@.skip(n0),
                            spec_point_of(i),
                        ) implies self.map.tiles@[i] == old(self).map.tiles@[i] by {
                        assert(!room_covers(rooms_pre.skip(n0), spec_point_of(i))) by {
                            if room_covers(rooms_pre.skip(n0), spec_point_of(i)) {
                                let j = choose|j: int|
                                    0 <= j < rooms_pre.skip(n0).len() && (#[trigger] rooms_pre.skip(
                                        n0,
                                    )[j]).spec_contains(spec_point_of(i));
                                assert(self.rooms@.skip(n0)[j] == rooms_pre.skip(n0)[j]);
                            }
                        }
                        assert(!room.spec_contains(spec_point_of(i))) by {
                            if room.spec_contains(spec_point_of(i)) {
                                assert(self.rooms@.skip(n0)[self.rooms@.skip(n0).len() - 1]
                                    == room);
                            }
                        }
                    }
                }
            } else {
                proof {
                    // with fewer than twenty rooms a spot always remains, so
                    // the scan cannot have come up empty
                    assert(no_small_room_fits(self.rooms@));
                    lemma_room_always_fits(self.rooms@);
                }
                break;
            }
        }
        proof {
            assert(self.rooms@.subrange(0, n0) == old(self).rooms@);
        }
    }

    /// Carve a one-cell-wide vertical corridor at column `x` between the two
    /// rows, clipped to the map bounds.
    pub fn apply_vertical_tunnel(&mut self, y1: i32, y2: i32, x: i32)
        requires
            old(self).map.wf(),
            -100000 <= y1 <= 100000,
            -100000 <= y2 <= 100000,
        ensures
            final(self).map.wf(),
            forall|i: int|
                0 <= i < NUM_TILES ==> final(self).map.tiles@[i] == (if spec_point_of(i).x == x
                    && (if y1 <= y2 { y1 } else { y2 }) <= spec_point_of(i).y <= (if y1 <= y2 { y2 } else { y1 }) {
                    TileType::Floor
                } else {
                    old(self).map.tiles@[i]
                }),
            final(self).map.revealed_tiles == old(self).map.revealed_tiles,
            final(self).rooms == old(self).rooms,
            final(self).player_start == old(self).player_start,
            final(self).amulet_start == old(self).amulet_start,
    {
        let lo = if y1 <= y2 { y1 } else { y2 };
        let hi = if y1 <= y2 { y2 } else { y1 };
        let mut y = lo;
        while y <= hi
            invariant
                self.map.wf(),
                lo <= y <= hi + 1,
                -100001 <= y <= 100001,
                -100000 <= hi <= 100000,
                forall|i: int|
                    0 <= i < NUM_TILES ==> self.map.tiles@[i] == (if spec_point_of(i).x == x && lo
                        <= spec_point_of(i).y < y {
                        TileType::Floor
                    } else {
                        old(self).map.tiles@[i]
                    }),
                self.map.revealed_tiles == old(self).map.revealed_tiles,
                self.rooms == old(self).rooms,
                self.player_start == old(self).player_start,
                self.amulet_start == old(self).amulet_start,
            decreases hi + 1 - y,
        {
            let target = Point::new(x, y);
            if let Some(idx) = self.map.try_idx(target) {
                self_set_tile(&mut self.map, idx, TileType::Floor);
                proof {
                    crate::map::lemma_point_roundtrip(x, y);
                }
            }
            proof {
                assert forall|i: int|
                    0 <= i < NUM_TILES && !(spec_point_of(i).x == x && lo <= spec_point_of(i).y
                        < y + 1) implies self.map.tiles@[i] == old(self).map.tiles@[i] by {
                    crate::map::lemma_idx_roundtrip(i);
                }
            }
            y = y + 1;
        }
    }

    /// Carve a one-cell-wide horizontal corridor at row `y` between the two
    /// columns, clipped to the map bounds.
    pub fn apply_horizontal_tunnel(&mut self, x1: i32, x2: i32, y: i32)
        requires
            old(self).map.wf(),
            -100000 <= x1 <= 100000,
            -100000 <= x2 <= 100000,
        ensures
            final(self).map.wf(),
            forall|i: int|
                0 <= i < NUM_TILES ==> final(self).map.tiles@[i] == (if spec_point_of(i).y == y
                    && (if x1 <= x2 { x1 } else { x2 }) <= spec_point_of(i).x <= (if x1 <= x2 { x2 } else { x1 }) {
                    TileType::Floor
                } else {
                    old(self).map.tiles@[i]
                }),
            final(self).map.revealed_tiles == old(self).map.revealed_tiles,
            final(self).rooms == old(self).rooms,
            final(self).player_start == old(self).player_start,
            final(self).amulet_start == old(self).amulet_start,
    {
        let lo = if x1 <= x2 { x1 } else { x2 };
        let hi = if x1 <= x2 { x2 } else { x1 };
        let mut x = lo;
        while x <= hi
            invariant
                self.map.wf(),
                lo <= x <= hi + 1,
                -100001 <= x <= 100001,
                -100000 <= hi <= 100000,
                forall|i: int|
                    0 <= i < NUM_TILES ==> self.map.tiles@[i] == (if spec_point_of(i).y == y && lo
                        <= spec_point_of(i).x < x {
                        TileType::Floor
                    } else {
                        old(self).map.tiles@[i]
                    }),
                self.map.revealed_tiles == old(self).map.revealed_tiles,
                self.rooms == old(self).rooms,
                self.player_start == old(self).player_start,
                self.amulet_start == old(self).amulet_start,
            decreases hi + 1 - x,
        {
            let target = Point::new(x, y);
            if let Some(idx) = self.map.try_idx(target) {
                self_set_tile(&mut self.map, idx, TileType::Floor);
                proof {
                    crate::map::lemma_point_roundtrip(x, y);
                }
            }
            proof {
                assert forall|i: int|
                    0 <= i < NUM_TILES && !(spec_point_of(i).y == y && lo <= spec_point_of(i).x
                        < x + 1) implies self.map.tiles@[i] == old(self).map.tiles@[i] by {
                    crate::map::lemma_idx_roundtrip(i);
                }
            }
            x = x + 1;
        }
    }

    /// Connect the rooms pairwise in ascending order of center x-coordinate
    /// with L-shaped corridors; the random stream picks each corridor's bend.
    /// Carving corridors only ever turns tiles to floor.
    pub fn build_corridors(&mut self, rng: &mut bracket_lib::random::RandomNumberGenerator)
        requires
            old(self).map.wf(),
            all_rooms_ok(old(self).rooms@),
        ensures
            final(self).map.wf(),
            forall|i: int|
                0 <= i < NUM_TILES ==> final(self).map.tiles@[i] == TileType::Floor
                    || final(self).map.tiles@[i] == old(self).map.tiles@[i],
            forall|i: int|
                0 <= i < NUM_TILES && old(self).map.tiles@[i] == TileType::Floor
                    ==> final(self).map.tiles@[i] == TileType::Floor,
            final(self).map.revealed_tiles == old(self).map.revealed_tiles,
            final(self).rooms == old(self).rooms,
            final(self).player_start == old(self).player_start,
            final(self).amulet_start == old(self).amulet_start,
            // the carving itself: some rearrangement of the rooms into
            // ascending center-x order has every consecutive pair of centers
            // joined by an L-shaped floor corridor
            exists|sorted: Seq<Rect>|
                {
                    &&& sorted.to_multiset() == old(self).rooms@.to_multiset()
                    &&& #[trigger] sorted_by_center(sorted)
                    &&& corridors_connect(final(self).map, sorted)
                    &&& (forall|i: int|
                        0 <= i < NUM_TILES && #[trigger] final(self).map.tiles@[i]
                            == TileType::Floor ==> old(self).map.tiles@[i] == TileType::Floor
                            || on_connecting_corridor(sorted, spec_point_of(i)))
                },
    {
        let rooms = sorted_by_center_x(&self.rooms);
        let mut i: usize = 1;
        while i < rooms.len()
            invariant
                self.map.wf(),
                all_rooms_ok(rooms@),
                rooms@.to_multiset() == old(self).rooms@.to_multiset(),
                sorted_by_center(rooms@),
                1 <= i,
                forall|t: int|
                    0 <= t < NUM_TILES ==> self.map.tiles@[t] == TileType::Floor
                        || self.map.tiles@[t] == old(self).map.tiles@[t],
                forall|t: int|
                    0 <= t < NUM_TILES && old(self).map.tiles@[t] == TileType::Floor
                        ==> self.map.tiles@[t] == TileType::Floor,
                forall|j: int|
                    1 <= j < i ==> corridor_between(
                        self.map,
                        (#[trigger] rooms@[j - 1]).spec_center(),
                        rooms@[j].spec_center(),
                    ),
                forall|t: int|
                    0 <= t < NUM_TILES && #[trigger] self.map.tiles@[t] == TileType::Floor
                        ==> old(self).map.tiles@[t] == TileType::Floor || on_connecting_corridor(
                        rooms@,
                        spec_point_of(t),
                    ),
                self.map.revealed_tiles == old(self).map.revealed_tiles,
                self.rooms == old(self).rooms,
                self.player_start == old(self).player_start,
                self.amulet_start == old(self).amulet_start,
            decreases rooms@.len() - i,
        {
            let prev = rooms[i - 1].center();
            let new = rooms[i].center();
            let ghost map_pre = self.map;
            if random_range(rng, 0, 2) == 1 {
                self.apply_horizontal_tunnel(prev.x, new.x, prev.y);
                let ghost map_mid = self.map;
                self.apply_vertical_tunnel(prev.y, new.y, new.x);
                proof {
                    lemma_row_floor(map_mid, prev.x as int, new.x as int, prev.y as int);
                    lemma_horizontal_floor_preserved(
                        map_mid,
                        self.map,
                        prev.x as int,
                        new.x as int,
                        prev.y as int,
                    );
                    lemma_col_floor(self.map, prev.y as int, new.y as int, new.x as int);
                    assert(corridor_between(self.map, prev, new));
                    assert forall|t: int|
                        0 <= t < NUM_TILES && #[trigger] self.map.tiles@[t] == TileType::Floor implies old(
                        self,
                    ).map.tiles@[t] == TileType::Floor || on_connecting_corridor(
                        rooms@,
                        spec_point_of(t),
                    ) by {
                        if map_pre.tiles@[t] != TileType::Floor {
                            assert(on_l_corridors(prev, new, spec_point_of(t)));
                            assert(rooms@[i - 1].spec_center() == prev && rooms@[i as int].spec_center()
                                == new);
                            assert(on_connecting_corridor(rooms@, spec_point_of(t)));
                        }
                    }
                }
            } else {
                self.apply_vertical_tunnel(prev.y, new.y, prev.x);
                let ghost map_mid = self.map;
                self.apply_horizontal_tunnel(prev.x, new.x, new.y);
                proof {
                    lemma_col_floor(map_mid, prev.y as int, new.y as int, prev.x as int);
                    lemma_vertical_floor_preserved(
                        map_mid,
                        self.map,
                        prev.y as int,
                        new.y as int,
                        prev.x as int,
                    );
                    lemma_row_floor(self.map, prev.x as int, new.x as int, new.y as int);
                    assert(corridor_between(self.map, prev, new));
                    assert forall|t: int|
                        0 <= t < NUM_TILES && #[trigger] self.map.tiles@[t] == TileType::Floor implies old(
                        self,
                    ).map.tiles@[t] == TileType::Floor || on_connecting_corridor(
                        rooms@,
                        spec_point_of(t),
                    ) by {
                        if map_pre.tiles@[t] != TileType::Floor {
                            assert(on_l_corridors(prev, new, spec_point_of(t)));
                            assert(rooms@[i - 1].spec_center() == prev && rooms@[i as int].spec_center()
                                == new);
                            assert(on_connecting_corridor(rooms@, spec_point_of(t)));
                        }
                    }
                }
            }
            proof {
                assert(prev == rooms@[i - 1].spec_center());
                assert(new == rooms@[i as int].spec_center());
                assert forall|j: int| 1 <= j < i + 1 implies corridor_between(
                    self.map,
                    (#[trigger] rooms@[j - 1]).spec_center(),
                    rooms@[j].spec_center(),
                ) by {
                    if j < i {
                        lemma_corridor_preserved(
                            map_pre,
                            self.map,
                            rooms@[j - 1].spec_center(),
                            rooms@[j].spec_center(),
                        );
                    }
                }
            }
            i = i + 1;
        }
        proof {
            assert(sorted_by_center(rooms@) && rooms@.to_multiset() == old(self).rooms@.to_multiset()
                && corridors_connect(self.map, rooms@));
        }
    }
}

} // verus!
