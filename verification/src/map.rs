use vstd::prelude::*;

use crate::point::Point;
use crate::{NUM_TILES, SCREEN_HEIGHT, SCREEN_WIDTH};

verus! {

/// The kind of a grid cell. Only `Floor` cells can be entered or seen through.
#[derive(Clone, Copy, PartialEq, Eq, Structural, Debug)]
pub enum TileType {
    Wall,
    Floor,
}

/// The tile grid, stored row-major: the cell (x, y) lives at index
/// `y * SCREEN_WIDTH + x`. `revealed_tiles` uses the same striding.
pub struct GridMap {
    pub tiles: Vec<TileType>,
    pub revealed_tiles: Vec<bool>,
}

/// Whether a point lies on the grid.
pub open spec fn spec_in_bounds(p: Point) -> bool {
    0 <= p.x < SCREEN_WIDTH && 0 <= p.y < SCREEN_HEIGHT
}

/// Row-major index of a point, as a mathematical integer.
pub open spec fn spec_idx(p: Point) -> int {
    p.y * SCREEN_WIDTH + p.x
}

/// The point that a row-major index names.
pub open spec fn spec_point_of(idx: int) -> Point {
    Point { x: (idx % (SCREEN_WIDTH as int)) as i32, y: (idx / (SCREEN_WIDTH as int)) as i32 }
}

impl GridMap {
    /// Both grids cover every cell.
    pub open spec fn wf(self) -> bool {
        self.tiles@.len() == NUM_TILES && self.revealed_tiles@.len() == NUM_TILES
    }

    /// The tile at an in-bounds point.
    pub open spec fn spec_tile_at(self, p: Point) -> TileType {
        self.tiles@[spec_idx(p)]
    }

    /// Whether a point is on the grid and holds a walkable tile.
    pub open spec fn spec_can_enter(self, p: Point) -> bool {
        spec_in_bounds(p) && self.spec_tile_at(p) == TileType::Floor
    }

    /// Whether the cell at `idx` blocks sight and pathing.
    pub open spec fn spec_opaque(self, idx: int) -> bool {
        self.tiles@[idx] != TileType::Floor
    }

    /// A fresh map of all-floor tiles, none revealed.
    pub fn new() -> (m: GridMap)
        ensures
            m.wf(),
            forall|i: int| 0 <= i < NUM_TILES ==> m.tiles@[i] == TileType::Floor,
            forall|i: int| 0 <= i < NUM_TILES ==> m.revealed_tiles@[i] == false,
    {
        let mut tiles: Vec<TileType> = Vec::new();
        let mut i: usize = 0;
        while i < NUM_TILES
            invariant
                i <= NUM_TILES,
                tiles@.len() == i,
                forall|j: int| 0 <= j < i ==> tiles@[j] == TileType::Floor,
            decreases NUM_TILES - i,
        {
            tiles.push(TileType::Floor);
            i = i + 1;
        }
        let mut revealed_tiles: Vec<bool> = Vec::new();
        let mut i: usize = 0;
        while i < NUM_TILES
            invariant
                i <= NUM_TILES,
                revealed_tiles@.len() == i,
                forall|j: int| 0 <= j < i ==> revealed_tiles@[j] == false,
            decreases NUM_TILES - i,
        {
            revealed_tiles.push(false);
            i = i + 1;
        }
        GridMap { tiles, revealed_tiles }
    }

    /// Whether the given point is within the bounds of the map.
    pub fn in_bounds(&self, point: Point) -> (r: bool)
        ensures
            r == spec_in_bounds(point),
    {
        point.x >= 0 && point.x < SCREEN_WIDTH && point.y >= 0 && point.y < SCREEN_HEIGHT
    }

    /// Whether the given point is in bounds and holds a tile that can be entered.
    pub fn can_enter_tile(&self, point: Point) -> (r: bool)
        requires
            self.wf(),
        ensures
            r == self.spec_can_enter(point),
    {
        self.in_bounds(point) && self.tiles[map_idx(point.x, point.y)] == TileType::Floor
    }

    /// The index of the given point, or `None` when it is out of bounds.
    pub fn try_idx(&self, point: Point) -> (r: Option<usize>)
        ensures
            spec_in_bounds(point) ==> r == Some((spec_idx(point)) as usize),
            !spec_in_bounds(point) ==> r is None,
    {
        if !self.in_bounds(point) {
            return None;
        }
        Some(map_idx(point.x, point.y))
    }

    /// The destination index when stepping from `location` by `delta`, or
    /// `None` when the destination cannot be entered.
    pub fn valid_exit(&self, location: Point, delta: Point) -> (r: Option<usize>)
        requires
            self.wf(),
            spec_in_bounds(location),
            -1 <= delta.x <= 1,
            -1 <= delta.y <= 1,
        ensures
            r == spec_valid_exit(*self, location, delta),
    {
        let destination = location.offset(delta.x, delta.y);
        if self.in_bounds(destination) {
            if self.can_enter_tile(destination) {
                Some(map_idx(destination.x, destination.y))
            } else {
                None
            }
        } else {
            None
        }
    }

    /// The size of the grid.
    pub fn dimensions(&self) -> (p: Point)
        ensures
            p.x == SCREEN_WIDTH,
            p.y == SCREEN_HEIGHT,
    {
        Point::new(SCREEN_WIDTH, SCREEN_HEIGHT)
    }

    /// Up to four axis-aligned exits from the cell at `idx`, in the fixed
    /// scan order west, east, north, south. Every exit has unit cost.
    pub fn get_available_exits(&self, idx: usize) -> (r: Vec<usize>)
        requires
            self.wf(),
            idx < NUM_TILES,
        ensures
            r@ == spec_available_exits(*self, idx as int),
            forall|kk: int| 0 <= kk < r@.len() ==> (#[trigger] r@[kk]) < NUM_TILES,
    {
        let mut exits: Vec<usize> = Vec::new();
        let location = index_to_point(idx);
        if let Some(exit) = self.valid_exit(location, Point::new(-1, 0)) {
            exits.push(exit);
        }
        if let Some(exit) = self.valid_exit(location, Point::new(1, 0)) {
            exits.push(exit);
        }
        if let Some(exit) = self.valid_exit(location, Point::new(0, -1)) {
            exits.push(exit);
        }
        if let Some(exit) = self.valid_exit(location, Point::new(0, 1)) {
            exits.push(exit);
        }
        proof {
            reveal(spec_available_exits);
            assert(exits@ =~= spec_available_exits(*self, idx as int));
        }
        exits
    }

    /// Squared Euclidean distance between the cells at the two indices.
    /// Squaring keeps the measure in integers; comparisons of distances
    /// are unchanged by it.
    pub fn get_pathing_distance(&self, idx1: usize, idx2: usize) -> (d: i64)
        requires
            idx1 < NUM_TILES,
            idx2 < NUM_TILES,
        ensures
            d == crate::point::spec_dist2(spec_point_of(idx1 as int), spec_point_of(idx2 as int)),
    {
        let p1 = index_to_point(idx1);
        let p2 = index_to_point(idx2);
        p1.dist2(p2)
    }

    /// Whether the cell at `idx` blocks sight.
    pub fn is_opaque(&self, idx: usize) -> (r: bool)
        requires
            self.wf(),
            idx < NUM_TILES,
        ensures
            r == self.spec_opaque(idx as int),
    {
        self.tiles[idx] != TileType::Floor
    }
}

/// The exit produced by stepping from `location` by `delta`, if the
/// destination can be entered.
pub open spec fn spec_valid_exit(m: GridMap, location: Point, delta: Point) -> Option<usize> {
    let destination = Point { x: (location.x + delta.x) as i32, y: (location.y + delta.y) as i32 };
    if m.spec_can_enter(destination) {
        Some(spec_idx(destination) as usize)
    } else {
        None
    }
}

/// The singleton sequence holding the exit by `delta`, or the empty sequence
/// when that step is not a valid exit.
pub open spec fn spec_exit_seq(m: GridMap, location: Point, delta: Point) -> Seq<usize> {
    match spec_valid_exit(m, location, delta) {
        Some(idx) => seq![idx],
        None => Seq::empty(),
    }
}

/// The exits from the cell at `idx`, in the scan order west, east, north, south.
#[verifier::opaque]
pub open spec fn spec_available_exits(m: GridMap, idx: int) -> Seq<usize> {
    let location = spec_point_of(idx);
    spec_exit_seq(m, location, Point { x: -1i32, y: 0i32 }) + spec_exit_seq(
        m,
        location,
        Point { x: 1i32, y: 0i32 },
    ) + spec_exit_seq(m, location, Point { x: 0i32, y: -1i32 }) + spec_exit_seq(
        m,
        location,
        Point { x: 0i32, y: 1i32 },
    )
}

/// Row-major index of the in-bounds cell (x, y).
pub fn map_idx(x: i32, y: i32) -> (idx: usize)
    requires
        0 <= x < SCREEN_WIDTH,
        0 <= y < SCREEN_HEIGHT,
    ensures
        idx == y * SCREEN_WIDTH + x,
        idx == spec_idx(Point { x, y }),
        idx < NUM_TILES,
{
    (y * SCREEN_WIDTH + x) as usize
}

/// The cell that a row-major index names; the reverse of `map_idx`.
pub fn index_to_point(idx: usize) -> (p: Point)
    requires
        idx < NUM_TILES,
    ensures
        p == spec_point_of(idx as int),
        spec_in_bounds(p),
        spec_idx(p) == idx,
{
    let x = (idx % (SCREEN_WIDTH as usize)) as i32;
    let y = (idx / (SCREEN_WIDTH as usize)) as i32;
    proof {
        lemma_idx_roundtrip(idx as int);
    }
    Point { x, y }
}

/// Striding round trip: an index splits into coordinates that rebuild it.
pub proof fn lemma_idx_roundtrip(idx: int)
    requires
        0 <= idx < NUM_TILES,
    ensures
        spec_idx(spec_point_of(idx)) == idx,
        spec_in_bounds(spec_point_of(idx)),
{
    let w = SCREEN_WIDTH as int;
    assert(idx % w + (idx / w) * w == idx) by {
        vstd::arithmetic::div_mod::lemma_fundamental_div_mod(idx, w);
    }
    assert(0 <= idx % w < w) by {
        vstd::arithmetic::div_mod::lemma_mod_bound(idx, w);
    }
    assert(0 <= idx / w < SCREEN_HEIGHT as int) by (nonlinear_arith)
        requires
            0 <= idx < 4000,
            w == 80,
            idx % w + (idx / w) * w == idx,
            0 <= idx % w < w,
    ;
}

/// Striding round trip the other way: coordinates survive the trip through
/// the index and back.
pub proof fn lemma_point_roundtrip(x: i32, y: i32)
    requires
        0 <= x < SCREEN_WIDTH,
        0 <= y < SCREEN_HEIGHT,
    ensures
        spec_point_of(spec_idx(Point { x, y })) == (Point { x, y }),
{
    let w = SCREEN_WIDTH as int;
    let idx = y * w + x;
    assert((y * w + x) % w == x && (y * w + x) / w == y) by {
        vstd::arithmetic::div_mod::lemma_fundamental_div_mod_converse(idx, w, y as int, x as int);
    }
}

} // verus!
