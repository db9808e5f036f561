use dungeoncrawl::camera::Camera;
use dungeoncrawl::glyph::to_cp437;
use dungeoncrawl::map::{index_to_point, map_idx, GridMap, TileType};
use dungeoncrawl::point::Point;
use dungeoncrawl::rect::Rect;
use dungeoncrawl::{NUM_TILES, SCREEN_HEIGHT, SCREEN_WIDTH};

#[test]
fn index_roundtrip_covers_every_cell() {
    for y in 0..SCREEN_HEIGHT {
        for x in 0..SCREEN_WIDTH {
            let idx = map_idx(x, y);
            let p = index_to_point(idx);
            assert_eq!(p, Point::new(x, y));
        }
    }
}

#[test]
fn index_roundtrip_from_indices() {
    for idx in 0..NUM_TILES {
        let p = index_to_point(idx);
        assert_eq!(map_idx(p.x, p.y), idx);
    }
}

#[test]
fn map_idx_is_row_major() {
    assert_eq!(map_idx(0, 0), 0);
    assert_eq!(map_idx(79, 0), 79);
    assert_eq!(map_idx(0, 1), 80);
    assert_eq!(map_idx(3, 2), 163);
    assert_eq!(map_idx(79, 49), 3999);
}

#[test]
fn new_map_is_open_floor() {
    let m = GridMap::new();
    assert_eq!(m.tiles.len(), NUM_TILES);
    assert!(m.can_enter_tile(Point::new(0, 0)));
    assert!(m.can_enter_tile(Point::new(79, 49)));
    assert!(!m.in_bounds(Point::new(-1, 0)));
    assert!(!m.in_bounds(Point::new(80, 0)));
    assert!(!m.can_enter_tile(Point::new(0, 50)));
}

#[test]
fn walls_cannot_be_entered() {
    let mut m = GridMap::new();
    m.tiles[map_idx(5, 5)] = TileType::Wall;
    assert!(!m.can_enter_tile(Point::new(5, 5)));
    assert!(m.is_opaque(map_idx(5, 5)));
    assert!(!m.is_opaque(map_idx(6, 5)));
    assert_eq!(m.try_idx(Point::new(5, 5)), Some(map_idx(5, 5)));
    assert_eq!(m.try_idx(Point::new(-1, 5)), None);
}

#[test]
fn exits_are_axis_aligned_floor_neighbors() {
    let mut m = GridMap::new();
    // wall to the west of (10, 10)
    m.tiles[map_idx(9, 10)] = TileType::Wall;
    let exits = m.get_available_exits(map_idx(10, 10));
    assert_eq!(
        exits,
        vec![map_idx(11, 10), map_idx(10, 9), map_idx(10, 11)]
    );
    // a corner cell has two exits
    let corner = m.get_available_exits(map_idx(0, 0));
    assert_eq!(corner, vec![map_idx(1, 0), map_idx(0, 1)]);
}

#[test]
fn pathing_distance_is_squared_euclidean() {
    let m = GridMap::new();
    let a = map_idx(3, 4);
    let b = map_idx(0, 0);
    assert_eq!(m.get_pathing_distance(a, b), 25);
    assert_eq!(m.get_pathing_distance(a, a), 0);
}

#[test]
fn rect_intersection_and_center() {
    let a = Rect::with_size(1, 1, 10, 10);
    let b = Rect::with_size(5, 5, 10, 10);
    let c = Rect::with_size(20, 20, 3, 3);
    assert!(a.intersect(&b));
    assert!(b.intersect(&a));
    assert!(!a.intersect(&c));
    assert_eq!(a.center(), Point::new(6, 6));
    assert!(a.point_in_rect(Point::new(1, 1)));
    assert!(!a.point_in_rect(Point::new(11, 1)));
}

#[test]
fn camera_centers_on_focus() {
    let c = Camera::new(Point::new(40, 25));
    assert_eq!(c.left_x, 20);
    assert_eq!(c.right_x, 60);
    assert_eq!(c.top_y, 13);
    assert_eq!(c.bottom_y, 37);
    let mut c2 = c;
    c2.on_player_move(Point::new(10, 10));
    assert_eq!(c2.left_x, -10);
    assert_eq!(c2.top_y, -2);
}

#[test]
fn glyph_codes_follow_code_page_437() {
    assert_eq!(to_cp437('@'), 64);
    assert_eq!(to_cp437('g'), 103);
    assert_eq!(to_cp437('o'), 111);
    assert_eq!(to_cp437('.'), 46);
    assert_eq!(to_cp437('#'), 35);
    assert_eq!(to_cp437('|'), 124);
    // outside ASCII the table is its own: the smiling face is glyph 1
    assert_eq!(to_cp437('\u{263A}'), 1);
}

#[test]
fn dist2_is_symmetric_squared_distance() {
    let a = Point::new(3, 4);
    let b = Point::new(0, 0);
    assert_eq!(a.dist2(b), 25);
    assert_eq!(b.dist2(a), 25);
    assert_eq!(a.dist2(a), 0);
}
