use bracket_lib::random::RandomNumberGenerator;
use dungeoncrawl::dijkstra::{DijkstraMap, UNREACHABLE};
use dungeoncrawl::map::{map_idx, GridMap, TileType};
use dungeoncrawl::map_builder::{MapBuilder, NUM_ROOMS};
use dungeoncrawl::point::Point;
use dungeoncrawl::random::{random_range, roll_dice};
use dungeoncrawl::{NUM_TILES, SCREEN_HEIGHT, SCREEN_WIDTH};

#[test]
fn builder_places_exactly_n_disjoint_rooms_in_bounds() {
    for seed in [1u64, 7, 42, 1234] {
        let mut rng = RandomNumberGenerator::seeded(seed);
        let mb = MapBuilder::new(&mut rng);
        assert_eq!(mb.rooms.len(), NUM_ROOMS);
        for (i, r) in mb.rooms.iter().enumerate() {
            assert!(r.x1 >= 1 && r.x2 <= SCREEN_WIDTH - 1);
            assert!(r.y1 >= 1 && r.y2 <= SCREEN_HEIGHT - 1);
            assert!(r.x2 - r.x1 >= 2 && r.y2 - r.y1 >= 2);
            for (j, s) in mb.rooms.iter().enumerate() {
                if i != j {
                    assert!(!r.intersect(s));
                }
            }
        }
    }
}

#[test]
fn player_start_and_goal_are_floor_and_connected() {
    let mut rng = RandomNumberGenerator::seeded(99);
    let mb = MapBuilder::new(&mut rng);
    assert!(mb.map.can_enter_tile(mb.player_start));
    assert!(mb.map.can_enter_tile(mb.amulet_start));
    let starts = vec![map_idx(mb.player_start.x, mb.player_start.y)];
    let field = DijkstraMap::new(SCREEN_WIDTH, SCREEN_HEIGHT, &starts, &mb.map, 1024);
    let goal = map_idx(mb.amulet_start.x, mb.amulet_start.y);
    assert!(field.map[goal] != UNREACHABLE);
}

#[test]
fn goal_sits_at_the_maximum_finite_cost() {
    let mut rng = RandomNumberGenerator::seeded(5);
    let mb = MapBuilder::new(&mut rng);
    let starts = vec![map_idx(mb.player_start.x, mb.player_start.y)];
    let field = DijkstraMap::new(SCREEN_WIDTH, SCREEN_HEIGHT, &starts, &mb.map, 1024);
    let goal = map_idx(mb.amulet_start.x, mb.amulet_start.y);
    let goal_cost = field.map[goal];
    assert!(goal_cost != UNREACHABLE);
    for i in 0..NUM_TILES {
        if field.map[i] != UNREACHABLE {
            assert!(field.map[i] <= goal_cost);
        }
    }
}

#[test]
fn same_seed_rebuilds_the_same_map() {
    let mut rng1 = RandomNumberGenerator::seeded(2024);
    let mb1 = MapBuilder::new(&mut rng1);
    let mut rng2 = RandomNumberGenerator::seeded(2024);
    let mb2 = MapBuilder::new(&mut rng2);
    assert_eq!(mb1.map.tiles, mb2.map.tiles);
    assert_eq!(mb1.rooms, mb2.rooms);
    assert_eq!(mb1.player_start, mb2.player_start);
    assert_eq!(mb1.amulet_start, mb2.amulet_start);
}

#[test]
fn cost_field_counts_steps_along_a_corridor() {
    let mut m = GridMap::new();
    for i in 0..NUM_TILES {
        m.tiles[i] = TileType::Wall;
    }
    // a corridor in row 10 from x = 5 to x = 15
    for x in 5..=15 {
        m.tiles[map_idx(x, 10)] = TileType::Floor;
    }
    let starts = vec![map_idx(5, 10)];
    let field = DijkstraMap::new(SCREEN_WIDTH, SCREEN_HEIGHT, &starts, &m, 1024);
    for x in 5..=15 {
        assert_eq!(field.map[map_idx(x, 10)], x - 5);
    }
    assert_eq!(field.map[map_idx(4, 10)], UNREACHABLE);
    assert_eq!(field.map[map_idx(5, 11)], UNREACHABLE);
    // walking downhill from the far end heads back west
    let exit = DijkstraMap::find_lowest_exit(&field, map_idx(15, 10), &m);
    assert_eq!(exit, Some(map_idx(14, 10) as usize));
    // the source is a local minimum
    assert_eq!(DijkstraMap::find_lowest_exit(&field, map_idx(5, 10), &m), None);
}

#[test]
fn random_wrappers_stay_in_their_ranges() {
    let mut rng = RandomNumberGenerator::seeded(7);
    for _ in 0..200 {
        let v = random_range(&mut rng, 1, 70);
        assert!((1..70).contains(&v));
        let d = roll_dice(&mut rng, 1, 10);
        assert!((1..=10).contains(&d));
        let s = roll_dice(&mut rng, 3, 6);
        assert!((3..=18).contains(&s));
    }
}

#[test]
fn tunnels_carve_floor_between_points() {
    let mut rng = RandomNumberGenerator::seeded(3);
    let mut mb = MapBuilder::new(&mut rng);
    for i in 0..NUM_TILES {
        mb.map.tiles[i] = TileType::Wall;
    }
    mb.apply_horizontal_tunnel(3, 8, 20);
    for x in 3..=8 {
        assert_eq!(mb.map.tiles[map_idx(x, 20)], TileType::Floor);
    }
    mb.apply_vertical_tunnel(20, 25, 8);
    for y in 20..=25 {
        assert_eq!(mb.map.tiles[map_idx(8, y)], TileType::Floor);
    }
    assert_eq!(mb.map.tiles[map_idx(2, 20)], TileType::Wall);
    assert_eq!(mb.map.tiles[map_idx(8, 26)], TileType::Wall);
}

#[test]
fn every_room_center_is_reachable_from_the_start() {
    let mut rng = RandomNumberGenerator::seeded(31);
    let mb = MapBuilder::new(&mut rng);
    let starts = vec![map_idx(mb.player_start.x, mb.player_start.y)];
    let field = DijkstraMap::new(SCREEN_WIDTH, SCREEN_HEIGHT, &starts, &mb.map, 1024);
    for room in mb.rooms.iter() {
        let c = room.center();
        assert!(field.map[map_idx(c.x, c.y)] != UNREACHABLE);
    }
}

#[test]
fn every_floor_tile_sits_in_a_room_or_corridor_band() {
    let mut rng = RandomNumberGenerator::seeded(47);
    let mb = MapBuilder::new(&mut rng);
    let mut centers: Vec<Point> = mb.rooms.iter().map(|r| r.center()).collect();
    centers.sort_by(|a, b| a.x.cmp(&b.x));
    for idx in 0..NUM_TILES {
        if mb.map.tiles[idx] != TileType::Floor {
            continue;
        }
        let x = (idx % 80) as i32;
        let y = (idx / 80) as i32;
        let in_room = mb.rooms.iter().any(|r| r.point_in_rect(Point::new(x, y)));
        let on_band = (1..centers.len()).any(|j| {
            let a = centers[j - 1];
            let b = centers[j];
            let xr = a.x.min(b.x)..=a.x.max(b.x);
            let yr = a.y.min(b.y)..=a.y.max(b.y);
            (xr.contains(&x) && (y == a.y || y == b.y)) || (yr.contains(&y) && (x == a.x || x == b.x))
        });
        assert!(in_room || on_band);
    }
}
