use bracket_lib::random::RandomNumberGenerator;
use dungeoncrawl::point::Point;
use dungeoncrawl::spawners::{goblin, orc, spawn_amulet_of_yala, spawn_monster, spawn_player};
use dungeoncrawl::store::EntityStore;

#[test]
fn stat_lines_match_the_bestiary() {
    let (hp, name, glyph) = goblin();
    assert_eq!((hp, name.as_str(), glyph), (1, "Goblin", 103));
    let (hp, name, glyph) = orc();
    assert_eq!((hp, name.as_str(), glyph), (2, "Orc", 111));
}

#[test]
fn spawned_player_is_fully_equipped() {
    let mut ecs = EntityStore::new();
    spawn_player(&mut ecs, Point::new(12, 34));
    assert_eq!(ecs.player, Some(0));
    let p = &ecs.entities[0];
    assert!(p.alive && p.is_player && !p.is_enemy);
    assert_eq!(p.position, Some(Point::new(12, 34)));
    let h = p.health.as_ref().unwrap();
    assert_eq!((h.current, h.max), (20, 20));
    let r = p.render.as_ref().unwrap();
    assert_eq!(r.glyph, 64);
    let f = p.fov.as_ref().unwrap();
    assert_eq!(f.radius, 8);
    assert!(f.is_dirty);
}

#[test]
fn spawned_amulet_is_the_goal_item() {
    let mut ecs = EntityStore::new();
    spawn_amulet_of_yala(&mut ecs, Point::new(60, 20));
    assert_eq!(ecs.amulet, Some(0));
    let a = &ecs.entities[0];
    assert!(a.alive && a.is_amulet && !a.is_player && !a.is_enemy);
    assert_eq!(a.position, Some(Point::new(60, 20)));
    assert!(a.health.is_none());
    assert_eq!(a.render.as_ref().unwrap().glyph, 124);
    assert_eq!(a.name.as_ref().unwrap().value, "Amulet of Yala");
}

#[test]
fn monsters_come_in_both_kinds_with_matching_stats() {
    let mut saw_goblin = false;
    let mut saw_orc = false;
    for seed in 0..64u64 {
        let mut rng = RandomNumberGenerator::seeded(seed);
        let mut ecs = EntityStore::new();
        spawn_monster(&mut ecs, &mut rng, Point::new(7, 7));
        let m = &ecs.entities[0];
        assert!(m.alive && m.is_enemy && m.moving_randomly);
        assert_eq!(m.position, Some(Point::new(7, 7)));
        let h = m.health.as_ref().unwrap();
        assert_eq!(h.current, h.max);
        let f = m.fov.as_ref().unwrap();
        assert_eq!(f.radius, 6);
        assert!(f.is_dirty);
        let name = m.name.as_ref().unwrap().value.as_str();
        let glyph = m.render.as_ref().unwrap().glyph;
        match name {
            "Goblin" => {
                assert_eq!((h.max, glyph), (1, 103));
                saw_goblin = true;
            }
            "Orc" => {
                assert_eq!((h.max, glyph), (2, 111));
                saw_orc = true;
            }
            other => panic!("unexpected monster name: {}", other),
        }
    }
    assert!(saw_goblin && saw_orc);
}
