use bracket_lib::random::RandomNumberGenerator;
use dungeoncrawl::camera::Camera;
use dungeoncrawl::components::{FieldOfView, Health, InputKey, Name, WantsToAttack, WantsToMove};
use dungeoncrawl::map::{map_idx, GridMap, TileType};
use dungeoncrawl::point::Point;
use dungeoncrawl::store::{CommandBuffer, EntityData, EntityStore};
use dungeoncrawl::systems::chasing::chasing;
use dungeoncrawl::systems::collisions::collisions;
use dungeoncrawl::systems::combat::combat;
use dungeoncrawl::systems::end_turn::end_turn;
use dungeoncrawl::systems::fov::fov;
use dungeoncrawl::systems::movement::movement;
use dungeoncrawl::systems::player_input::player_input;
use dungeoncrawl::systems::random_move::random_move;
use dungeoncrawl::turn_state::TurnState;

fn blank_entity() -> EntityData {
    EntityData {
        alive: true,
        position: None,
        render: None,
        health: None,
        name: None,
        fov: None,
        is_player: false,
        is_enemy: false,
        is_amulet: false,
        moving_randomly: false,
        chasing_player: false,
    }
}

fn store_with_player_at(p: Point) -> EntityStore {
    let mut ecs = EntityStore::new();
    let mut player = blank_entity();
    player.is_player = true;
    player.position = Some(p);
    player.health = Some(Health { current: 20, max: 20 });
    player.fov = Some(FieldOfView::new(8));
    ecs.entities.push(player);
    ecs.player = Some(0);
    ecs
}

fn push_goblin(ecs: &mut EntityStore, p: Point, hp: i32) -> usize {
    let mut g = blank_entity();
    g.is_enemy = true;
    g.moving_randomly = true;
    g.position = Some(p);
    g.health = Some(Health { current: hp, max: hp });
    g.name = Some(Name { value: String::from("Goblin") });
    g.fov = Some(FieldOfView::new(6));
    ecs.entities.push(g);
    ecs.entities.len() - 1
}

#[test]
fn move_into_wall_changes_nothing_but_is_consumed() {
    let mut ecs = store_with_player_at(Point::new(10, 10));
    let mut map = GridMap::new();
    map.tiles[map_idx(11, 10)] = TileType::Wall;
    let mut camera = Camera::new(Point::new(10, 10));
    let mut buffer = CommandBuffer::new();
    buffer.moves.push(WantsToMove { entity: 0, destination: Point::new(11, 10) });
    movement(&mut ecs, &mut buffer, &map, &mut camera);
    assert_eq!(ecs.entities[0].position, Some(Point::new(10, 10)));
    assert!(buffer.moves.is_empty());
    // the failed move did not mark the field of view stale
    assert!(ecs.entities[0].fov.as_ref().unwrap().is_dirty);
}

#[test]
fn move_into_floor_updates_position_fov_and_camera() {
    let mut ecs = store_with_player_at(Point::new(10, 10));
    ecs.entities[0].fov.as_mut().unwrap().is_dirty = false;
    let map = GridMap::new();
    let mut camera = Camera::new(Point::new(10, 10));
    let mut buffer = CommandBuffer::new();
    buffer.moves.push(WantsToMove { entity: 0, destination: Point::new(11, 10) });
    movement(&mut ecs, &mut buffer, &map, &mut camera);
    assert_eq!(ecs.entities[0].position, Some(Point::new(11, 10)));
    assert!(ecs.entities[0].fov.as_ref().unwrap().is_dirty);
    assert!(buffer.moves.is_empty());
    assert_eq!(camera.left_x, 11 - 20);
}

#[test]
fn combat_decrements_once_per_attack_and_destroys_at_zero() {
    let mut ecs = store_with_player_at(Point::new(10, 10));
    let goblin = push_goblin(&mut ecs, Point::new(11, 10), 2);
    let mut buffer = CommandBuffer::new();
    buffer.attacks.push(WantsToAttack { attacker: 0, victim: goblin });
    buffer.attacks.push(WantsToAttack { attacker: 0, victim: goblin });
    combat(&mut ecs, &mut buffer);
    assert!(buffer.attacks.is_empty());
    assert_eq!(ecs.entities[goblin].health.as_ref().unwrap().current, 0);
    assert!(!ecs.entities[goblin].alive);
}

#[test]
fn combat_spares_a_victim_left_at_one_hit_point() {
    let mut ecs = store_with_player_at(Point::new(10, 10));
    let goblin = push_goblin(&mut ecs, Point::new(11, 10), 2);
    let mut buffer = CommandBuffer::new();
    buffer.attacks.push(WantsToAttack { attacker: 0, victim: goblin });
    combat(&mut ecs, &mut buffer);
    assert_eq!(ecs.entities[goblin].health.as_ref().unwrap().current, 1);
    assert!(ecs.entities[goblin].alive);
}

#[test]
fn combat_never_destroys_the_player() {
    let mut ecs = store_with_player_at(Point::new(10, 10));
    ecs.entities[0].health = Some(Health { current: 1, max: 20 });
    let mut buffer = CommandBuffer::new();
    buffer.attacks.push(WantsToAttack { attacker: 0, victim: 0 });
    buffer.attacks.push(WantsToAttack { attacker: 0, victim: 0 });
    combat(&mut ecs, &mut buffer);
    assert_eq!(ecs.entities[0].health.as_ref().unwrap().current, -1);
    assert!(ecs.entities[0].alive);
}

#[test]
fn directional_key_into_enemy_queues_an_attack() {
    let mut ecs = store_with_player_at(Point::new(10, 10));
    let goblin = push_goblin(&mut ecs, Point::new(11, 10), 1);
    let mut buffer = CommandBuffer::new();
    let mut state = TurnState::AwaitingInput;
    player_input(&mut ecs, &mut buffer, Some(InputKey::Right), &mut state);
    assert_eq!(state, TurnState::PlayerTurn);
    assert!(buffer.moves.is_empty());
    assert_eq!(buffer.attacks.len(), 1);
    assert_eq!(buffer.attacks[0], WantsToAttack { attacker: 0, victim: goblin });
}

#[test]
fn directional_key_into_open_floor_queues_a_move() {
    let mut ecs = store_with_player_at(Point::new(10, 10));
    let mut buffer = CommandBuffer::new();
    let mut state = TurnState::AwaitingInput;
    player_input(&mut ecs, &mut buffer, Some(InputKey::Up), &mut state);
    assert_eq!(state, TurnState::PlayerTurn);
    assert!(buffer.attacks.is_empty());
    assert_eq!(buffer.moves.len(), 1);
    assert_eq!(buffer.moves[0], WantsToMove { entity: 0, destination: Point::new(10, 9) });
}

#[test]
fn idle_key_heals_one_point_up_to_full() {
    let mut ecs = store_with_player_at(Point::new(10, 10));
    ecs.entities[0].health = Some(Health { current: 18, max: 20 });
    let mut buffer = CommandBuffer::new();
    let mut state = TurnState::AwaitingInput;
    player_input(&mut ecs, &mut buffer, Some(InputKey::Other), &mut state);
    assert_eq!(ecs.entities[0].health.as_ref().unwrap().current, 19);
    assert_eq!(state, TurnState::PlayerTurn);
    player_input(&mut ecs, &mut buffer, Some(InputKey::Other), &mut state);
    player_input(&mut ecs, &mut buffer, Some(InputKey::Other), &mut state);
    assert_eq!(ecs.entities[0].health.as_ref().unwrap().current, 20);
    assert!(buffer.moves.is_empty() && buffer.attacks.is_empty());
}

#[test]
fn no_key_changes_nothing() {
    let mut ecs = store_with_player_at(Point::new(10, 10));
    let mut buffer = CommandBuffer::new();
    let mut state = TurnState::AwaitingInput;
    player_input(&mut ecs, &mut buffer, None, &mut state);
    assert_eq!(state, TurnState::AwaitingInput);
    assert!(buffer.moves.is_empty() && buffer.attacks.is_empty());
    assert_eq!(ecs.entities[0].health.as_ref().unwrap().current, 20);
}

#[test]
fn fov_recomputes_only_dirty_viewers() {
    let mut ecs = store_with_player_at(Point::new(10, 10));
    let goblin = push_goblin(&mut ecs, Point::new(30, 30), 1);
    // pretend the goblin's view was already computed, with a marker inside
    {
        let f = ecs.entities[goblin].fov.as_mut().unwrap();
        f.is_dirty = false;
        f.visible_tiles.push(Point::new(-7, -7));
    }
    let map = GridMap::new();
    fov(&mut ecs, &map);
    let pf = ecs.entities[0].fov.as_ref().unwrap();
    assert!(!pf.is_dirty);
    assert!(pf.visible_tiles.contains(&Point::new(10, 10)));
    assert!(pf.visible_tiles.contains(&Point::new(18, 10)));
    assert!(!pf.visible_tiles.contains(&Point::new(19, 10)));
    // the clean viewer was left alone: the marker survived
    let gf = ecs.entities[goblin].fov.as_ref().unwrap();
    assert!(!gf.is_dirty);
    assert_eq!(gf.visible_tiles, vec![Point::new(-7, -7)]);
}

#[test]
fn fov_is_blocked_by_walls_and_symmetric() {
    let mut map = GridMap::new();
    map.tiles[map_idx(11, 10)] = TileType::Wall;
    let a = dungeoncrawl::visibility::field_of_view_set(Point::new(10, 10), 4, &map);
    assert!(a.contains(&Point::new(10, 10)));
    assert!(a.contains(&Point::new(11, 10)));
    assert!(!a.contains(&Point::new(12, 10)));
    let b = dungeoncrawl::visibility::field_of_view_set(Point::new(12, 10), 4, &map);
    assert!(!b.contains(&Point::new(10, 10)));
}

#[test]
fn random_wander_queues_one_step_intents() {
    let mut ecs = store_with_player_at(Point::new(10, 10));
    let goblin = push_goblin(&mut ecs, Point::new(30, 30), 1);
    let mut buffer = CommandBuffer::new();
    let mut rng = RandomNumberGenerator::seeded(11);
    random_move(&ecs, &mut buffer, &mut rng);
    assert!(buffer.attacks.is_empty());
    assert_eq!(buffer.moves.len(), 1);
    let w = buffer.moves[0];
    assert_eq!(w.entity, goblin);
    let from = Point::new(30, 30);
    let dx = (w.destination.x - from.x).abs();
    let dy = (w.destination.y - from.y).abs();
    assert_eq!(dx + dy, 1);
}

#[test]
fn wanderer_next_to_the_player_attacks_or_steps_aside() {
    let mut ecs = store_with_player_at(Point::new(10, 10));
    push_goblin(&mut ecs, Point::new(11, 10), 1);
    // drive the draw until the goblin picks the player's cell
    let mut attacked = false;
    for seed in 0..64u64 {
        let mut buffer = CommandBuffer::new();
        let mut rng = RandomNumberGenerator::seeded(seed);
        random_move(&ecs, &mut buffer, &mut rng);
        for a in buffer.attacks.iter() {
            assert_eq!(a.victim, 0);
            attacked = true;
        }
        for w in buffer.moves.iter() {
            assert_ne!(w.destination, Point::new(10, 10));
        }
    }
    assert!(attacked);
}

#[test]
fn chaser_walks_downhill_toward_a_seen_player() {
    let mut ecs = store_with_player_at(Point::new(10, 10));
    let chaser = push_goblin(&mut ecs, Point::new(15, 10), 1);
    ecs.entities[chaser].moving_randomly = false;
    ecs.entities[chaser].chasing_player = true;
    {
        let f = ecs.entities[chaser].fov.as_mut().unwrap();
        f.is_dirty = false;
        f.visible_tiles.push(Point::new(10, 10));
    }
    let map = GridMap::new();
    let mut buffer = CommandBuffer::new();
    chasing(&ecs, &mut buffer, &map);
    assert!(buffer.attacks.is_empty());
    assert_eq!(buffer.moves.len(), 1);
    assert_eq!(buffer.moves[0], WantsToMove { entity: chaser, destination: Point::new(14, 10) });
}

#[test]
fn chaser_who_cannot_see_the_player_stays_put() {
    let mut ecs = store_with_player_at(Point::new(10, 10));
    let chaser = push_goblin(&mut ecs, Point::new(15, 10), 1);
    ecs.entities[chaser].moving_randomly = false;
    ecs.entities[chaser].chasing_player = true;
    ecs.entities[chaser].fov.as_mut().unwrap().is_dirty = false;
    let map = GridMap::new();
    let mut buffer = CommandBuffer::new();
    chasing(&ecs, &mut buffer, &map);
    assert!(buffer.moves.is_empty() && buffer.attacks.is_empty());
}

#[test]
fn adjacent_chaser_snaps_to_an_attack() {
    let mut ecs = store_with_player_at(Point::new(10, 10));
    let chaser = push_goblin(&mut ecs, Point::new(11, 10), 1);
    ecs.entities[chaser].moving_randomly = false;
    ecs.entities[chaser].chasing_player = true;
    {
        let f = ecs.entities[chaser].fov.as_mut().unwrap();
        f.is_dirty = false;
        f.visible_tiles.push(Point::new(10, 10));
    }
    let map = GridMap::new();
    let mut buffer = CommandBuffer::new();
    chasing(&ecs, &mut buffer, &map);
    assert!(buffer.moves.is_empty());
    assert_eq!(buffer.attacks.len(), 1);
    assert_eq!(buffer.attacks[0], WantsToAttack { attacker: chaser, victim: 0 });
}

#[test]
fn end_turn_cycles_and_checks_win_and_loss() {
    let mut ecs = store_with_player_at(Point::new(10, 10));
    let mut amulet = blank_entity();
    amulet.is_amulet = true;
    amulet.position = Some(Point::new(40, 40));
    ecs.entities.push(amulet);
    ecs.amulet = Some(1);

    let mut state = TurnState::PlayerTurn;
    end_turn(&ecs, &mut state);
    assert_eq!(state, TurnState::MonsterTurn);
    end_turn(&ecs, &mut state);
    assert_eq!(state, TurnState::AwaitingInput);
    end_turn(&ecs, &mut state);
    assert_eq!(state, TurnState::AwaitingInput);

    ecs.entities[0].health = Some(Health { current: 0, max: 20 });
    let mut state = TurnState::MonsterTurn;
    end_turn(&ecs, &mut state);
    assert_eq!(state, TurnState::GameOver);

    ecs.entities[0].health = Some(Health { current: 20, max: 20 });
    ecs.entities[0].position = Some(Point::new(40, 40));
    let mut state = TurnState::PlayerTurn;
    end_turn(&ecs, &mut state);
    assert_eq!(state, TurnState::Victory);
}

#[test]
fn collisions_destroy_enemies_on_the_player_cell() {
    let mut ecs = store_with_player_at(Point::new(10, 10));
    let overlapping = push_goblin(&mut ecs, Point::new(10, 10), 1);
    let elsewhere = push_goblin(&mut ecs, Point::new(12, 10), 1);
    collisions(&mut ecs);
    assert!(!ecs.entities[overlapping].alive);
    assert!(ecs.entities[elsewhere].alive);
    assert!(ecs.entities[0].alive);
}

#[test]
fn wanderer_moves_even_onto_an_occupied_cell() {
    // per the message protocol, a blocked cell is the movement resolver's
    // concern: the wanderer still queues its move intent
    let mut ecs = store_with_player_at(Point::new(50, 40));
    let wanderer = push_goblin(&mut ecs, Point::new(30, 30), 1);
    for p in [
        Point::new(29, 30),
        Point::new(31, 30),
        Point::new(30, 29),
        Point::new(30, 31),
    ] {
        let mut blocker = blank_entity();
        blocker.is_enemy = true;
        blocker.position = Some(p);
        blocker.health = Some(Health { current: 1, max: 1 });
        ecs.entities.push(blocker);
    }
    let mut buffer = CommandBuffer::new();
    let mut rng = RandomNumberGenerator::seeded(21);
    random_move(&ecs, &mut buffer, &mut rng);
    assert!(buffer.attacks.is_empty());
    assert_eq!(buffer.moves.len(), 1);
    let w = buffer.moves[0];
    assert_eq!(w.entity, wanderer);
    let dx = (w.destination.x - 30).abs();
    let dy = (w.destination.y - 30).abs();
    assert_eq!(dx + dy, 1);
}

#[test]
fn chaser_moves_even_onto_an_occupied_downhill_cell() {
    let mut ecs = store_with_player_at(Point::new(10, 10));
    let chaser = push_goblin(&mut ecs, Point::new(15, 10), 1);
    ecs.entities[chaser].moving_randomly = false;
    ecs.entities[chaser].chasing_player = true;
    {
        let f = ecs.entities[chaser].fov.as_mut().unwrap();
        f.is_dirty = false;
        f.visible_tiles.push(Point::new(10, 10));
    }
    // a creature already stands on the downhill cell (14, 10)
    let mut blocker = blank_entity();
    blocker.is_enemy = true;
    blocker.position = Some(Point::new(14, 10));
    blocker.health = Some(Health { current: 1, max: 1 });
    ecs.entities.push(blocker);
    let map = GridMap::new();
    let mut buffer = CommandBuffer::new();
    chasing(&ecs, &mut buffer, &map);
    assert!(buffer.attacks.is_empty());
    assert_eq!(buffer.moves.len(), 1);
    assert_eq!(buffer.moves[0], WantsToMove { entity: chaser, destination: Point::new(14, 10) });
}
