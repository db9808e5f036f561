use bracket_lib::random::RandomNumberGenerator;
use dungeoncrawl::camera::Camera;
use dungeoncrawl::components::{FieldOfView, Health, InputKey, Name, WantsToAttack};
use dungeoncrawl::draw::DrawCommand;
use dungeoncrawl::map::{map_idx, GridMap, TileType};
use dungeoncrawl::point::Point;
use dungeoncrawl::simulation::Simulation;
use dungeoncrawl::store::{CommandBuffer, EntityData, EntityStore};
use dungeoncrawl::turn_state::TurnState;

fn blank_entity() -> EntityData {
    EntityData {
        alive: true,
        position: None,
        render: None,
        health: None,
        name: None,
        fov: None,
        is_player: false,
        is_enemy: false,
        is_amulet: false,
        moving_randomly: false,
        chasing_player: false,
    }
}

fn open_simulation() -> Simulation {
    let mut ecs = EntityStore::new();
    let mut player = blank_entity();
    player.is_player = true;
    player.position = Some(Point::new(10, 10));
    player.health = Some(Health { current: 20, max: 20 });
    player.fov = Some(FieldOfView::new(8));
    ecs.entities.push(player);
    ecs.player = Some(0);
    let mut amulet = blank_entity();
    amulet.is_amulet = true;
    amulet.position = Some(Point::new(70, 40));
    amulet.name = Some(Name { value: String::from("Amulet of Yala") });
    ecs.entities.push(amulet);
    ecs.amulet = Some(1);
    Simulation {
        ecs,
        map: GridMap::new(),
        camera: Camera::new(Point::new(10, 10)),
        turn_state: TurnState::AwaitingInput,
        buffer: CommandBuffer::new(),
    }
}

#[test]
fn scenario_move_right_through_one_full_turn() {
    let mut sim = open_simulation();
    let mut rng = RandomNumberGenerator::seeded(1);
    let mouse = Point::new(0, 0);

    sim.tick(Some(InputKey::Right), mouse, &mut rng);
    assert_eq!(sim.turn_state, TurnState::PlayerTurn);
    // the intent is queued; the move itself resolves in the player phase
    assert_eq!(sim.ecs.entities[0].position, Some(Point::new(10, 10)));

    sim.tick(None, mouse, &mut rng);
    assert_eq!(sim.turn_state, TurnState::MonsterTurn);
    assert_eq!(sim.ecs.entities[0].position, Some(Point::new(11, 10)));
    // the field-of-view stage ran after the move: the cache is fresh again
    assert!(!sim.ecs.entities[0].fov.as_ref().unwrap().is_dirty);

    sim.tick(None, mouse, &mut rng);
    assert_eq!(sim.turn_state, TurnState::AwaitingInput);
}

#[test]
fn scenario_player_death_then_restart() {
    let mut sim = open_simulation();
    let mut rng = RandomNumberGenerator::seeded(2);
    let mouse = Point::new(0, 0);
    sim.ecs.entities[0].health = Some(Health { current: 1, max: 20 });
    sim.buffer.attacks.push(WantsToAttack { attacker: 1, victim: 0 });
    sim.turn_state = TurnState::MonsterTurn;

    sim.tick(None, mouse, &mut rng);
    assert_eq!(sim.ecs.entities[0].health.as_ref().unwrap().current, 0);
    assert_eq!(sim.turn_state, TurnState::GameOver);

    // a tick in a terminal state runs nothing
    let draws = sim.tick(None, mouse, &mut rng);
    assert!(draws.is_empty());
    assert_eq!(sim.turn_state, TurnState::GameOver);

    sim.reset_game_state(&mut rng);
    assert_eq!(sim.turn_state, TurnState::AwaitingInput);
    let p = sim.ecs.player.unwrap();
    let h = sim.ecs.entities[p].health.as_ref().unwrap();
    assert_eq!(h.current, h.max);
    assert_eq!(h.current, 20);
}

#[test]
fn scenario_standing_on_the_amulet_wins() {
    let mut sim = open_simulation();
    let mut rng = RandomNumberGenerator::seeded(3);
    sim.ecs.entities[0].position = Some(Point::new(70, 40));
    sim.turn_state = TurnState::PlayerTurn;
    sim.tick(None, Point::new(0, 0), &mut rng);
    assert_eq!(sim.turn_state, TurnState::Victory);
}

#[test]
fn fov_of_a_boxed_in_monster_is_computed_once() {
    let mut sim = open_simulation();
    let mut rng = RandomNumberGenerator::seeded(4);
    let mouse = Point::new(0, 0);
    // box a wanderer in with walls
    let mut goblin = blank_entity();
    goblin.is_enemy = true;
    goblin.moving_randomly = true;
    goblin.position = Some(Point::new(30, 30));
    goblin.health = Some(Health { current: 1, max: 1 });
    goblin.fov = Some(FieldOfView::new(6));
    sim.ecs.entities.push(goblin);
    let g = sim.ecs.entities.len() - 1;
    for (x, y) in [(29, 30), (31, 30), (30, 29), (30, 31)] {
        sim.map.tiles[map_idx(x, y)] = TileType::Wall;
    }

    // the first input tick computes the spawn-time view
    sim.tick(None, mouse, &mut rng);
    assert!(!sim.ecs.entities[g].fov.as_ref().unwrap().is_dirty);
    // leave a marker: a recompute would erase it
    sim.ecs.entities[g].fov.as_mut().unwrap().visible_tiles.push(Point::new(-7, -7));

    for _ in 0..5 {
        sim.tick(Some(InputKey::Other), mouse, &mut rng);
        sim.tick(None, mouse, &mut rng);
        sim.tick(None, mouse, &mut rng);
    }
    // the boxed-in monster never moved, so its view was never recomputed
    assert_eq!(sim.ecs.entities[g].position, Some(Point::new(30, 30)));
    let f = sim.ecs.entities[g].fov.as_ref().unwrap();
    assert!(!f.is_dirty);
    assert!(f.visible_tiles.contains(&Point::new(-7, -7)));
}

#[test]
fn fresh_simulation_is_ready_to_play() {
    let mut rng = RandomNumberGenerator::seeded(77);
    let sim = Simulation::new(&mut rng);
    assert_eq!(sim.turn_state, TurnState::AwaitingInput);
    let p = sim.ecs.player.unwrap();
    assert_eq!(sim.ecs.entities[p].health, Some(Health { current: 20, max: 20 }));
    let a = sim.ecs.amulet.unwrap();
    assert!(sim.ecs.entities[a].position.is_some());
    assert_ne!(sim.ecs.entities[p].position, sim.ecs.entities[a].position);
    // one player, one amulet, a monster for every room but the first
    assert!(sim.ecs.entities.len() >= 3);
    assert!(sim.buffer.moves.is_empty() && sim.buffer.attacks.is_empty());
}

#[test]
fn render_output_draws_terrain_entities_and_tooltips() {
    let mut sim = open_simulation();
    let mut rng = RandomNumberGenerator::seeded(5);
    // hover over the player's own cell: mouse + camera offset = (10, 10)
    let mouse = Point::new(10 - sim.camera.left_x, 10 - sim.camera.top_y);
    // give the player a name so the tooltip has something to say
    sim.ecs.entities[0].name = Some(Name { value: String::from("Hero") });
    let draws = sim.tick(None, mouse, &mut rng);
    let mut terrain = 0;
    let mut glyphs = 0;
    let mut texts = Vec::new();
    for c in draws.iter() {
        match c {
            DrawCommand::SetGlyph { layer: 0, .. } => terrain += 1,
            DrawCommand::SetGlyph { layer: 1, .. } => glyphs += 1,
            DrawCommand::SetGlyph { .. } => {}
            DrawCommand::PrintText { text, .. } => texts.push(text.clone()),
        }
    }
    assert!(terrain > 0);
    // the player has no Render component in this bare store
    assert_eq!(glyphs, 0);
    assert_eq!(texts, vec![String::from("Hero: 20 hp")]);
}
