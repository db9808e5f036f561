use vstd::prelude::*;
use vstd::string::StringExecFns;

use crate::components::{black, white, Color, ColorPair, FieldOfView, Health, Name, Render};
use crate::glyph::to_cp437;
use crate::map::spec_in_bounds;
use crate::point::Point;
use crate::random::roll_dice;
use crate::store::{EntityData, EntityStore};

verus! {

/// What the player entity looks like right after spawning.
pub open spec fn spawned_player_ok(e: EntityData, position: Point) -> bool {
    &&& e.alive
    &&& e.is_player
    &&& !e.is_enemy
    &&& !e.is_amulet
    &&& !e.moving_randomly
    &&& !e.chasing_player
    &&& e.position == Some(position)
    &&& e.health == Some(Health { current: 20, max: 20 })
    &&& e.name is None
    &&& e.render is Some
    &&& e.render->Some_0.glyph == '@' as u16
    &&& e.render->Some_0.color == (ColorPair {
        fg: Color { r: 255, g: 255, b: 255 },
        bg: Color { r: 0, g: 0, b: 0 },
    })
    &&& e.fov is Some
    &&& e.fov->Some_0.radius == 8
    &&& e.fov->Some_0.is_dirty
}

/// Add the player entity at `position`: the `@` glyph, 20 of 20 hit points,
/// and a sight radius of 8.
pub fn spawn_player(ecs: &mut EntityStore, position: Point)
    requires
        old(ecs).wf(),
        spec_in_bounds(position),
        old(ecs).player is None,
    ensures
        final(ecs).wf(),
        final(ecs).entities@.len() == old(ecs).entities@.len() + 1,
        forall|i: int|
            0 <= i < old(ecs).entities@.len() ==> final(ecs).entities@[i] == old(ecs).entities@[i],
        final(ecs).player == Some(old(ecs).entities@.len() as usize),
        final(ecs).amulet == old(ecs).amulet,
        spawned_player_ok(final(ecs).entities@.last(), position),
{
    let glyph = to_cp437('@');
    let idx = ecs.entities.len();
    ecs.entities.push(
        EntityData {
            alive: true,
            position: Some(position),
            render: Some(Render { color: ColorPair { fg: white(), bg: black() }, glyph }),
            health: Some(Health { current: 20, max: 20 }),
            name: None,
            fov: Some(FieldOfView::new(8)),
            is_player: true,
            is_enemy: false,
            is_amulet: false,
            moving_randomly: false,
            chasing_player: false,
        },
    );
    ecs.player = Some(idx);
}

/// The stat line of a goblin: 1 hit point, its name, and its glyph.
pub fn goblin() -> (r: (i32, String, u16))
    ensures
        r.0 == 1,
        r.1@ == "Goblin"@,
        r.2 == 'g' as u16,
{
    (1, String::from_str("Goblin"), to_cp437('g'))
}

/// The stat line of an orc: 2 hit points, its name, and its glyph.
pub fn orc() -> (r: (i32, String, u16))
    ensures
        r.0 == 2,
        r.1@ == "Orc"@,
        r.2 == 'o' as u16,
{
    (2, String::from_str("Orc"), to_cp437('o'))
}

/// What a monster entity looks like right after spawning.
pub open spec fn spawned_monster_ok(e: EntityData, position: Point) -> bool {
    &&& e.alive
    &&& !e.is_player
    &&& e.is_enemy
    &&& !e.is_amulet
    &&& e.moving_randomly
    &&& !e.chasing_player
    &&& e.position == Some(position)
    &&& e.health is Some
    &&& e.health->Some_0.current == e.health->Some_0.max
    &&& e.name is Some
    &&& e.render is Some
    &&& e.render->Some_0.color == (ColorPair {
        fg: Color { r: 255, g: 255, b: 255 },
        bg: Color { r: 0, g: 0, b: 0 },
    })
    &&& e.fov is Some
    &&& e.fov->Some_0.radius == 6
    &&& e.fov->Some_0.is_dirty
    &&& ((e.health == Some(Health { current: 1, max: 1 }) && e.name->Some_0.value@ == "Goblin"@
        && e.render is Some && e.render->Some_0.glyph == 'g' as u16) || (e.health == Some(
        Health { current: 2, max: 2 },
    ) && e.name->Some_0.value@ == "Orc"@ && e.render is Some && e.render->Some_0.glyph
        == 'o' as u16))
}

/// Add a randomly wandering monster at `position`: a ten-sided die picks a
/// goblin on 1 through 8, an orc otherwise.
pub fn spawn_monster(
    ecs: &mut EntityStore,
    rng: &mut bracket_lib::random::RandomNumberGenerator,
    position: Point,
)
    requires
        old(ecs).wf(),
        spec_in_bounds(position),
    ensures
        final(ecs).wf(),
        final(ecs).entities@.len() == old(ecs).entities@.len() + 1,
        forall|i: int|
            0 <= i < old(ecs).entities@.len() ==> final(ecs).entities@[i] == old(ecs).entities@[i],
        final(ecs).player == old(ecs).player,
        final(ecs).amulet == old(ecs).amulet,
        spawned_monster_ok(final(ecs).entities@.last(), position),
{
    let roll = roll_dice(rng, 1, 10);
    let (hp, name, glyph) = if roll <= 8 {
        goblin()
    } else {
        orc()
    };
    ecs.entities.push(
        EntityData {
            alive: true,
            position: Some(position),
            render: Some(Render { color: ColorPair { fg: white(), bg: black() }, glyph }),
            health: Some(Health { current: hp, max: hp }),
            name: Some(Name { value: name }),
            fov: Some(FieldOfView::new(6)),
            is_player: false,
            is_enemy: true,
            is_amulet: false,
            moving_randomly: true,
            chasing_player: false,
        },
    );
}

/// What the amulet entity looks like right after spawning.
pub open spec fn spawned_amulet_ok(e: EntityData, position: Point) -> bool {
    &&& e.alive
    &&& !e.is_player
    &&& !e.is_enemy
    &&& e.is_amulet
    &&& !e.moving_randomly
    &&& !e.chasing_player
    &&& e.position == Some(position)
    &&& e.health is None
    &&& e.fov is None
    &&& e.name is Some
    &&& e.name->Some_0.value@ == "Amulet of Yala"@
    &&& e.render is Some
    &&& e.render->Some_0.glyph == '|' as u16
    &&& e.render->Some_0.color == (ColorPair {
        fg: Color { r: 255, g: 255, b: 255 },
        bg: Color { r: 0, g: 0, b: 0 },
    })
}

/// Add the amulet, the goal item, at `position`.
pub fn spawn_amulet_of_yala(ecs: &mut EntityStore, position: Point)
    requires
        old(ecs).wf(),
        spec_in_bounds(position),
        old(ecs).amulet is None,
    ensures
        final(ecs).wf(),
        final(ecs).entities@.len() == old(ecs).entities@.len() + 1,
        forall|i: int|
            0 <= i < old(ecs).entities@.len() ==> final(ecs).entities@[i] == old(ecs).entities@[i],
        final(ecs).player == old(ecs).player,
        final(ecs).amulet == Some(old(ecs).entities@.len() as usize),
        spawned_amulet_ok(final(ecs).entities@.last(), position),
{
    let glyph = to_cp437('|');
    let idx = ecs.entities.len();
    ecs.entities.push(
        EntityData {
            alive: true,
            position: Some(position),
            render: Some(Render { color: ColorPair { fg: white(), bg: black() }, glyph }),
            health: None,
            name: Some(Name { value: String::from_str("Amulet of Yala") }),
            fov: None,
            is_player: false,
            is_enemy: false,
            is_amulet: true,
            moving_randomly: false,
            chasing_player: false,
        },
    );
    ecs.amulet = Some(idx);
}

} // verus!
