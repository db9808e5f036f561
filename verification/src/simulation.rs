use vstd::prelude::*;

use crate::camera::Camera;
use crate::components::{Health, InputKey};
use crate::draw::DrawCommand;
use crate::map::GridMap;
use crate::map_builder::MapBuilder;
use crate::path::reachable;
use crate::point::Point;
use crate::spawners::{spawn_amulet_of_yala, spawn_monster, spawn_player};
use crate::store::{CommandBuffer, EntityStore};
use crate::systems::chasing::chasing;
use crate::systems::combat::combat;
use crate::systems::end_turn::end_turn;
use crate::systems::entity_render::{entity_render, entity_render_ok};
use crate::systems::fov::fov;
use crate::systems::map_render::{map_render, map_render_ok};
use crate::systems::movement::movement;
use crate::systems::player_input::player_input;
use crate::systems::random_move::random_move;
use crate::systems::tooltips::{tooltips, tooltips_ok};
use crate::turn_state::TurnState;

verus! {

/// The whole simulation: the explicit context handed to every system in
/// place of hidden globals — the entity store, the map, the camera, the
/// turn machine, and the deferred-intent queues that carry messages from
/// one stage to the next.
pub struct Simulation {
    pub ecs: EntityStore,
    pub map: GridMap,
    pub camera: Camera,
    pub turn_state: TurnState,
    pub buffer: CommandBuffer,
}

impl Simulation {
    /// The simulation invariant, preserved by every tick: the store, map
    /// and camera are well-formed; the player and the amulet exist, the
    /// player with a field of view, the amulet without health (so combat
    /// can never destroy the goal); and every live entity stands on a
    /// walkable tile.
    pub open spec fn wf(self) -> bool {
        &&& self.ecs.wf()
        &&& self.map.wf()
        &&& self.camera.wf()
        &&& self.ecs.player is Some
        &&& self.ecs.amulet is Some
        &&& self.ecs.entities@[self.ecs.player->Some_0 as int].fov is Some
        &&& self.ecs.entities@[self.ecs.amulet->Some_0 as int].health is None
        &&& (forall|i: int|
            0 <= i < self.ecs.entities@.len() && (#[trigger] self.ecs.entities@[i]).alive
                && self.ecs.entities@[i].position is Some ==> self.map.spec_can_enter(
                self.ecs.entities@[i].position->Some_0,
            ))
    }

    /// The player's current position.
    pub open spec fn spec_player_position(self) -> Point {
        self.ecs.entities@[self.ecs.player->Some_0 as int].position->Some_0
    }

    /// The amulet's current position.
    pub open spec fn spec_amulet_position(self) -> Point {
        self.ecs.entities@[self.ecs.amulet->Some_0 as int].position->Some_0
    }

    /// A fresh simulation drawn from the random stream: a new map, the
    /// player at the first room's center with full health, the amulet on
    /// the farthest reachable tile, a monster at the center of every other
    /// room, the camera on the player, and the turn machine awaiting input.
    pub fn new(rng: &mut bracket_lib::random::RandomNumberGenerator) -> (s: Simulation)
        ensures
            s.wf(),
            s.turn_state == TurnState::AwaitingInput,
            s.ecs.entities@[s.ecs.player->Some_0 as int].health == Some(
                Health { current: 20, max: 20 },
            ),
            s.ecs.entities@[s.ecs.player->Some_0 as int].position is Some,
            s.ecs.entities@[s.ecs.amulet->Some_0 as int].position is Some,
            reachable(s.map, s.spec_player_position(), s.spec_amulet_position()),
            s.camera.spec_centered_on(s.spec_player_position()),
            s.buffer.moves@.len() == 0,
            s.buffer.attacks@.len() == 0,
            // the population: the player, the amulet, and one wandering
            // monster at the center of each of the other nineteen rooms
            s.ecs.entities@.len() == crate::map_builder::NUM_ROOMS + 1,
            s.ecs.player == Some(0usize),
            s.ecs.amulet == Some(1usize),
            crate::spawners::spawned_player_ok(s.ecs.entities@[0], s.spec_player_position()),
            crate::spawners::spawned_amulet_ok(s.ecs.entities@[1], s.spec_amulet_position()),
            forall|i: int|
                2 <= i < s.ecs.entities@.len() ==> exists|p: Point|
                    crate::spawners::spawned_monster_ok(#[trigger] s.ecs.entities@[i], p)
                        && s.map.spec_can_enter(p),
    {
        let map_builder = MapBuilder::new(rng);
        let mut ecs = EntityStore::new();
        spawn_player(&mut ecs, map_builder.player_start);
        spawn_amulet_of_yala(&mut ecs, map_builder.amulet_start);
        let ghost rooms = map_builder.rooms@;
        let mut i: usize = 1;
        while i < map_builder.rooms.len()
            invariant
                ecs.wf(),
                map_builder.map.wf(),
                map_builder.rooms@ == rooms,
                crate::map_builder::all_rooms_ok(rooms),
                crate::map_builder::room_tiles_floor(map_builder.map, rooms),
                1 <= i,
                i <= rooms.len(),
                ecs.entities@.len() == i + 1,
                ecs.player is Some,
                ecs.amulet is Some,
                ecs.entities@[ecs.player->Some_0 as int].fov is Some,
                ecs.entities@[ecs.player->Some_0 as int].health == Some(
                    Health { current: 20, max: 20 },
                ),
                ecs.entities@[ecs.player->Some_0 as int].position == Some(
                    map_builder.player_start,
                ),
                ecs.entities@[ecs.amulet->Some_0 as int].health is None,
                ecs.entities@[ecs.amulet->Some_0 as int].position == Some(
                    map_builder.amulet_start,
                ),
                ecs.entities@.len() >= 2,
                ecs.player == Some(0usize),
                ecs.amulet == Some(1usize),
                crate::spawners::spawned_player_ok(
                    ecs.entities@[0],
                    map_builder.player_start,
                ),
                crate::spawners::spawned_amulet_ok(
                    ecs.entities@[1],
                    map_builder.amulet_start,
                ),
                forall|j: int|
                    2 <= j < ecs.entities@.len() ==> exists|p: Point|
                        crate::spawners::spawned_monster_ok(#[trigger] ecs.entities@[j], p)
                            && map_builder.map.spec_can_enter(p),
                map_builder.map.spec_can_enter(map_builder.player_start),
                map_builder.map.spec_can_enter(map_builder.amulet_start),
                forall|j: int|
                    0 <= j < ecs.entities@.len() && (#[trigger] ecs.entities@[j]).alive
                        && ecs.entities@[j].position is Some ==> map_builder.map.spec_can_enter(
                        ecs.entities@[j].position->Some_0,
                    ),
            decreases map_builder.rooms@.len() - i,
        {
            let room = map_builder.rooms[i];
            let position = room.center();
            proof {
                crate::map_builder::lemma_center_in_room(room);
                assert(rooms[i as int].spec_contains(position));
                assert(map_builder.map.spec_can_enter(position));
            }
            spawn_monster(&mut ecs, rng, position);
            proof {
                assert(crate::spawners::spawned_monster_ok(
                    ecs.entities@[ecs.entities@.len() - 1],
                    position,
                ));
            }
            i = i + 1;
        }
        let camera = Camera::new(map_builder.player_start);
        let s = Simulation {
            ecs,
            map: map_builder.map,
            camera,
            turn_state: TurnState::AwaitingInput,
            buffer: CommandBuffer::new(),
        };
        proof {
            assert(s.spec_player_position() == map_builder.player_start);
            assert(s.spec_amulet_position() == map_builder.amulet_start);
        }
        s
    }

    /// Throw the whole state away and start over from the random stream:
    /// the restart action offered on the game-over and victory screens.
    pub fn reset_game_state(&mut self, rng: &mut bracket_lib::random::RandomNumberGenerator)
        ensures
            final(self).wf(),
            final(self).turn_state == TurnState::AwaitingInput,
            final(self).ecs.entities@[final(self).ecs.player->Some_0 as int].health == Some(
                Health { current: 20, max: 20 },
            ),
            reachable(
                final(self).map,
                final(self).spec_player_position(),
                final(self).spec_amulet_position(),
            ),
            final(self).camera.spec_centered_on(final(self).spec_player_position()),
            final(self).buffer.moves@.len() == 0,
            final(self).buffer.attacks@.len() == 0,
            crate::spawners::spawned_player_ok(
                final(self).ecs.entities@[final(self).ecs.player->Some_0 as int],
                final(self).spec_player_position(),
            ),
            crate::spawners::spawned_amulet_ok(
                final(self).ecs.entities@[final(self).ecs.amulet->Some_0 as int],
                final(self).spec_amulet_position(),
            ),
            forall|i: int|
                2 <= i < final(self).ecs.entities@.len() ==> exists|p: Point|
                    crate::spawners::spawned_monster_ok(
                        #[trigger] final(self).ecs.entities@[i],
                        p,
                    ) && final(self).map.spec_can_enter(p),
    {
        *self = Simulation::new(rng);
    }

    /// Run one tick: feed the current turn state's pipeline and hand back
    /// the draw commands of the render stage. The systems run in exactly
    /// the stage order that `build_input_scheduler`,
    /// `build_player_scheduler` and `build_monster_scheduler` declare for
    /// the respective state. Terminal states run nothing; the host offers
    /// the restart action instead.
    pub fn tick(
        &mut self,
        key: Option<InputKey>,
        mouse_pos: Point,
        rng: &mut bracket_lib::random::RandomNumberGenerator,
    ) -> (draws: Vec<DrawCommand>)
        requires
            old(self).wf(),
            -10000 <= mouse_pos.x <= 10000,
            -10000 <= mouse_pos.y <= 10000,
        ensures
            final(self).wf(),
            final(self).map == old(self).map,
            final(self).ecs.player == old(self).ecs.player,
            final(self).ecs.amulet == old(self).ecs.amulet,
            final(self).ecs.entities@.len() == old(self).ecs.entities@.len(),
            (old(self).turn_state == TurnState::AwaitingInput ==> {
                &&& (key is None ==> final(self).turn_state == TurnState::AwaitingInput)
                &&& (key is Some ==> final(self).turn_state == TurnState::PlayerTurn)
            }),
            // laziness: a clean field-of-view cache survives the input phase
            (old(self).turn_state == TurnState::AwaitingInput ==> forall|i: int|
                0 <= i < old(self).ecs.entities@.len()
                    && (#[trigger] old(self).ecs.entities@[i]).fov is Some && !old(
                    self,
                ).ecs.entities@[i].fov->Some_0.is_dirty ==> final(self).ecs.entities@[i].fov == old(
                    self,
                ).ecs.entities@[i].fov),
            (old(self).turn_state == TurnState::PlayerTurn ==> (final(self).turn_state
                == TurnState::MonsterTurn || final(self).turn_state == TurnState::GameOver
                || final(self).turn_state == TurnState::Victory)),
            (old(self).turn_state == TurnState::MonsterTurn ==> (final(self).turn_state
                == TurnState::AwaitingInput || final(self).turn_state == TurnState::GameOver
                || final(self).turn_state == TurnState::Victory)),
            // the resolution phases drain both intent queues at their flushes
            ((old(self).turn_state == TurnState::PlayerTurn || old(self).turn_state
                == TurnState::MonsterTurn) ==> final(self).buffer.moves@.len() == 0 && final(self).buffer.attacks@.len() == 0),
            // the turn decision is exactly the end-of-turn rule, read off
            // the state the resolution phases left behind
            ((old(self).turn_state == TurnState::PlayerTurn || old(self).turn_state
                == TurnState::MonsterTurn) ==> final(self).turn_state
                == crate::systems::end_turn::spec_end_turn(
                old(self).turn_state,
                final(self).ecs.entities@[final(self).ecs.player->Some_0 as int].health->Some_0.current as int,
                final(self).ecs.entities@[final(self).ecs.player->Some_0 as int].position->Some_0,
                final(self).ecs.entities@[final(self).ecs.amulet->Some_0 as int].position->Some_0,
            )),
            // a player turn applies the player's uniquely queued move
            (old(self).turn_state == TurnState::PlayerTurn ==> forall|k: int|
                #[trigger] crate::store::unique_move_at(
                    old(self).buffer.moves@,
                    old(self).ecs.player->Some_0 as int,
                    k,
                ) ==> {
                    let dest = old(self).buffer.moves@[k].destination;
                    if old(self).map.spec_can_enter(dest) {
                        final(self).ecs.entities@[final(self).ecs.player->Some_0 as int].position
                            == Some(dest) && final(self).camera.spec_centered_on(dest)
                    } else {
                        final(self).ecs.entities@[final(self).ecs.player->Some_0 as int].position
                            == old(self).ecs.entities@[old(self).ecs.player->Some_0 as int].position
                            && final(self).camera == old(self).camera
                    }
                }),
            // and lands every queued attack on its victim's hit points
            (old(self).turn_state == TurnState::PlayerTurn ==> forall|v: int|
                0 <= v < old(self).ecs.entities@.len() && (#[trigger] old(self).ecs.entities@[v]).alive
                    && old(self).ecs.entities@[v].health is Some && crate::store::attacks_on(
                    old(self).buffer.attacks@,
                    v,
                ) > 0 ==> final(self).ecs.entities@[v].health == Some(
                    Health {
                        current: (crate::systems::combat::hit_points_after(
                            old(self).ecs.entities@[v].health->Some_0.current as int,
                            crate::store::attacks_on(old(self).buffer.attacks@, v),
                        )) as i32,
                        max: old(self).ecs.entities@[v].health->Some_0.max,
                    },
                )),
            // every phase ends with the player's sight cache fresh
            ((old(self).turn_state == TurnState::AwaitingInput || old(self).turn_state
                == TurnState::PlayerTurn || old(self).turn_state == TurnState::MonsterTurn)
                ==> !final(self).ecs.entities@[final(self).ecs.player->Some_0 as int].fov->Some_0.is_dirty),
            ((old(self).turn_state == TurnState::GameOver || old(self).turn_state
                == TurnState::Victory) ==> *final(self) == *old(self) && draws@.len() == 0),
            ((old(self).turn_state == TurnState::AwaitingInput || old(self).turn_state
                == TurnState::PlayerTurn || old(self).turn_state == TurnState::MonsterTurn)
                ==> render_output_ok(*final(self), mouse_pos, draws@)),
    {
        let is_terminal = match self.turn_state {
            TurnState::GameOver => true,
            TurnState::Victory => true,
            _ => false,
        };
        if is_terminal {
            return Vec::new();
        }
        let run_input = match self.turn_state {
            TurnState::AwaitingInput => true,
            _ => false,
        };
        let run_player = match self.turn_state {
            TurnState::PlayerTurn => true,
            _ => false,
        };
        if run_input {
            let ghost ecs_a = self.ecs;
            player_input(&mut self.ecs, &mut self.buffer, key, &mut self.turn_state);
            proof {
                lemma_positions_preserved(ecs_a, self.ecs, self.map);
            }
            let ghost ecs_b = self.ecs;
            fov(&mut self.ecs, &self.map);
            proof {
                lemma_positions_preserved(ecs_b, self.ecs, self.map);
                assert forall|i: int|
                    0 <= i < ecs_a.entities@.len() && (#[trigger] ecs_a.entities@[i]).fov is Some
                        && !ecs_a.entities@[i].fov->Some_0.is_dirty implies self.ecs.entities@[i].fov
                    == ecs_a.entities@[i].fov by {
                    assert(ecs_b.entities@[i].fov == ecs_a.entities@[i].fov);
                    assert(!crate::systems::fov::needs_fov_update(ecs_b.entities@[i]));
                }
                let p = old(self).ecs.player->Some_0 as int;
                assert(!self.ecs.entities@[p].fov->Some_0.is_dirty) by {
                    assert(ecs_b.entities@[p].alive && ecs_b.entities@[p].position is Some
                        && ecs_b.entities@[p].fov is Some);
                    if !crate::systems::fov::needs_fov_update(ecs_b.entities@[p]) {
                        assert(self.ecs.entities@[p] == ecs_b.entities@[p]);
                    }
                }
            }
        } else {
            if !run_player {
                random_move(&self.ecs, &mut self.buffer, rng);
                chasing(&self.ecs, &mut self.buffer, &self.map);
            }
            let ghost ecs_a = self.ecs;
            combat(&mut self.ecs, &mut self.buffer);
            proof {
                lemma_positions_preserved(ecs_a, self.ecs, self.map);
            }
            let ghost ecs_b = self.ecs;
            movement(&mut self.ecs, &mut self.buffer, &self.map, &mut self.camera);
            proof {
                lemma_positions_preserved(ecs_b, self.ecs, self.map);
            }
            let ghost ecs_c = self.ecs;
            fov(&mut self.ecs, &self.map);
            proof {
                lemma_positions_preserved(ecs_c, self.ecs, self.map);
                let p = old(self).ecs.player->Some_0 as int;
                assert(!self.ecs.entities@[p].fov->Some_0.is_dirty) by {
                    assert(ecs_c.entities@[p].alive && ecs_c.entities@[p].position is Some
                        && ecs_c.entities@[p].fov is Some);
                    if !crate::systems::fov::needs_fov_update(ecs_c.entities@[p]) {
                        assert(self.ecs.entities@[p] == ecs_c.entities@[p]);
                    }
                }
                if old(self).turn_state == TurnState::PlayerTurn {
                    // combat fixed every victim's arithmetic; movement and
                    // the sight stage never touch health
                    assert forall|v: int|
                        0 <= v < old(self).ecs.entities@.len() && (#[trigger] old(self).ecs.entities@[v]).alive
                            && old(self).ecs.entities@[v].health is Some
                            && crate::store::attacks_on(old(self).buffer.attacks@, v)
                            > 0 implies self.ecs.entities@[v].health == Some(
                        Health {
                            current: (crate::systems::combat::hit_points_after(
                                old(self).ecs.entities@[v].health->Some_0.current as int,
                                crate::store::attacks_on(old(self).buffer.attacks@, v),
                            )) as i32,
                            max: old(self).ecs.entities@[v].health->Some_0.max,
                        },
                    ) by {
                        assert(ecs_a.entities@[v] == old(self).ecs.entities@[v]);
                        assert(ecs_b.entities@[v].health == Some(
                            Health {
                                current: (crate::systems::combat::hit_points_after(
                                    old(self).ecs.entities@[v].health->Some_0.current as int,
                                    crate::store::attacks_on(old(self).buffer.attacks@, v),
                                )) as i32,
                                max: old(self).ecs.entities@[v].health->Some_0.max,
                            },
                        ));
                        assert(ecs_c.entities@[v].health == ecs_b.entities@[v].health);
                        if !crate::systems::fov::needs_fov_update(ecs_c.entities@[v]) {
                            assert(self.ecs.entities@[v] == ecs_c.entities@[v]);
                        }
                    }
                    // the player's uniquely queued move landed, or failed
                    // on an unenterable tile and changed nothing
                    assert forall|k: int|
                        #[trigger] crate::store::unique_move_at(
                            old(self).buffer.moves@,
                            p,
                            k,
                        ) implies ({
                        let dest = old(self).buffer.moves@[k].destination;
                        if old(self).map.spec_can_enter(dest) {
                            self.ecs.entities@[self.ecs.player->Some_0 as int].position == Some(
                                dest,
                            ) && self.camera.spec_centered_on(dest)
                        } else {
                            self.ecs.entities@[self.ecs.player->Some_0 as int].position == old(
                                self,
                            ).ecs.entities@[old(self).ecs.player->Some_0 as int].position
                                && self.camera == old(self).camera
                        }
                    }) by {
                        let w = old(self).buffer.moves@[k];
                        assert(ecs_a.entities@[p] == old(self).ecs.entities@[p]);
                        assert(ecs_b.entities@[p].alive && ecs_b.entities@[p].is_player);
                        assert(ecs_b.entities@[p].position == old(self).ecs.entities@[p].position);
                        if old(self).map.spec_can_enter(w.destination) {
                            assert(crate::systems::movement::move_applies(
                                ecs_b.entities@,
                                old(self).map,
                                w,
                            ));
                            assert(ecs_c.entities@[p].position == Some(w.destination));
                        } else {
                            assert(ecs_c.entities@[p] == ecs_b.entities@[p]);
                        }
                        assert(self.ecs.entities@[p].position == ecs_c.entities@[p].position) by {
                            assert(ecs_c.entities@[p].alive);
                            if !crate::systems::fov::needs_fov_update(ecs_c.entities@[p]) {
                                assert(self.ecs.entities@[p] == ecs_c.entities@[p]);
                            }
                        }
                    }
                }
            }
        }
        let mut draws = map_render(&self.ecs, &self.map, &self.camera);
        let entity_cmds = entity_render(&self.ecs, &self.camera);
        let tooltip_cmds = tooltips(&self.ecs, mouse_pos, &self.camera);
        let ghost a = draws@;
        let ghost b = entity_cmds@;
        let ghost c = tooltip_cmds@;
        append_commands(&mut draws, entity_cmds);
        append_commands(&mut draws, tooltip_cmds);
        if !run_input {
            end_turn(&self.ecs, &mut self.turn_state);
        }
        proof {
            assert(draws@ == a + b + c);
            assert(map_render_ok(self.ecs, self.map, self.camera, a));
            assert(entity_render_ok(self.ecs, self.camera, b));
            assert(tooltips_ok(self.ecs, self.camera, mouse_pos, c));
            assert(render_output_ok(*self, mouse_pos, draws@));
        }
        draws
    }
}

/// The draw commands of one tick: the terrain pass, then the entity pass,
/// then the tooltip pass, each correct for the state the tick ended in.
pub open spec fn render_output_ok(s: Simulation, mouse_pos: Point, draws: Seq<DrawCommand>) -> bool {
    exists|a: Seq<DrawCommand>, b: Seq<DrawCommand>, c: Seq<DrawCommand>|
        {
            &&& #[trigger] map_render_ok(s.ecs, s.map, s.camera, a)
            &&& #[trigger] entity_render_ok(s.ecs, s.camera, b)
            &&& #[trigger] tooltips_ok(s.ecs, s.camera, mouse_pos, c)
            &&& draws == a + b + c
        }
}

/// Every live entity of `b` that stands somewhere either kept its cell from
/// `a` or stands on a walkable tile; so if `a` kept every live entity on
/// walkable tiles, `b` does too.
proof fn lemma_positions_preserved(a: EntityStore, b: EntityStore, m: GridMap)
    requires
        a.entities@.len() == b.entities@.len(),
        forall|i: int|
            0 <= i < a.entities@.len() && (#[trigger] a.entities@[i]).alive && a.entities@[i].position
                is Some ==> m.spec_can_enter(a.entities@[i].position->Some_0),
        forall|i: int|
            0 <= i < b.entities@.len() ==> ((#[trigger] b.entities@[i]) == a.entities@[i] || (
            b.entities@[i].alive == a.entities@[i].alive && (b.entities@[i].position
                == a.entities@[i].position || (b.entities@[i].position is Some
                && m.spec_can_enter(b.entities@[i].position->Some_0)))) || !b.entities@[i].alive),
    ensures
        forall|i: int|
            0 <= i < b.entities@.len() && (#[trigger] b.entities@[i]).alive && b.entities@[i].position
                is Some ==> m.spec_can_enter(b.entities@[i].position->Some_0),
{
}

/// Move every command of `src`, in order, to the end of `dst`.
fn append_commands(dst: &mut Vec<DrawCommand>, src: Vec<DrawCommand>)
    ensures
        final(dst)@ == old(dst)@ + src@,
{
    let mut src = src;
    let ghost src0 = src@;
    let ghost dst0 = old(dst)@;
    while src.len() > 0
        invariant
            dst@ + src@ == dst0 + src0,
        decreases src@.len(),
    {
        let c = src.remove(0);
        dst.push(c);
        proof {
            assert(dst@ + src@ =~= dst0 + src0);
        }
    }
    proof {
        assert(dst@ =~= dst@ + src@);
    }
}

} // verus!
