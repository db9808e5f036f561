use vstd::prelude::*;

use crate::components::{key_delta, spec_key_delta, Health, InputKey, WantsToAttack, WantsToMove};
use crate::point::Point;
use crate::store::{CommandBuffer, EntityData, EntityStore};
use crate::turn_state::TurnState;

verus! {

/// Entity `i` is a live enemy standing at `p`.
pub open spec fn enemy_at(ents: Seq<EntityData>, i: int, p: Point) -> bool {
    &&& 0 <= i < ents.len()
    &&& ents[i].alive
    &&& ents[i].is_enemy
    &&& ents[i].position == Some(p)
}

/// The cell one key-delta away from the player's position.
pub open spec fn spec_key_destination(pos: Point, k: InputKey) -> Point {
    Point {
        x: (pos.x + spec_key_delta(k).0) as i32,
        y: (pos.y + spec_key_delta(k).1) as i32,
    }
}

/// The player's health after the idle-turn heal: one point back, capped at
/// the maximum.
pub open spec fn spec_healed(h: Health) -> Health {
    Health {
        current: if h.current + 1 <= h.max {
            (h.current + 1) as i32
        } else {
            h.max
        },
        max: h.max,
    }
}

/// Interpret the key held this tick. No key changes nothing. A directional
/// key queues an attack against every live enemy on the destination cell,
/// or a move there when no enemy holds it, and hands the turn to the player
/// phase. Any other key heals the player by one point, capped at full
/// health, and still hands the turn over.
pub fn player_input(
    ecs: &mut EntityStore,
    buffer: &mut CommandBuffer,
    key: Option<InputKey>,
    turn_state: &mut TurnState,
)
    requires
        old(ecs).wf(),
        old(ecs).player is Some,
    ensures
        final(ecs).wf(),
        final(ecs).entities@.len() == old(ecs).entities@.len(),
        final(ecs).player == old(ecs).player,
        final(ecs).amulet == old(ecs).amulet,
        (key is None ==> *final(ecs) == *old(ecs) && final(buffer).moves == old(buffer).moves
            && final(buffer).attacks == old(buffer).attacks && *final(turn_state) == *old(
            turn_state,
        )),
        (key is Some ==> *final(turn_state) == TurnState::PlayerTurn),
        (match key {
            Some(k) => {
                let p = old(ecs).player->Some_0 as int;
                let pos = old(ecs).entities@[p].position->Some_0;
                let dest = spec_key_destination(pos, k);
                if k != InputKey::Other {
                    let hit = exists|i: int| enemy_at(old(ecs).entities@, i, dest);
                    &&& *final(ecs) == *old(ecs)
                    &&& (if hit {
                        let n0 = old(buffer).attacks@.len() as int;
                        &&& final(buffer).moves == old(buffer).moves
                        &&& final(buffer).attacks@.len() >= n0
                        &&& final(buffer).attacks@.subrange(0, n0) == old(buffer).attacks@
                        &&& (forall|i: int|
                            enemy_at(old(ecs).entities@, i, dest) ==> exists|kk: int|
                                n0 <= kk < final(buffer).attacks@.len() && final(buffer).attacks@[kk] == (WantsToAttack {
                                    attacker: p as usize,
                                    victim: i as usize,
                                }))
                        &&& (forall|kk: int|
                            n0 <= kk < final(buffer).attacks@.len() ==> (#[trigger] final(buffer).attacks@[kk]).attacker == p as usize && enemy_at(
                                old(ecs).entities@,
                                final(buffer).attacks@[kk].victim as int,
                                dest,
                            ))
                        &&& (forall|k1: int, k2: int|
                            n0 <= k1 < k2 < final(buffer).attacks@.len() ==> (#[trigger] final(buffer).attacks@[k1]).victim != (#[trigger] final(buffer).attacks@[k2]).victim)
                    } else {
                        &&& final(buffer).attacks@ == old(buffer).attacks@
                        &&& final(buffer).moves@ == old(buffer).moves@.push(
                            WantsToMove { entity: p as usize, destination: dest },
                        )
                    })
                } else {
                    &&& final(buffer).moves == old(buffer).moves
                    &&& final(buffer).attacks == old(buffer).attacks
                    &&& (forall|i: int|
                        0 <= i < old(ecs).entities@.len() && i != p ==> final(ecs).entities@[i]
                            == old(ecs).entities@[i])
                    &&& crate::systems::combat::same_except_health_alive(
                        old(ecs).entities@[p],
                        final(ecs).entities@[p],
                    )
                    &&& final(ecs).entities@[p].alive == old(ecs).entities@[p].alive
                    &&& final(ecs).entities@[p].health == Some(
                        spec_healed(old(ecs).entities@[p].health->Some_0),
                    )
                }
            },
            None => true,
        }),
{
    let k = match key {
        Some(k) => k,
        None => {
            return ;
        },
    };
    let player_idx = match ecs.player {
        Some(p) => p,
        None => {
            return ;
        },
    };
    let pos = match ecs.entities[player_idx].position {
        Some(p) => p,
        None => {
            return ;
        },
    };
    let delta = key_delta(k);
    let is_dir = match k {
        InputKey::Other => false,
        _ => true,
    };
    if is_dir {
        let destination = Point::new(pos.x + delta.0, pos.y + delta.1);
        proof {
            assert(destination == spec_key_destination(pos, k));
        }
        let ghost n0 = buffer.attacks@.len() as int;
        let mut hit_something = false;
        let mut i: usize = 0;
        while i < ecs.entities.len()
            invariant
                ecs.wf(),
                i <= ecs.entities@.len(),
                buffer.moves == old(buffer).moves,
                n0 == old(buffer).attacks@.len(),
                buffer.attacks@.len() >= n0,
                buffer.attacks@.subrange(0, n0) == old(buffer).attacks@,
                hit_something == exists|j: int| 0 <= j < i && enemy_at(ecs.entities@, j, destination),
                forall|j: int|
                    0 <= j < i && enemy_at(ecs.entities@, j, destination) ==> exists|kk: int|
                        n0 <= kk < buffer.attacks@.len() && buffer.attacks@[kk]
                            == (WantsToAttack { attacker: player_idx, victim: j as usize }),
                forall|kk: int|
                    n0 <= kk < buffer.attacks@.len() ==> (#[trigger] buffer.attacks@[kk]).attacker
                        == player_idx && enemy_at(
                        ecs.entities@,
                        buffer.attacks@[kk].victim as int,
                        destination,
                    ) && buffer.attacks@[kk].victim < i,
                forall|k1: int, k2: int|
                    n0 <= k1 < k2 < buffer.attacks@.len() ==> (#[trigger] buffer.attacks@[k1]).victim
                        < (#[trigger] buffer.attacks@[k2]).victim,
            decreases ecs.entities@.len() - i,
        {
            let mut is_enemy_here = false;
            {
                let ent = &ecs.entities[i];
                if ent.alive && ent.is_enemy {
                    if let Some(p) = ent.position {
                        if p.x == destination.x && p.y == destination.y {
                            is_enemy_here = true;
                        }
                    }
                }
            }
            proof {
                if is_enemy_here {
                    assert(enemy_at(ecs.entities@, i as int, destination));
                } else {
                    assert(!enemy_at(ecs.entities@, i as int, destination));
                }
            }
            if is_enemy_here {
                hit_something = true;
                let ghost attacks_pre = buffer.attacks@;
                buffer.attacks.push(WantsToAttack { attacker: player_idx, victim: i });
                proof {
                    assert(buffer.attacks@.subrange(0, n0) =~= attacks_pre.subrange(0, n0));
                    assert forall|j: int|
                        0 <= j < i + 1 && enemy_at(ecs.entities@, j, destination) implies exists|
                        kk: int,
                    |
                        n0 <= kk < buffer.attacks@.len() && buffer.attacks@[kk] == (WantsToAttack {
                            attacker: player_idx,
                            victim: j as usize,
                        }) by {
                        if j == i as int {
                            assert(buffer.attacks@[buffer.attacks@.len() - 1] == (WantsToAttack {
                                attacker: player_idx,
                                victim: i,
                            }));
                        } else {
                            let kk = choose|kk: int|
                                n0 <= kk < attacks_pre.len() && attacks_pre[kk] == (WantsToAttack {
                                    attacker: player_idx,
                                    victim: j as usize,
                                });
                            assert(buffer.attacks@[kk] == attacks_pre[kk]);
                        }
                    }
                }
            }
            i = i + 1;
        }
        if !hit_something {
            buffer.moves.push(WantsToMove { entity: player_idx, destination });
        }
        proof {
            if exists|j: int| enemy_at(old(ecs).entities@, j, destination) {
                assert(buffer.attacks@.subrange(0, n0) == old(buffer).attacks@);
            } else {
                if buffer.attacks@.len() > n0 {
                    assert(enemy_at(
                        ecs.entities@,
                        buffer.attacks@[n0 as int].victim as int,
                        destination,
                    ));
                    assert(false);
                }
                assert(buffer.attacks@.len() == n0);
                assert(buffer.attacks@ =~= buffer.attacks@.subrange(0, n0));
                assert(buffer.attacks@ == old(buffer).attacks@);
            }
        }
        *turn_state = TurnState::PlayerTurn;
    } else {
        let mut cur: i32 = 0;
        let mut mx: i32 = 0;
        {
            let ent = &ecs.entities[player_idx];
            if let Some(h) = &ent.health {
                cur = h.current;
                mx = h.max;
            }
        }
        let healed = if cur < mx {
            cur + 1
        } else {
            mx
        };
        ecs.entities[player_idx].health = Some(Health { current: healed, max: mx });
        *turn_state = TurnState::PlayerTurn;
    }
}

} // verus!
