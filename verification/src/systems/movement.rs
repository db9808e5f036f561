use vstd::prelude::*;

use crate::camera::Camera;
use crate::components::{FieldOfView, WantsToMove};
use crate::map::GridMap;
use crate::point::Point;
use crate::store::{no_move_for, unique_move_at, CommandBuffer, EntityData, EntityStore};

verus! {

/// The queued move applies: the entity exists, is alive, and the
/// destination can be entered.
pub open spec fn move_applies(ents: Seq<EntityData>, m: GridMap, w: WantsToMove) -> bool {
    w.entity < ents.len() && ents[w.entity as int].alive && m.spec_can_enter(w.destination)
}

/// The field of view, if there is one, is marked stale with an emptied
/// cache and an unchanged radius.
pub open spec fn fov_dirtied(a: Option<FieldOfView>, b: Option<FieldOfView>) -> bool {
    match (a, b) {
        (Option::None, Option::None) => true,
        (Option::Some(fa), Option::Some(fb)) => fb.radius == fa.radius && fb.is_dirty
            && fb.visible_tiles@.len() == 0,
        _ => false,
    }
}

/// `b` is `a` moved to `dest`: the position updated, the field of view
/// marked stale, and everything else unchanged.
pub open spec fn moved_to(a: EntityData, b: EntityData, dest: Point) -> bool {
    &&& b.alive == a.alive
    &&& b.position == Some(dest)
    &&& b.render == a.render
    &&& b.health == a.health
    &&& b.name == a.name
    &&& fov_dirtied(a.fov, b.fov)
    &&& b.is_player == a.is_player
    &&& b.is_enemy == a.is_enemy
    &&& b.is_amulet == a.is_amulet
    &&& b.moving_randomly == a.moving_randomly
    &&& b.chasing_player == a.chasing_player
}

/// Resolve every queued move in order and consume the whole queue. A move
/// into a cell that cannot be entered, or for a destroyed entity, changes
/// nothing but is still consumed. A move that applies updates the mover's
/// position, marks its field of view stale, and, when the mover is the
/// player, re-centers the camera on the destination.
pub fn movement(
    ecs: &mut EntityStore,
    buffer: &mut CommandBuffer,
    map: &GridMap,
    camera: &mut Camera,
)
    requires
        old(ecs).wf(),
        map.wf(),
        old(camera).wf(),
    ensures
        final(ecs).wf(),
        final(camera).wf(),
        final(buffer).moves@.len() == 0,
        final(buffer).attacks == old(buffer).attacks,
        final(ecs).entities@.len() == old(ecs).entities@.len(),
        final(ecs).player == old(ecs).player,
        final(ecs).amulet == old(ecs).amulet,
        forall|e: int|
            0 <= e < old(ecs).entities@.len() ==> {
                let a = #[trigger] old(ecs).entities@[e];
                let b = final(ecs).entities@[e];
                &&& b.alive == a.alive
                &&& b.health == a.health
                &&& b.render == a.render
                &&& b.name == a.name
                &&& b.is_player == a.is_player
                &&& b.is_enemy == a.is_enemy
                &&& b.is_amulet == a.is_amulet
                &&& b.moving_randomly == a.moving_randomly
                &&& b.chasing_player == a.chasing_player
                &&& (b.fov is Some) == (a.fov is Some)
                &&& (b.fov is Some ==> b.fov->Some_0.radius == a.fov->Some_0.radius)
                &&& (b.position == a.position || (b.position is Some && map.spec_can_enter(
                    b.position->Some_0,
                )))
            },
        forall|e: int|
            0 <= e < old(ecs).entities@.len() && no_move_for(old(buffer).moves@, e)
                ==> final(ecs).entities@[e] == old(ecs).entities@[e],
        forall|e: int, k: int|
            0 <= e < old(ecs).entities@.len() && unique_move_at(old(buffer).moves@, e, k) ==> {
                if move_applies(old(ecs).entities@, *map, old(buffer).moves@[k]) {
                    moved_to(
                        old(ecs).entities@[e],
                        final(ecs).entities@[e],
                        old(buffer).moves@[k].destination,
                    )
                } else {
                    final(ecs).entities@[e] == old(ecs).entities@[e]
                }
            },
        (match old(ecs).player {
            Some(p) => {
                &&& (no_move_for(old(buffer).moves@, p as int) ==> *final(camera) == *old(camera))
                &&& (forall|k: int|
                    unique_move_at(old(buffer).moves@, p as int, k) ==> (if move_applies(
                        old(ecs).entities@,
                        *map,
                        old(buffer).moves@[k],
                    ) {
                        final(camera).spec_centered_on(old(buffer).moves@[k].destination)
                    } else {
                        *final(camera) == *old(camera)
                    }))
            },
            None => *final(camera) == *old(camera),
        }),
{
    let ghost q = old(buffer).moves@;
    let mut i: usize = 0;
    while i < buffer.moves.len()
        invariant
            ecs.wf(),
            map.wf(),
            camera.wf(),
            buffer.moves@ == q,
            buffer.attacks == old(buffer).attacks,
            i <= q.len(),
            ecs.entities@.len() == old(ecs).entities@.len(),
            ecs.player == old(ecs).player,
            ecs.amulet == old(ecs).amulet,
            forall|e: int|
                0 <= e < old(ecs).entities@.len() ==> {
                    let a = #[trigger] old(ecs).entities@[e];
                    let b = ecs.entities@[e];
                    &&& b.alive == a.alive
                    &&& b.health == a.health
                    &&& b.render == a.render
                    &&& b.name == a.name
                    &&& b.is_player == a.is_player
                    &&& b.is_enemy == a.is_enemy
                    &&& b.is_amulet == a.is_amulet
                    &&& b.moving_randomly == a.moving_randomly
                    &&& b.chasing_player == a.chasing_player
                    &&& (b.fov is Some) == (a.fov is Some)
                    &&& (b.fov is Some ==> b.fov->Some_0.radius == a.fov->Some_0.radius)
                    &&& (b.position == a.position || (b.position is Some && map.spec_can_enter(
                        b.position->Some_0,
                    )))
                },
            forall|e: int|
                0 <= e < old(ecs).entities@.len() && no_move_for(q, e) ==> ecs.entities@[e] == old(
                    ecs,
                ).entities@[e],
            forall|e: int, k: int|
                0 <= e < old(ecs).entities@.len() && unique_move_at(q, e, k) && k >= i
                    ==> ecs.entities@[e] == old(ecs).entities@[e],
            forall|e: int, k: int|
                0 <= e < old(ecs).entities@.len() && unique_move_at(q, e, k) && k < i ==> {
                    if move_applies(old(ecs).entities@, *map, q[k]) {
                        moved_to(old(ecs).entities@[e], ecs.entities@[e], q[k].destination)
                    } else {
                        ecs.entities@[e] == old(ecs).entities@[e]
                    }
                },
            (match old(ecs).player {
                Some(p) => {
                    &&& (no_move_for(q, p as int) ==> *camera == *old(camera))
                    &&& (forall|k: int|
                        unique_move_at(q, p as int, k) && k >= i ==> *camera == *old(camera))
                    &&& (forall|k: int|
                        unique_move_at(q, p as int, k) && k < i ==> (if move_applies(
                            old(ecs).entities@,
                            *map,
                            q[k],
                        ) {
                            camera.spec_centered_on(q[k].destination)
                        } else {
                            *camera == *old(camera)
                        }))
                },
                None => *camera == *old(camera),
            }),
        decreases q.len() - i,
    {
        let w = buffer.moves[i];
        if w.entity < ecs.entities.len() {
            let mut applies = false;
            let mut is_player = false;
            let mut radius: i32 = 0;
            let mut has_fov = false;
            {
                let ent = &ecs.entities[w.entity];
                if ent.alive && map.can_enter_tile(w.destination) {
                    applies = true;
                    is_player = ent.is_player;
                    if let Some(f) = &ent.fov {
                        has_fov = true;
                        radius = f.radius;
                    }
                }
            }
            if applies {
                ecs.entities[w.entity].position = Some(w.destination);
                if has_fov {
                    ecs.entities[w.entity].fov = Some(
                        FieldOfView { visible_tiles: Vec::new(), radius, is_dirty: true },
                    );
                }
                if is_player {
                    camera.on_player_move(w.destination);
                }
            }
        }
        i = i + 1;
    }
    buffer.moves = Vec::new();
}

} // verus!
