use vstd::prelude::*;

use crate::components::FieldOfView;
use crate::map::GridMap;
use crate::point::Point;
use crate::store::{EntityData, EntityStore};
use crate::visibility::{field_of_view_set, spec_visible};

verus! {

/// Whether the entity's cached field of view is stale and must be
/// recomputed: it is alive, stands somewhere, and its cache is dirty.
pub open spec fn needs_fov_update(e: EntityData) -> bool {
    e.alive && e.position is Some && e.fov is Some && e.fov->Some_0.is_dirty
}

/// All fields except the field of view agree.
pub open spec fn same_except_fov(a: EntityData, b: EntityData) -> bool {
    &&& b.alive == a.alive
    &&& b.position == a.position
    &&& b.render == a.render
    &&& b.health == a.health
    &&& b.name == a.name
    &&& b.is_player == a.is_player
    &&& b.is_enemy == a.is_enemy
    &&& b.is_amulet == a.is_amulet
    &&& b.moving_randomly == a.moving_randomly
    &&& b.chasing_player == a.chasing_player
}

/// A freshly recomputed field of view for a viewer standing at `pos`: the
/// cache holds exactly the visible cells and is no longer dirty.
pub open spec fn fov_fresh(m: GridMap, pos: Point, radius: i32, f: FieldOfView) -> bool {
    &&& f.radius == radius
    &&& !f.is_dirty
    &&& forall|p: Point|
        #[trigger] f.visible_tiles@.contains(p) <==> spec_visible(m, pos, radius as int, p)
}

/// Recompute the field of view of every viewer whose cache is stale, and
/// clear its dirty flag; every other entity is left exactly as it was.
/// Laziness is part of the contract: a clean cache is never touched.
pub fn fov(ecs: &mut EntityStore, map: &GridMap)
    requires
        old(ecs).wf(),
        map.wf(),
    ensures
        final(ecs).wf(),
        final(ecs).entities@.len() == old(ecs).entities@.len(),
        final(ecs).player == old(ecs).player,
        final(ecs).amulet == old(ecs).amulet,
        forall|i: int|
            0 <= i < old(ecs).entities@.len() && !needs_fov_update(#[trigger] old(ecs).entities@[i])
                ==> final(ecs).entities@[i] == old(ecs).entities@[i],
        forall|i: int|
            0 <= i < old(ecs).entities@.len() && needs_fov_update(#[trigger] old(ecs).entities@[i])
                ==> {
                &&& same_except_fov(old(ecs).entities@[i], final(ecs).entities@[i])
                &&& final(ecs).entities@[i].fov is Some
                &&& fov_fresh(
                    *map,
                    old(ecs).entities@[i].position->Some_0,
                    old(ecs).entities@[i].fov->Some_0.radius,
                    final(ecs).entities@[i].fov->Some_0,
                )
            },
{
    let mut e: usize = 0;
    while e < ecs.entities.len()
        invariant
            ecs.wf(),
            map.wf(),
            e <= ecs.entities@.len(),
            ecs.entities@.len() == old(ecs).entities@.len(),
            ecs.player == old(ecs).player,
            ecs.amulet == old(ecs).amulet,
            forall|i: int|
                e <= i < old(ecs).entities@.len() ==> ecs.entities@[i] == old(ecs).entities@[i],
            forall|i: int|
                0 <= i < e && !needs_fov_update(#[trigger] old(ecs).entities@[i])
                    ==> ecs.entities@[i] == old(ecs).entities@[i],
            forall|i: int|
                0 <= i < e && needs_fov_update(#[trigger] old(ecs).entities@[i]) ==> {
                    &&& same_except_fov(old(ecs).entities@[i], ecs.entities@[i])
                    &&& ecs.entities@[i].fov is Some
                    &&& fov_fresh(
                        *map,
                        old(ecs).entities@[i].position->Some_0,
                        old(ecs).entities@[i].fov->Some_0.radius,
                        ecs.entities@[i].fov->Some_0,
                    )
                },
        decreases ecs.entities@.len() - e,
    {
        let mut needs = false;
        let mut pos = Point::new(0, 0);
        let mut radius: i32 = 0;
        {
            let ent = &ecs.entities[e];
            if ent.alive {
                if let Some(p) = ent.position {
                    if let Some(f) = &ent.fov {
                        if f.is_dirty {
                            needs = true;
                            pos = p;
                            radius = f.radius;
                        }
                    }
                }
            }
        }
        if needs {
            let tiles = field_of_view_set(pos, radius, map);
            ecs.entities[e].fov = Some(
                FieldOfView { visible_tiles: tiles, radius, is_dirty: false },
            );
        }
        e = e + 1;
    }
}

} // verus!
