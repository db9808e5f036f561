use vstd::prelude::*;

use crate::camera::Camera;
use crate::draw::DrawCommand;
use crate::point::Point;
use crate::store::{EntityData, EntityStore};
use crate::visibility::contains_point;

verus! {

/// The entity is drawn: it is alive, stands somewhere, has a glyph, and its
/// cell is in the player's cached field of view.
pub open spec fn entity_drawn(ecs: EntityStore, i: int) -> bool {
    let e = ecs.entities@[i];
    &&& 0 <= i < ecs.entities@.len()
    &&& e.alive
    &&& e.position is Some
    &&& e.render is Some
    &&& ecs.entities@[ecs.player->Some_0 as int].fov->Some_0.visible_tiles@.contains(
        e.position->Some_0,
    )
}

/// The entity-layer draw command for entity `i`.
pub open spec fn spec_entity_cmd(ecs: EntityStore, camera: Camera, i: int) -> DrawCommand {
    let e = ecs.entities@[i];
    DrawCommand::SetGlyph {
        layer: 1,
        z: 5000,
        pos: Point {
            x: (e.position->Some_0.x - camera.left_x) as i32,
            y: (e.position->Some_0.y - camera.top_y) as i32,
        },
        color: e.render->Some_0.color,
        glyph: e.render->Some_0.glyph,
    }
}

/// Every command is some drawn entity's glyph command.
pub open spec fn entity_cmds_sound(ecs: EntityStore, camera: Camera, cmds: Seq<DrawCommand>) -> bool {
    forall|k: int|
        0 <= k < cmds.len() ==> exists|i: int|
            entity_drawn(ecs, i) && #[trigger] cmds[k] == spec_entity_cmd(ecs, camera, i)
}

/// What the entity pass emits: one glyph command per drawn entity, in
/// entity order, and nothing else.
pub open spec fn entity_render_ok(ecs: EntityStore, camera: Camera, cmds: Seq<DrawCommand>) -> bool {
    &&& entity_cmds_sound(ecs, camera, cmds)
    &&& (forall|i: int|
        entity_drawn(ecs, i) ==> cmds.contains(#[trigger] spec_entity_cmd(ecs, camera, i)))
}

/// Draw every live entity the player can see, at its viewport cell with its
/// own glyph and colors, on the entity layer.
pub fn entity_render(ecs: &EntityStore, camera: &Camera) -> (r: Vec<DrawCommand>)
    requires
        ecs.wf(),
        camera.wf(),
        ecs.player is Some,
        ecs.entities@[ecs.player->Some_0 as int].fov is Some,
    ensures
        entity_render_ok(*ecs, *camera, r@),
{
    let player_idx = match ecs.player {
        Some(p) => p,
        None => {
            return Vec::new();
        },
    };
    let mut r: Vec<DrawCommand> = Vec::new();
    let pent = &ecs.entities[player_idx];
    let pfov = match &pent.fov {
        Some(f) => &f.visible_tiles,
        None => {
            return Vec::new();
        },
    };
    let mut i: usize = 0;
    while i < ecs.entities.len()
        invariant
            ecs.wf(),
            camera.wf(),
            ecs.player == Some(player_idx),
            ecs.entities@[player_idx as int].fov is Some,
            pfov@ == ecs.entities@[player_idx as int].fov->Some_0.visible_tiles@,
            i <= ecs.entities@.len(),
            entity_cmds_sound(*ecs, *camera, r@),
            forall|j: int|
                0 <= j < i && entity_drawn(*ecs, j) ==> r@.contains(
                    spec_entity_cmd(*ecs, *camera, j),
                ),
        decreases ecs.entities@.len() - i,
    {
        let mut draw = false;
        let mut pos = Point::new(0, 0);
        let mut color = crate::components::ColorPair {
            fg: crate::components::black(),
            bg: crate::components::black(),
        };
        let mut glyph: u16 = 0;
        {
            let ent = &ecs.entities[i];
            if ent.alive {
                if let Some(p) = ent.position {
                    if let Some(rd) = ent.render {
                        if contains_point(pfov, p) {
                            draw = true;
                            pos = p;
                            color = rd.color;
                            glyph = rd.glyph;
                        }
                    }
                }
            }
        }
        let ghost r_pre = r@;
        if draw {
            r.push(
                DrawCommand::SetGlyph {
                    layer: 1,
                    z: 5000,
                    pos: Point::new(pos.x - camera.left_x, pos.y - camera.top_y),
                    color,
                    glyph,
                },
            );
            proof {
                assert(entity_drawn(*ecs, i as int));
                assert(r@[r@.len() - 1] == spec_entity_cmd(*ecs, *camera, i as int));
            }
        }
        proof {
            assert forall|j: int| 0 <= j < i + 1 && entity_drawn(*ecs, j) implies r@.contains(
                spec_entity_cmd(*ecs, *camera, j),
            ) by {
                if j < i {
                    let k = choose|k: int|
                        0 <= k < r_pre.len() && r_pre[k] == spec_entity_cmd(*ecs, *camera, j);
                    assert(r@[k] == spec_entity_cmd(*ecs, *camera, j));
                } else {
                    assert(r@[r@.len() - 1] == spec_entity_cmd(*ecs, *camera, j));
                }
            }
        }
        i = i + 1;
    }
    r
}

} // verus!
