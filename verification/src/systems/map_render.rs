use vstd::prelude::*;

use crate::camera::Camera;
use crate::components::{black, white, Color, ColorPair};
use crate::draw::DrawCommand;
use crate::glyph::to_cp437;
use crate::map::{index_to_point, spec_in_bounds, spec_point_of, GridMap, TileType};
use crate::point::Point;
use crate::store::EntityStore;
use crate::visibility::contains_point;
use crate::NUM_TILES;

verus! {

/// The glyph a map cell is drawn with: a period for floor, a hash for wall.
pub open spec fn spec_map_glyph(m: GridMap, p: Point) -> u16 {
    if m.spec_tile_at(p) == TileType::Floor {
        '.' as u16
    } else {
        '#' as u16
    }
}

/// The cell is drawn: it lies in the viewport, on the map, and in the
/// player's cached field of view.
pub open spec fn map_cell_drawn(ecs: EntityStore, camera: Camera, p: Point) -> bool {
    &&& camera.left_x <= p.x < camera.right_x
    &&& camera.top_y <= p.y < camera.bottom_y
    &&& spec_in_bounds(p)
    &&& ecs.entities@[ecs.player->Some_0 as int].fov->Some_0.visible_tiles@.contains(p)
}

/// The terrain draw command for the map cell `p`.
pub open spec fn spec_map_cell_cmd(m: GridMap, camera: Camera, p: Point) -> DrawCommand {
    DrawCommand::SetGlyph {
        layer: 0,
        z: 0,
        pos: Point { x: (p.x - camera.left_x) as i32, y: (p.y - camera.top_y) as i32 },
        color: ColorPair {
            fg: Color { r: 255, g: 255, b: 255 },
            bg: Color { r: 0, g: 0, b: 0 },
        },
        glyph: spec_map_glyph(m, p),
    }
}

/// Every command is some drawn cell's glyph command.
pub open spec fn map_cmds_sound(
    ecs: EntityStore,
    m: GridMap,
    camera: Camera,
    cmds: Seq<DrawCommand>,
) -> bool {
    forall|k: int|
        0 <= k < cmds.len() ==> exists|p: Point|
            map_cell_drawn(ecs, camera, p) && #[trigger] cmds[k] == spec_map_cell_cmd(m, camera, p)
}

/// What the terrain pass emits: one glyph command for each drawn cell, and
/// nothing else.
pub open spec fn map_render_ok(
    ecs: EntityStore,
    m: GridMap,
    camera: Camera,
    cmds: Seq<DrawCommand>,
) -> bool {
    &&& map_cmds_sound(ecs, m, camera, cmds)
    &&& (forall|p: Point|
        map_cell_drawn(ecs, camera, p) ==> cmds.contains(#[trigger] spec_map_cell_cmd(
            m,
            camera,
            p,
        )))
}

/// Draw the terrain the player sees: every map cell inside the viewport and
/// inside the player's field of view, as floor or wall, on the base layer.
pub fn map_render(ecs: &EntityStore, map: &GridMap, camera: &Camera) -> (r: Vec<DrawCommand>)
    requires
        ecs.wf(),
        map.wf(),
        camera.wf(),
        ecs.player is Some,
        ecs.entities@[ecs.player->Some_0 as int].fov is Some,
    ensures
        map_render_ok(*ecs, *map, *camera, r@),
{
    let player_idx = match ecs.player {
        Some(p) => p,
        None => {
            return Vec::new();
        },
    };
    let floor_glyph = to_cp437('.');
    let wall_glyph = to_cp437('#');
    let mut r: Vec<DrawCommand> = Vec::new();
    let ent = &ecs.entities[player_idx];
    let pfov = match &ent.fov {
        Some(f) => &f.visible_tiles,
        None => {
            return Vec::new();
        },
    };
    let mut idx: usize = 0;
    while idx < NUM_TILES
        invariant
            ecs.wf(),
            map.wf(),
            camera.wf(),
            ecs.player == Some(player_idx),
            ecs.entities@[player_idx as int].fov is Some,
            pfov@ == ecs.entities@[player_idx as int].fov->Some_0.visible_tiles@,
            floor_glyph == '.' as u16,
            wall_glyph == '#' as u16,
            idx <= NUM_TILES,
            map_cmds_sound(*ecs, *map, *camera, r@),
            forall|i: int|
                0 <= i < idx && map_cell_drawn(*ecs, *camera, spec_point_of(i)) ==> r@.contains(
                    spec_map_cell_cmd(*map, *camera, spec_point_of(i)),
                ),
        decreases NUM_TILES - idx,
    {
        let p = index_to_point(idx);
        let in_view = p.x >= camera.left_x && p.x < camera.right_x && p.y >= camera.top_y && p.y
            < camera.bottom_y;
        let ghost r_pre = r@;
        if in_view && contains_point(pfov, p) {
            let glyph = if map.is_opaque(idx) {
                wall_glyph
            } else {
                floor_glyph
            };
            r.push(
                DrawCommand::SetGlyph {
                    layer: 0,
                    z: 0,
                    pos: Point::new(p.x - camera.left_x, p.y - camera.top_y),
                    color: ColorPair { fg: white(), bg: black() },
                    glyph,
                },
            );
            proof {
                assert(map_cell_drawn(*ecs, *camera, p));
                assert(r@[r@.len() - 1] == spec_map_cell_cmd(*map, *camera, p));
            }
        }
        proof {
            assert forall|i: int|
                0 <= i < idx + 1 && map_cell_drawn(*ecs, *camera, spec_point_of(i)) implies r@.contains(
                spec_map_cell_cmd(*map, *camera, spec_point_of(i)),
            ) by {
                if i < idx {
                    let k = choose|k: int|
                        0 <= k < r_pre.len() && r_pre[k] == spec_map_cell_cmd(
                            *map,
                            *camera,
                            spec_point_of(i),
                        );
                    assert(r@[k] == spec_map_cell_cmd(*map, *camera, spec_point_of(i)));
                } else {
                    assert(spec_point_of(i) == p);
                    assert(r@[r@.len() - 1] == spec_map_cell_cmd(*map, *camera, p));
                }
            }
        }
        idx = idx + 1;
    }
    proof {
        assert forall|p: Point| map_cell_drawn(*ecs, *camera, p) implies r@.contains(
            spec_map_cell_cmd(*map, *camera, p),
        ) by {
            crate::map::lemma_point_roundtrip(p.x, p.y);
            assert(map_cell_drawn(*ecs, *camera, spec_point_of(crate::map::spec_idx(p))));
        }
    }
    r
}

} // verus!
