use vstd::prelude::*;
use vstd::string::StringExecFns;

use crate::camera::Camera;
use crate::draw::DrawCommand;
use crate::point::Point;
use crate::store::{EntityData, EntityStore};
use crate::visibility::contains_point;

verus! {

/// The decimal rendering of an integer, as std's formatting gives it.
pub uninterp spec fn decimal_of(i: int) -> Seq<char>;

/// Relies on std's `ToString` for `i32`: the decimal rendering of the
/// value, a function of the value alone.
#[verifier::external_body]
fn int_to_string(i: i32) -> (s: String)
    ensures
        s@ == decimal_of(i as int),
{
    i.to_string()
}

/// The tooltip line for an entity: its name, followed by its current hit
/// points when it has any.
pub open spec fn spec_tooltip_text(e: EntityData) -> Seq<char> {
    if e.health is Some {
        e.name->Some_0.value@ + ": "@ + decimal_of(e.health->Some_0.current as int) + " hp"@
    } else {
        e.name->Some_0.value@
    }
}

/// The entity gets a tooltip: it is alive, named, stands on the map cell
/// under the pointer, and the player sees that cell.
pub open spec fn tooltip_drawn(ecs: EntityStore, camera: Camera, mouse_pos: Point, i: int) -> bool {
    let e = ecs.entities@[i];
    let map_pos = Point {
        x: (mouse_pos.x + camera.left_x) as i32,
        y: (mouse_pos.y + camera.top_y) as i32,
    };
    &&& 0 <= i < ecs.entities@.len()
    &&& e.alive
    &&& e.position is Some
    &&& e.name is Some
    &&& e.position == Some(map_pos)
    &&& ecs.entities@[ecs.player->Some_0 as int].fov->Some_0.visible_tiles@.contains(map_pos)
}

/// The command is entity `i`'s tooltip: text printed on the overlay layer at
/// four times the pointer cell (the overlay console is four times denser).
pub open spec fn tooltip_cmd_ok(
    c: DrawCommand,
    ecs: EntityStore,
    mouse_pos: Point,
    i: int,
) -> bool {
    match c {
        DrawCommand::PrintText { layer, z, pos, text } => {
            &&& layer == 2
            &&& z == 10100
            &&& pos == (Point { x: (mouse_pos.x * 4) as i32, y: (mouse_pos.y * 4) as i32 })
            &&& text@ == spec_tooltip_text(ecs.entities@[i])
        },
        _ => false,
    }
}

/// Every command is some hovered entity's tooltip.
pub open spec fn tooltip_cmds_sound(
    ecs: EntityStore,
    camera: Camera,
    mouse_pos: Point,
    cmds: Seq<DrawCommand>,
) -> bool {
    forall|k: int|
        0 <= k < cmds.len() ==> exists|i: int|
            tooltip_drawn(ecs, camera, mouse_pos, i) && tooltip_cmd_ok(
                #[trigger] cmds[k],
                ecs,
                mouse_pos,
                i,
            )
}

/// What the tooltip pass emits: one text command per entity under the
/// pointer that the player sees, and nothing else.
pub open spec fn tooltips_ok(
    ecs: EntityStore,
    camera: Camera,
    mouse_pos: Point,
    cmds: Seq<DrawCommand>,
) -> bool {
    &&& tooltip_cmds_sound(ecs, camera, mouse_pos, cmds)
    &&& (forall|i: int|
        #[trigger] tooltip_drawn(ecs, camera, mouse_pos, i) ==> exists|k: int|
            0 <= k < cmds.len() && tooltip_cmd_ok(cmds[k], ecs, mouse_pos, i))
}

/// Show the name, and the hit points when there are any, of whatever the
/// pointer hovers over, provided the player can see that cell.
pub fn tooltips(ecs: &EntityStore, mouse_pos: Point, camera: &Camera) -> (r: Vec<DrawCommand>)
    requires
        ecs.wf(),
        camera.wf(),
        ecs.player is Some,
        ecs.entities@[ecs.player->Some_0 as int].fov is Some,
        -10000 <= mouse_pos.x <= 10000,
        -10000 <= mouse_pos.y <= 10000,
    ensures
        tooltips_ok(*ecs, *camera, mouse_pos, r@),
{
    let player_idx = match ecs.player {
        Some(p) => p,
        None => {
            return Vec::new();
        },
    };
    let map_pos = Point::new(mouse_pos.x + camera.left_x, mouse_pos.y + camera.top_y);
    let screen_pos = Point::new(mouse_pos.x * 4, mouse_pos.y * 4);
    let mut r: Vec<DrawCommand> = Vec::new();
    let pent = &ecs.entities[player_idx];
    let pfov = match &pent.fov {
        Some(f) => &f.visible_tiles,
        None => {
            return Vec::new();
        },
    };
    let mut i: usize = 0;
    while i < ecs.entities.len()
        invariant
            ecs.wf(),
            camera.wf(),
            ecs.player == Some(player_idx),
            ecs.entities@[player_idx as int].fov is Some,
            pfov@ == ecs.entities@[player_idx as int].fov->Some_0.visible_tiles@,
            -10000 <= mouse_pos.x <= 10000,
            -10000 <= mouse_pos.y <= 10000,
            map_pos.x == mouse_pos.x + camera.left_x,
            map_pos.y == mouse_pos.y + camera.top_y,
            screen_pos.x == mouse_pos.x * 4,
            screen_pos.y == mouse_pos.y * 4,
            i <= ecs.entities@.len(),
            tooltip_cmds_sound(*ecs, *camera, mouse_pos, r@),
            forall|j: int|
                0 <= j < i && #[trigger] tooltip_drawn(*ecs, *camera, mouse_pos, j) ==> exists|
                    k: int,
                |
                    0 <= k < r@.len() && tooltip_cmd_ok(r@[k], *ecs, mouse_pos, j),
        decreases ecs.entities@.len() - i,
    {
        let mut draw = false;
        let mut has_health = false;
        let mut hp: i32 = 0;
        {
            let ent = &ecs.entities[i];
            if ent.alive && ent.name.is_some() {
                if let Some(p) = ent.position {
                    if p.x == map_pos.x && p.y == map_pos.y {
                        if contains_point(pfov, map_pos) {
                            draw = true;
                            if let Some(h) = &ent.health {
                                has_health = true;
                                hp = h.current;
                            }
                        }
                    }
                }
            }
        }
        let ghost r_pre = r@;
        if draw {
            let mut text: String = match &ecs.entities[i].name {
                Some(n) => n.value.clone(),
                None => String::new(),
            };
            if has_health {
                text.append(": ");
                let hp_string = int_to_string(hp);
                text.append(hp_string.as_str());
                text.append(" hp");
            }
            proof {
                assert(text@ == spec_tooltip_text(ecs.entities@[i as int]));
            }
            r.push(DrawCommand::PrintText { layer: 2, z: 10100, pos: screen_pos, text });
            proof {
                assert(tooltip_drawn(*ecs, *camera, mouse_pos, i as int));
                assert(tooltip_cmd_ok(r@[r@.len() - 1], *ecs, mouse_pos, i as int));
            }
        }
        proof {
            assert forall|j: int|
                0 <= j < i + 1 && #[trigger] tooltip_drawn(*ecs, *camera, mouse_pos, j) implies exists|
                k: int,
            |
                0 <= k < r@.len() && tooltip_cmd_ok(r@[k], *ecs, mouse_pos, j) by {
                if j < i {
                    let k = choose|k: int|
                        0 <= k < r_pre.len() && tooltip_cmd_ok(r_pre[k], *ecs, mouse_pos, j);
                    assert(r@[k] == r_pre[k]);
                    assert(tooltip_cmd_ok(r@[k], *ecs, mouse_pos, j));
                } else {
                    assert(tooltip_cmd_ok(r@[r@.len() - 1], *ecs, mouse_pos, j));
                }
            }
        }
        i = i + 1;
    }
    r
}

} // verus!
