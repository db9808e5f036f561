use vstd::prelude::*;

use crate::store::{EntityData, EntityStore};

verus! {

/// All fields except `alive` agree.
pub open spec fn same_except_alive(a: EntityData, b: EntityData) -> bool {
    &&& b.position == a.position
    &&& b.render == a.render
    &&& b.health == a.health
    &&& b.name == a.name
    &&& b.fov == a.fov
    &&& b.is_player == a.is_player
    &&& b.is_enemy == a.is_enemy
    &&& b.is_amulet == a.is_amulet
    &&& b.moving_randomly == a.moving_randomly
    &&& b.chasing_player == a.chasing_player
}

/// The instant-kill collision rule of the earlier design, superseded by
/// combat resolution: destroy every live enemy standing on the player's
/// cell; touch nothing else.
pub fn collisions(ecs: &mut EntityStore)
    requires
        old(ecs).wf(),
        old(ecs).player is Some,
        !old(ecs).entities@[old(ecs).player->Some_0 as int].is_enemy,
    ensures
        final(ecs).wf(),
        final(ecs).entities@.len() == old(ecs).entities@.len(),
        final(ecs).player == old(ecs).player,
        final(ecs).amulet == old(ecs).amulet,
        forall|i: int|
            0 <= i < old(ecs).entities@.len() ==> {
                let e = #[trigger] old(ecs).entities@[i];
                if e.alive && e.is_enemy && e.position == old(ecs).entities@[old(
                    ecs,
                ).player->Some_0 as int].position {
                    !final(ecs).entities@[i].alive && same_except_alive(e, final(ecs).entities@[i])
                } else {
                    final(ecs).entities@[i] == e
                }
            },
{
    let player_idx = match ecs.player {
        Some(p) => p,
        None => {
            return ;
        },
    };
    let player_position = match ecs.entities[player_idx].position {
        Some(p) => p,
        None => {
            return ;
        },
    };
    let mut i: usize = 0;
    while i < ecs.entities.len()
        invariant
            ecs.wf(),
            i <= ecs.entities@.len(),
            ecs.entities@.len() == old(ecs).entities@.len(),
            ecs.player == old(ecs).player,
            ecs.amulet == old(ecs).amulet,
            ecs.player == Some(player_idx),
            old(ecs).entities@[player_idx as int].position == Some(player_position),
            !old(ecs).entities@[player_idx as int].is_enemy,
            forall|j: int|
                i <= j < old(ecs).entities@.len() ==> ecs.entities@[j] == old(ecs).entities@[j],
            forall|j: int|
                0 <= j < i ==> {
                    let e = #[trigger] old(ecs).entities@[j];
                    if e.alive && e.is_enemy && e.position == Some(player_position) {
                        !ecs.entities@[j].alive && same_except_alive(e, ecs.entities@[j])
                    } else {
                        ecs.entities@[j] == e
                    }
                },
        decreases ecs.entities@.len() - i,
    {
        let mut hit = false;
        {
            let ent = &ecs.entities[i];
            if ent.alive && ent.is_enemy {
                if let Some(p) = ent.position {
                    if p.x == player_position.x && p.y == player_position.y {
                        hit = true;
                    }
                }
            }
        }
        if hit {
            proof {
                assert(ecs.entities@[i as int] == old(ecs).entities@[i as int]);
                assert(i != player_idx);
            }
            ecs.entities[i].alive = false;
        }
        i = i + 1;
    }
}

} // verus!
