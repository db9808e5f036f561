use vstd::prelude::*;

use crate::point::Point;
use crate::store::EntityStore;
use crate::turn_state::TurnState;

verus! {

/// The turn transition: input hands over to the player phase elsewhere, so
/// it is left alone here; the player phase hands over to the monster phase
/// and the monster phase back to input; reaching the amulet wins, and a
/// player below 1 hit point loses, with the win taking precedence.
pub open spec fn spec_end_turn(
    cur: TurnState,
    player_hp: int,
    player_pos: Point,
    amulet_pos: Point,
) -> TurnState {
    if cur == TurnState::AwaitingInput {
        cur
    } else {
        if player_pos == amulet_pos {
            TurnState::Victory
        } else if player_hp < 1 {
            TurnState::GameOver
        } else {
            match cur {
                TurnState::PlayerTurn => TurnState::MonsterTurn,
                TurnState::MonsterTurn => TurnState::AwaitingInput,
                _ => cur,
            }
        }
    }
}

/// Advance the turn machine, reading the player's health and position and
/// the amulet's position.
pub fn end_turn(ecs: &EntityStore, turn_state: &mut TurnState)
    requires
        ecs.wf(),
        ecs.player is Some,
        ecs.amulet is Some,
    ensures
        *final(turn_state) == spec_end_turn(
            *old(turn_state),
            ecs.entities@[ecs.player->Some_0 as int].health->Some_0.current as int,
            ecs.entities@[ecs.player->Some_0 as int].position->Some_0,
            ecs.entities@[ecs.amulet->Some_0 as int].position->Some_0,
        ),
{
    let current_state = *turn_state;
    if let TurnState::AwaitingInput = current_state {
        return ;
    }
    let player_idx = match ecs.player {
        Some(p) => p,
        None => {
            return ;
        },
    };
    let amulet_idx = match ecs.amulet {
        Some(a) => a,
        None => {
            return ;
        },
    };
    let mut new_state = match current_state {
        TurnState::PlayerTurn => TurnState::MonsterTurn,
        TurnState::MonsterTurn => TurnState::AwaitingInput,
        _ => current_state,
    };
    let player = &ecs.entities[player_idx];
    let hp = match &player.health {
        Some(h) => h.current,
        None => 1,
    };
    let ppos = match player.position {
        Some(p) => p,
        None => Point::new(0, 0),
    };
    let apos = match ecs.entities[amulet_idx].position {
        Some(p) => p,
        None => Point::new(0, 0),
    };
    if hp < 1 {
        new_state = TurnState::GameOver;
    }
    if ppos.x == apos.x && ppos.y == apos.y {
        new_state = TurnState::Victory;
    }
    *turn_state = new_state;
}

} // verus!
