pub mod chasing;
pub mod collisions;
pub mod combat;
pub mod end_turn;
pub mod entity_render;
pub mod fov;
pub mod map_render;
pub mod movement;
pub mod player_input;
pub mod random_move;
pub mod tooltips;

use vstd::prelude::*;

verus! {

/// A system of the pipeline, named for dispatch in a schedule.
#[derive(Clone, Copy, PartialEq, Eq, Structural, Debug)]
pub enum SystemId {
    PlayerInput,
    Fov,
    MapRender,
    EntityRender,
    Tooltips,
    Combat,
    Movement,
    EndTurn,
    RandomMove,
    Chasing,
}

/// An ordered pipeline of systems grouped into synchronization stages: all
/// deferred mutations of one stage are applied before the next stage runs.
pub struct Schedule {
    pub stages: Vec<Vec<SystemId>>,
}

/// The pipeline run while waiting for input: interpret the key, bring every
/// stale field of view up to date (the first tick computes the spawn-time
/// views here), then draw.
pub fn build_input_scheduler() -> (s: Schedule)
    ensures
        s.stages@.len() == 2,
        s.stages@[0]@ == seq![SystemId::PlayerInput, SystemId::Fov],
        s.stages@[1]@ == seq![SystemId::MapRender, SystemId::EntityRender, SystemId::Tooltips],
{
    let mut first: Vec<SystemId> = Vec::new();
    first.push(SystemId::PlayerInput);
    first.push(SystemId::Fov);
    let mut second: Vec<SystemId> = Vec::new();
    second.push(SystemId::MapRender);
    second.push(SystemId::EntityRender);
    second.push(SystemId::Tooltips);
    let mut stages: Vec<Vec<SystemId>> = Vec::new();
    stages.push(first);
    stages.push(second);
    proof {
        assert(stages@[0]@ =~= seq![SystemId::PlayerInput, SystemId::Fov]);
        assert(stages@[1]@ =~= seq![
            SystemId::MapRender,
            SystemId::EntityRender,
            SystemId::Tooltips,
        ]);
    }
    Schedule { stages }
}

/// The pipeline of the player's turn: resolve the queued attacks, then the
/// queued moves, then refresh stale fields of view, then draw and decide
/// the turn transition.
pub fn build_player_scheduler() -> (s: Schedule)
    ensures
        s.stages@.len() == 4,
        s.stages@[0]@ == seq![SystemId::Combat],
        s.stages@[1]@ == seq![SystemId::Movement],
        s.stages@[2]@ == seq![SystemId::Fov],
        s.stages@[3]@ == seq![
            SystemId::MapRender,
            SystemId::EntityRender,
            SystemId::Tooltips,
            SystemId::EndTurn,
        ],
{
    let mut s0: Vec<SystemId> = Vec::new();
    s0.push(SystemId::Combat);
    let mut s1: Vec<SystemId> = Vec::new();
    s1.push(SystemId::Movement);
    let mut s2: Vec<SystemId> = Vec::new();
    s2.push(SystemId::Fov);
    let mut s3: Vec<SystemId> = Vec::new();
    s3.push(SystemId::MapRender);
    s3.push(SystemId::EntityRender);
    s3.push(SystemId::Tooltips);
    s3.push(SystemId::EndTurn);
    let mut stages: Vec<Vec<SystemId>> = Vec::new();
    stages.push(s0);
    stages.push(s1);
    stages.push(s2);
    stages.push(s3);
    proof {
        assert(stages@[0]@ =~= seq![SystemId::Combat]);
        assert(stages@[1]@ =~= seq![SystemId::Movement]);
        assert(stages@[2]@ =~= seq![SystemId::Fov]);
        assert(stages@[3]@ =~= seq![
            SystemId::MapRender,
            SystemId::EntityRender,
            SystemId::Tooltips,
            SystemId::EndTurn,
        ]);
    }
    Schedule { stages }
}

/// The pipeline of the monsters' turn: let the monster AIs queue their
/// intents, then resolve attacks, then moves, then refresh stale fields of
/// view, then draw and decide the turn transition.
pub fn build_monster_scheduler() -> (s: Schedule)
    ensures
        s.stages@.len() == 5,
        s.stages@[0]@ == seq![SystemId::RandomMove, SystemId::Chasing],
        s.stages@[1]@ == seq![SystemId::Combat],
        s.stages@[2]@ == seq![SystemId::Movement],
        s.stages@[3]@ == seq![SystemId::Fov],
        s.stages@[4]@ == seq![
            SystemId::MapRender,
            SystemId::EntityRender,
            SystemId::Tooltips,
            SystemId::EndTurn,
        ],
{
    let mut s0: Vec<SystemId> = Vec::new();
    s0.push(SystemId::RandomMove);
    s0.push(SystemId::Chasing);
    let mut s1: Vec<SystemId> = Vec::new();
    s1.push(SystemId::Combat);
    let mut s2: Vec<SystemId> = Vec::new();
    s2.push(SystemId::Movement);
    let mut s3: Vec<SystemId> = Vec::new();
    s3.push(SystemId::Fov);
    let mut s4: Vec<SystemId> = Vec::new();
    s4.push(SystemId::MapRender);
    s4.push(SystemId::EntityRender);
    s4.push(SystemId::Tooltips);
    s4.push(SystemId::EndTurn);
    let mut stages: Vec<Vec<SystemId>> = Vec::new();
    stages.push(s0);
    stages.push(s1);
    stages.push(s2);
    stages.push(s3);
    stages.push(s4);
    proof {
        assert(stages@[0]@ =~= seq![SystemId::RandomMove, SystemId::Chasing]);
        assert(stages@[1]@ =~= seq![SystemId::Combat]);
        assert(stages@[2]@ =~= seq![SystemId::Movement]);
        assert(stages@[3]@ =~= seq![SystemId::Fov]);
        assert(stages@[4]@ =~= seq![
            SystemId::MapRender,
            SystemId::EntityRender,
            SystemId::Tooltips,
            SystemId::EndTurn,
        ]);
    }
    Schedule { stages }
}

} // verus!
