use dungeoncrawl::systems::{
    build_input_scheduler, build_monster_scheduler, build_player_scheduler, SystemId,
};

#[test]
fn input_scheduler_interprets_keys_then_draws() {
    let s = build_input_scheduler();
    assert_eq!(s.stages.len(), 2);
    assert_eq!(s.stages[0], vec![SystemId::PlayerInput, SystemId::Fov]);
    assert_eq!(
        s.stages[1],
        vec![SystemId::MapRender, SystemId::EntityRender, SystemId::Tooltips]
    );
}

#[test]
fn player_scheduler_resolves_combat_then_moves_then_ends_the_turn() {
    let s = build_player_scheduler();
    assert_eq!(s.stages.len(), 4);
    assert_eq!(s.stages[0], vec![SystemId::Combat]);
    assert_eq!(s.stages[1], vec![SystemId::Movement]);
    assert_eq!(s.stages[2], vec![SystemId::Fov]);
    assert_eq!(
        s.stages[3],
        vec![
            SystemId::MapRender,
            SystemId::EntityRender,
            SystemId::Tooltips,
            SystemId::EndTurn
        ]
    );
}

#[test]
fn monster_scheduler_lets_the_ai_speak_first() {
    let s = build_monster_scheduler();
    assert_eq!(s.stages.len(), 5);
    assert_eq!(s.stages[0], vec![SystemId::RandomMove, SystemId::Chasing]);
    assert_eq!(s.stages[1], vec![SystemId::Combat]);
    assert_eq!(s.stages[2], vec![SystemId::Movement]);
    assert_eq!(s.stages[3], vec![SystemId::Fov]);
    assert_eq!(
        s.stages[4],
        vec![
            SystemId::MapRender,
            SystemId::EntityRender,
            SystemId::Tooltips,
            SystemId::EndTurn
        ]
    );
}
