use vstd::prelude::*;

use crate::components::{WantsToAttack, WantsToMove};
use crate::dijkstra::DijkstraMap;
use crate::map::{index_to_point, map_idx, GridMap};
use crate::point::Point;
use crate::store::{CommandBuffer, EntityStore};
use crate::systems::random_move::{ai_attack_ok, ai_move_ok, spec_player_at};
use crate::{SCREEN_HEIGHT, SCREEN_WIDTH};

verus! {

/// Entity `e` is a live chaser that sees the player.
pub open spec fn chaser_sees(ecs: EntityStore, e: int) -> bool {
    let ent = ecs.entities@[e];
    let player_pos = ecs.entities@[ecs.player->Some_0 as int].position->Some_0;
    &&& 0 <= e < ecs.entities@.len()
    &&& ent.alive
    &&& ent.chasing_player
    &&& ent.position is Some
    &&& ent.fov is Some
    &&& ent.fov->Some_0.visible_tiles@.contains(player_pos)
}

/// Entity `e` is a live chaser that sees the player and stands one axis
/// step away: the situation in which the chase AI always strikes.
pub open spec fn chaser_engages(ecs: EntityStore, e: int) -> bool {
    let ent = ecs.entities@[e];
    let player_pos = ecs.entities@[ecs.player->Some_0 as int].position->Some_0;
    &&& chaser_sees(ecs, e)
    &&& crate::path::spec_adjacent(ent.position->Some_0, player_pos)
}

/// The cost field the chase AI consults: rooted at the player's tile, with
/// the standard exploration ceiling, and carrying every law the field
/// builder proves of it.
#[verifier::opaque]
pub open spec fn chase_field_ok(m: GridMap, player_tile: usize, cm: Seq<i32>) -> bool {
    &&& cm.len() == crate::NUM_TILES
    &&& crate::dijkstra::cost_range_ok(cm, 1024)
    &&& crate::dijkstra::starts_zero(cm, seq![player_tile])
    &&& crate::dijkstra::costs_sound(m, seq![player_tile], cm)
    &&& crate::dijkstra::closed_below(m, cm, 1024)
    &&& crate::dijkstra::has_downhill(m, cm)
}

/// The tile has an exit whose cost undercuts its own: the situation in
/// which the downhill walk can make progress.
#[verifier::opaque]
pub open spec fn has_cheaper_exit(cm: Seq<i32>, m: GridMap, tile: int) -> bool {
    exists|n: usize|
        #[trigger] crate::map::spec_available_exits(m, tile).contains(n) && cm[n as int] < cm[tile]
}

/// The move steps from its mover's tile to that tile's first lowest-cost
/// exit in the given field.
#[verifier::opaque]
pub open spec fn move_downhill_ok(
    cm: Seq<i32>,
    m: GridMap,
    ecs: EntityStore,
    w: WantsToMove,
) -> bool {
    crate::dijkstra::lowest_exit_ok(
        cm,
        m,
        crate::map::spec_idx(ecs.entities@[w.entity as int].position->Some_0),
        Some((crate::map::spec_idx(w.destination)) as usize),
    )
}

/// For each live chaser that sees the player, query the cost field rooted
/// at the player's cell and step one exit downhill toward it; within one
/// step of the player the destination snaps to the player's own cell. If
/// the live player stands on the destination, queue an attack on the
/// player; otherwise queue the move there — whoever else may stand on it,
/// per the message-passing design, where stacking is the movement
/// resolver's concern. Every queued intent is well-formed in the sense of
/// `ai_move_ok`/`ai_attack_ok`, the mover in addition sees the player, a
/// seen player within reach is struck exactly once with no move queued for
/// that chaser, and a distant seeing chaser whose tile has a cheaper exit
/// queues exactly one move, to the first lowest-cost exit of its tile.
#[verifier::rlimit(100)]
pub fn chasing(ecs: &EntityStore, buffer: &mut CommandBuffer, map: &GridMap)
    requires
        ecs.wf(),
        map.wf(),
        ecs.player is Some,
        map.spec_can_enter(ecs.entities@[ecs.player->Some_0 as int].position->Some_0),
    ensures
        final(buffer).moves@.len() >= old(buffer).moves@.len(),
        final(buffer).moves@.subrange(0, old(buffer).moves@.len() as int) == old(buffer).moves@,
        final(buffer).attacks@.len() >= old(buffer).attacks@.len(),
        final(buffer).attacks@.subrange(0, old(buffer).attacks@.len() as int) == old(buffer).attacks@,
        forall|k: int|
            old(buffer).moves@.len() <= k < final(buffer).moves@.len() ==> {
                let w = #[trigger] final(buffer).moves@[k];
                &&& ai_move_ok(*ecs, w, false)
                &&& map.spec_can_enter(w.destination)
                &&& chaser_sees(*ecs, w.entity as int)
            },
        forall|k: int|
            old(buffer).attacks@.len() <= k < final(buffer).attacks@.len() ==> {
                let a = #[trigger] final(buffer).attacks@[k];
                &&& ai_attack_ok(*ecs, a, false)
                &&& chaser_sees(*ecs, a.attacker as int)
                &&& a.victim == ecs.player->Some_0
            },
        // a seen player within reach is always struck, exactly once, and no
        // move is queued for that chaser
        forall|e: int|
            #[trigger] chaser_engages(*ecs, e) ==> exists|k: int|
                old(buffer).attacks@.len() <= k < final(buffer).attacks@.len() && final(buffer).attacks@[k] == (WantsToAttack {
                    attacker: e as usize,
                    victim: ecs.player->Some_0,
                }),
        forall|k1: int, k2: int|
            old(buffer).attacks@.len() <= k1 < k2 < final(buffer).attacks@.len()
                ==> (#[trigger] final(buffer).attacks@[k1]).attacker < (#[trigger] final(buffer).attacks@[k2]).attacker,
        forall|k1: int, k2: int|
            old(buffer).moves@.len() <= k1 < k2 < final(buffer).moves@.len()
                ==> (#[trigger] final(buffer).moves@[k1]).entity < (#[trigger] final(buffer).moves@[k2]).entity,
        forall|e: int, k: int|
            #[trigger] chaser_engages(*ecs, e) && old(buffer).moves@.len() <= k < final(buffer).moves@.len()
                ==> (#[trigger] final(buffer).moves@[k]).entity != e,
        // the cost field consulted: every queued chase move steps to the
        // first lowest-cost exit of its mover's tile, and every distant
        // seeing chaser with a cheaper exit queues a move
        exists|cm: Seq<i32>|
            {
                &&& #[trigger] chase_field_ok(
                    *map,
                    (crate::map::spec_idx(
                        ecs.entities@[ecs.player->Some_0 as int].position->Some_0,
                    )) as usize,
                    cm,
                )
                &&& (forall|k: int|
                    old(buffer).moves@.len() <= k < final(buffer).moves@.len()
                        ==> move_downhill_ok(cm, *map, *ecs, #[trigger] final(buffer).moves@[k]))
                &&& (forall|e: int|
                    #[trigger] chaser_sees(*ecs, e) && crate::point::spec_dist2(
                        ecs.entities@[e].position->Some_0,
                        ecs.entities@[ecs.player->Some_0 as int].position->Some_0,
                    ) > 1 && has_cheaper_exit(
                        cm,
                        *map,
                        crate::map::spec_idx(ecs.entities@[e].position->Some_0),
                    ) ==> exists|k: int|
                        old(buffer).moves@.len() <= k < final(buffer).moves@.len()
                            && (#[trigger] final(buffer).moves@[k]).entity == e)
            },
        // and a distant seeing chaser never attacks
        forall|e: int, k: int|
            #[trigger] chaser_sees(*ecs, e) && crate::point::spec_dist2(
                ecs.entities@[e].position->Some_0,
                ecs.entities@[ecs.player->Some_0 as int].position->Some_0,
            ) > 1 && old(buffer).attacks@.len() <= k < final(buffer).attacks@.len()
                ==> (#[trigger] final(buffer).attacks@[k]).attacker != e,
{
    let player_idx_store = match ecs.player {
        Some(p) => p,
        None => {
            return ;
        },
    };
    let player_position = match ecs.entities[player_idx_store].position {
        Some(p) => p,
        None => {
            return ;
        },
    };
    let player_tile = map_idx(player_position.x, player_position.y);
    let mut search_targets: Vec<usize> = Vec::new();
    search_targets.push(player_tile);
    proof {
        crate::map::lemma_point_roundtrip(player_position.x, player_position.y);
        assert(crate::dijkstra::starts_ok(*map, search_targets@));
    }
    let dijkstra_map = DijkstraMap::new(SCREEN_WIDTH, SCREEN_HEIGHT, &search_targets, map, 1024);
    proof {
        assert(search_targets@[0] == player_tile);
        assert(search_targets@ =~= seq![player_tile]);
        assert(chase_field_ok(*map, player_tile, dijkstra_map.map@)) by {
            reveal(chase_field_ok);
        }
    }
    let ghost m0 = buffer.moves@;
    let ghost a0 = buffer.attacks@;
    let mut e: usize = 0;
    while e < ecs.entities.len()
        invariant
            ecs.wf(),
            map.wf(),
            ecs.player == Some(player_idx_store),
            ecs.entities@[player_idx_store as int].alive,
            ecs.entities@[player_idx_store as int].position == Some(player_position),
            map.spec_can_enter(player_position),
            player_tile == crate::map::spec_idx(player_position),
            player_tile < crate::NUM_TILES,
            search_targets@.len() == 1,
            search_targets@[0] == player_tile,
            chase_field_ok(*map, player_tile, dijkstra_map.map@),
            dijkstra_map.map@.len() == crate::NUM_TILES,
            e <= ecs.entities@.len(),
            buffer.moves@.len() >= m0.len(),
            buffer.moves@.subrange(0, m0.len() as int) == m0,
            buffer.attacks@.len() >= a0.len(),
            buffer.attacks@.subrange(0, a0.len() as int) == a0,
            forall|k: int|
                m0.len() <= k < buffer.moves@.len() ==> {
                    let w = #[trigger] buffer.moves@[k];
                    &&& ai_move_ok(*ecs, w, false)
                    &&& map.spec_can_enter(w.destination)
                    &&& chaser_sees(*ecs, w.entity as int)
                },
            forall|k: int|
                a0.len() <= k < buffer.attacks@.len() ==> {
                    let a = #[trigger] buffer.attacks@[k];
                    &&& ai_attack_ok(*ecs, a, false)
                    &&& chaser_sees(*ecs, a.attacker as int)
                    &&& a.victim == player_idx_store
                },
            forall|ee: int|
                0 <= ee < e && #[trigger] chaser_engages(*ecs, ee) ==> exists|k: int|
                    a0.len() <= k < buffer.attacks@.len() && buffer.attacks@[k] == (WantsToAttack {
                        attacker: ee as usize,
                        victim: player_idx_store,
                    }),
            forall|k: int|
                a0.len() <= k < buffer.attacks@.len() ==> (#[trigger] buffer.attacks@[k]).attacker
                    < e,
            forall|k1: int, k2: int|
                a0.len() <= k1 < k2 < buffer.attacks@.len()
                    ==> (#[trigger] buffer.attacks@[k1]).attacker < (#[trigger] buffer.attacks@[k2]).attacker,
            forall|k: int|
                m0.len() <= k < buffer.moves@.len() ==> (#[trigger] buffer.moves@[k]).entity < e,
            forall|k1: int, k2: int|
                m0.len() <= k1 < k2 < buffer.moves@.len() ==> (#[trigger] buffer.moves@[k1]).entity
                    < (#[trigger] buffer.moves@[k2]).entity,
            forall|ee: int, k: int|
                #[trigger] chaser_engages(*ecs, ee) && m0.len() <= k < buffer.moves@.len()
                    ==> (#[trigger] buffer.moves@[k]).entity != ee,
            forall|k: int|
                m0.len() <= k < buffer.moves@.len() ==> move_downhill_ok(
                    dijkstra_map.map@,
                    *map,
                    *ecs,
                    #[trigger] buffer.moves@[k],
                ),
            forall|ee: int|
                #[trigger] chaser_sees(*ecs, ee) && 0 <= ee < e && crate::point::spec_dist2(
                    ecs.entities@[ee].position->Some_0,
                    player_position,
                ) > 1 && has_cheaper_exit(
                    dijkstra_map.map@,
                    *map,
                    crate::map::spec_idx(ecs.entities@[ee].position->Some_0),
                ) ==> exists|k: int|
                    m0.len() <= k < buffer.moves@.len() && (#[trigger] buffer.moves@[k]).entity
                        == ee,
            forall|ee: int, k: int|
                #[trigger] chaser_sees(*ecs, ee) && crate::point::spec_dist2(
                    ecs.entities@[ee].position->Some_0,
                    player_position,
                ) > 1 && a0.len() <= k < buffer.attacks@.len()
                    ==> (#[trigger] buffer.attacks@[k]).attacker != ee,
        decreases ecs.entities@.len() - e,
    {
        let mut chases = false;
        let mut pos = Point::new(0, 0);
        {
            let ent = &ecs.entities[e];
            if ent.alive && ent.chasing_player && ent.position.is_some() {
                if let Some(f) = &ent.fov {
                    if crate::visibility::contains_point(&f.visible_tiles, player_position) {
                        chases = true;
                        pos = match ent.position {
                            Some(p) => p,
                            None => Point::new(0, 0),
                        };
                    }
                }
            }
        }
        if chases {
            let own_tile = map_idx(pos.x, pos.y);
            let lowest = DijkstraMap::find_lowest_exit(&dijkstra_map, own_tile, map);
            proof {
                reveal(chase_field_ok);
                let ghost st: Seq<usize> = seq![player_tile];
                assert(st[0] == player_tile);
                assert(search_targets@ =~= st);
                if chaser_engages(*ecs, e as int) {
                    let cm = dijkstra_map.map@;
                    crate::map::lemma_point_roundtrip(pos.x, pos.y);
                    crate::map::lemma_point_roundtrip(player_position.x, player_position.y);
                    assert(pos != player_position);
                    assert(own_tile != player_tile);
                    crate::path::lemma_neighbor_is_exit(*map, own_tile as int, player_position);
                    assert(crate::map::spec_available_exits(*map, own_tile as int).contains(
                        player_tile,
                    ));
                    assert(cm[st[0] as int] == 0);
                    assert(cm[player_tile as int] == 0);
                    // a zero cost marks the start tile alone, and the chaser
                    // does not stand there
                    assert(cm[own_tile as int] != 0) by {
                        if cm[own_tile as int] == 0 {
                            assert(crate::dijkstra::reachable_from_starts(
                                *map,
                                st,
                                crate::map::spec_point_of(own_tile as int),
                                0,
                            ));
                            let j = choose|j: int|
                                0 <= j < st.len() && crate::path::reachable_within(
                                    *map,
                                    crate::map::spec_point_of(#[trigger] st[j] as int),
                                    crate::map::spec_point_of(own_tile as int),
                                    0,
                                );
                            let w = choose|w: Seq<Point>|
                                crate::path::is_path_between(
                                    *map,
                                    w,
                                    crate::map::spec_point_of(st[j] as int),
                                    crate::map::spec_point_of(own_tile as int),
                                ) && w.len() <= 1;
                            assert(w.len() == 1);
                            assert(w.first() == w.last());
                            assert(false);
                        }
                    }
                    assert(cm[own_tile as int] > 0);
                    // so the scan of the exits finds a strictly lower cost
                    if lowest is None {
                        let ex = crate::map::spec_available_exits(*map, own_tile as int);
                        let k = choose|k: int| 0 <= k < ex.len() && ex[k] == player_tile;
                        assert(cm[ex[k] as int] >= cm[own_tile as int]);
                        assert(false);
                    }
                }
                if chaser_sees(*ecs, e as int) && crate::point::spec_dist2(pos, player_position)
                    > 1 && has_cheaper_exit(dijkstra_map.map@, *map, own_tile as int) {
                    if lowest is None {
                        reveal(has_cheaper_exit);
                        let n = choose|n: usize|
                            #[trigger] crate::map::spec_available_exits(
                                *map,
                                own_tile as int,
                            ).contains(n) && dijkstra_map.map@[n as int]
                                < dijkstra_map.map@[own_tile as int];
                        let ex = crate::map::spec_available_exits(*map, own_tile as int);
                        let k = choose|k: int| 0 <= k < ex.len() && ex[k] == n;
                        assert(dijkstra_map.map@[ex[k] as int] >= dijkstra_map.map@[own_tile as int]);
                        assert(false);
                    }
                }
            }
            if let Some(exit_tile) = lowest {
                let d2 = pos.dist2(player_position);
                let destination = if d2 > 1 {
                    proof {
                        crate::path::lemma_exit_properties(*map, own_tile as int, exit_tile);
                        crate::map::lemma_point_roundtrip(pos.x, pos.y);
                    }
                    index_to_point(exit_tile)
                } else {
                    player_position
                };
                proof {
                    // the chaser does not stand on the player's cell: its
                    // own cost would be zero and no exit could be cheaper
                    assert(pos != player_position) by {
                        reveal(chase_field_ok);
                        if pos == player_position {
                            crate::map::lemma_point_roundtrip(pos.x, pos.y);
                            assert(own_tile == player_tile);
                            let ghost st: Seq<usize> = seq![player_tile];
                            assert(st[0] == player_tile);
                            assert(dijkstra_map.map@[st[0] as int] == 0);
                            assert(dijkstra_map.map@[own_tile as int] == 0);
                            crate::path::lemma_exit_properties(*map, own_tile as int, exit_tile);
                            assert(dijkstra_map.map@[exit_tile as int]
                                < dijkstra_map.map@[own_tile as int]);
                            assert(dijkstra_map.map@[exit_tile as int] == crate::dijkstra::UNREACHABLE
                                || dijkstra_map.map@[exit_tile as int] >= 0);
                            assert(false);
                        }
                    }
                }
                let ghost moves_pre = buffer.moves@;
                let ghost attacks_pre = buffer.attacks@;
                if destination.x == player_position.x && destination.y == player_position.y {
                    proof {
                        // the destination held the player: either it snapped
                        // from one step away, or the chosen exit is the
                        // player's own adjacent cell
                        assert(crate::path::spec_adjacent(pos, player_position)) by {
                            if d2 > 1 {
                                crate::path::lemma_exit_properties(
                                    *map,
                                    own_tile as int,
                                    exit_tile,
                                );
                                crate::map::lemma_point_roundtrip(pos.x, pos.y);
                            } else {
                                assert(crate::point::spec_dist2(pos, player_position) >= 1)
                                    by (nonlinear_arith)
                                    requires
                                        pos != player_position,
                                ;
                                crate::path::lemma_dist2_one_is_adjacent(pos, player_position);
                            }
                        }
                    }
                    buffer.attacks.push(
                        WantsToAttack { attacker: e, victim: player_idx_store },
                    );
                    proof {
                        assert(buffer.attacks@.subrange(0, a0.len() as int) =~= attacks_pre.subrange(
                            0,
                            a0.len() as int,
                        ));
                        assert(ai_attack_ok(
                            *ecs,
                            buffer.attacks@[buffer.attacks@.len() - 1],
                            false,
                        ));
                        assert(buffer.attacks@[buffer.attacks@.len() - 1] == (WantsToAttack {
                            attacker: e,
                            victim: player_idx_store,
                        }));
                        assert forall|ee: int|
                            0 <= ee < e && #[trigger] chaser_engages(*ecs, ee) implies exists|
                            k: int,
                        |
                            a0.len() <= k < buffer.attacks@.len() && buffer.attacks@[k]
                                == (WantsToAttack {
                                attacker: ee as usize,
                                victim: player_idx_store,
                            }) by {
                            let k = choose|k: int|
                                a0.len() <= k < attacks_pre.len() && attacks_pre[k]
                                    == (WantsToAttack {
                                    attacker: ee as usize,
                                    victim: player_idx_store,
                                });
                            assert(buffer.attacks@[k] == attacks_pre[k]);
                        }
                        // the snap only happens within one step: this push
                        // never serves a distant chaser
                        assert(!(crate::point::spec_dist2(pos, player_position) > 1)) by {
                            assert(crate::point::spec_dist2(pos, player_position) == 1)
                                by (nonlinear_arith)
                                requires
                                    crate::path::spec_adjacent(pos, player_position),
                            ;
                        }
                    }
                } else {
                    proof {
                        assert(d2 > 1) by {
                            if !(d2 > 1) {
                                assert(destination == player_position);
                            }
                        }
                        crate::path::lemma_exit_properties(*map, own_tile as int, exit_tile);
                        crate::map::lemma_point_roundtrip(pos.x, pos.y);
                        assert(!spec_player_at(*ecs, destination));
                    }
                    buffer.moves.push(WantsToMove { entity: e, destination });
                    proof {
                        assert(buffer.moves@.subrange(0, m0.len() as int) =~= moves_pre.subrange(
                            0,
                            m0.len() as int,
                        ));
                        assert(ai_move_ok(*ecs, buffer.moves@[buffer.moves@.len() - 1], false));
                        assert(buffer.moves@[buffer.moves@.len() - 1].entity == e);
                        // the pushed move steps to the chosen lowest exit
                        assert(crate::map::spec_idx(ecs.entities@[e as int].position->Some_0)
                            == own_tile as int);
                        assert(crate::map::spec_idx(destination) == exit_tile as int);
                        assert(crate::dijkstra::lowest_exit_ok(
                            dijkstra_map.map@,
                            *map,
                            own_tile as int,
                            Some(exit_tile),
                        ));
                        assert(move_downhill_ok(
                            dijkstra_map.map@,
                            *map,
                            *ecs,
                            buffer.moves@[buffer.moves@.len() - 1],
                        )) by {
                            reveal(move_downhill_ok);
                        }
                        assert forall|ee: int|
                            #[trigger] chaser_sees(*ecs, ee) && 0 <= ee < e
                                && crate::point::spec_dist2(
                                ecs.entities@[ee].position->Some_0,
                                player_position,
                            ) > 1 && has_cheaper_exit(
                                dijkstra_map.map@,
                                *map,
                                crate::map::spec_idx(ecs.entities@[ee].position->Some_0),
                            ) implies exists|k: int|
                            m0.len() <= k < buffer.moves@.len()
                                && (#[trigger] buffer.moves@[k]).entity == ee by {
                            let k = choose|k: int|
                                m0.len() <= k < moves_pre.len() && (#[trigger] moves_pre[k]).entity
                                    == ee;
                            assert(buffer.moves@[k] == moves_pre[k]);
                        }
                        // an engaging chaser never reaches this push: its
                        // destination snapped to the player's occupied cell
                        assert(!chaser_engages(*ecs, e as int)) by {
                            if chaser_engages(*ecs, e as int) {
                                assert(crate::point::spec_dist2(pos, player_position) == 1)
                                    by (nonlinear_arith)
                                    requires
                                        crate::path::spec_adjacent(pos, player_position),
                                ;
                            }
                        }
                    }
                }
            }
        }
        proof {
            assert forall|ee: int|
                0 <= ee < e + 1 && #[trigger] chaser_engages(*ecs, ee) implies exists|k: int|
                a0.len() <= k < buffer.attacks@.len() && buffer.attacks@[k] == (WantsToAttack {
                    attacker: ee as usize,
                    victim: player_idx_store,
                }) by {
                if ee == e as int {
                    assert(chases);
                    assert(crate::point::spec_dist2(pos, player_position) == 1)
                        by (nonlinear_arith)
                        requires
                            crate::path::spec_adjacent(pos, player_position),
                    ;
                }
            }
            assert forall|ee: int|
                #[trigger] chaser_sees(*ecs, ee) && 0 <= ee < e + 1 && crate::point::spec_dist2(
                    ecs.entities@[ee].position->Some_0,
                    player_position,
                ) > 1 && has_cheaper_exit(
                    dijkstra_map.map@,
                    *map,
                    crate::map::spec_idx(ecs.entities@[ee].position->Some_0),
                ) implies exists|k: int|
                m0.len() <= k < buffer.moves@.len() && (#[trigger] buffer.moves@[k]).entity
                    == ee by {
                if ee == e as int {
                    assert(chases);
                    crate::map::lemma_point_roundtrip(pos.x, pos.y);
                }
            }
        }
        e = e + 1;
    }
    proof {
        assert(player_tile == (crate::map::spec_idx(
            ecs.entities@[ecs.player->Some_0 as int].position->Some_0,
        )) as usize);
        assert(chase_field_ok(
            *map,
            (crate::map::spec_idx(
                ecs.entities@[ecs.player->Some_0 as int].position->Some_0,
            )) as usize,
            dijkstra_map.map@,
        ));
    }
}

} // verus!
