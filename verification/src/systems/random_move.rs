use vstd::prelude::*;

use crate::components::{WantsToAttack, WantsToMove};
use crate::path::spec_adjacent;
use crate::point::Point;
use crate::random::random_range;
use crate::store::{CommandBuffer, EntityStore};

verus! {

/// The live player stands at `p`.
pub open spec fn spec_player_at(ecs: EntityStore, p: Point) -> bool {
    match ecs.player {
        Some(pl) => ecs.entities@[pl as int].alive && ecs.entities@[pl as int].position == Some(p),
        None => false,
    }
}

/// A move queued by monster AI is well-formed: the mover is a live monster
/// of the given kind standing somewhere, the destination is one axis step
/// away, and the player does not hold it (else it would have been an
/// attack).
pub open spec fn ai_move_ok(ecs: EntityStore, w: WantsToMove, randomly: bool) -> bool {
    let ents = ecs.entities@;
    &&& w.entity < ents.len()
    &&& ents[w.entity as int].alive
    &&& (if randomly {
        ents[w.entity as int].moving_randomly
    } else {
        ents[w.entity as int].chasing_player
    })
    &&& ents[w.entity as int].position is Some
    &&& spec_adjacent(ents[w.entity as int].position->Some_0, w.destination)
    &&& !spec_player_at(ecs, w.destination)
}

/// An attack queued by monster AI is well-formed: the attacker is a live
/// monster of the given kind, and the victim is the live player, with
/// health, standing one axis step from the attacker.
pub open spec fn ai_attack_ok(ecs: EntityStore, a: WantsToAttack, randomly: bool) -> bool {
    let ents = ecs.entities@;
    &&& a.attacker < ents.len()
    &&& ents[a.attacker as int].alive
    &&& (if randomly {
        ents[a.attacker as int].moving_randomly
    } else {
        ents[a.attacker as int].chasing_player
    })
    &&& ents[a.attacker as int].position is Some
    &&& a.victim < ents.len()
    &&& ents[a.victim as int].alive
    &&& ents[a.victim as int].is_player
    &&& ents[a.victim as int].health is Some
    &&& ents[a.victim as int].position is Some
    &&& spec_adjacent(
        ents[a.attacker as int].position->Some_0,
        ents[a.victim as int].position->Some_0,
    )
}

/// What the wander system owes entity `e`: exactly one kind of intent was
/// queued for it — a move, or an attack on the player, never both and
/// never neither.
pub open spec fn wander_outcome(
    m0: int,
    a0: int,
    moves: Seq<WantsToMove>,
    attacks: Seq<WantsToAttack>,
    e: int,
) -> bool {
    (exists|k: int| m0 <= k < moves.len() && (#[trigger] moves[k]).entity == e) <==> !(exists|
        k: int,
    |
        a0 <= k < attacks.len() && (#[trigger] attacks[k]).attacker == e)
}

/// A wander outcome survives appending intents for other entities.
proof fn lemma_wander_outcome_extended(
    m0: int,
    a0: int,
    moves1: Seq<WantsToMove>,
    attacks1: Seq<WantsToAttack>,
    moves2: Seq<WantsToMove>,
    attacks2: Seq<WantsToAttack>,
    e: int,
)
    requires
        wander_outcome(m0, a0, moves1, attacks1, e),
        moves2.len() >= moves1.len(),
        forall|k: int| 0 <= k < moves1.len() ==> #[trigger] moves2[k] == moves1[k],
        forall|k: int| moves1.len() <= k < moves2.len() ==> (#[trigger] moves2[k]).entity != e,
        attacks2.len() >= attacks1.len(),
        forall|k: int| 0 <= k < attacks1.len() ==> #[trigger] attacks2[k] == attacks1[k],
        forall|k: int|
            attacks1.len() <= k < attacks2.len() ==> (#[trigger] attacks2[k]).attacker != e,
        0 <= m0 <= moves1.len(),
        0 <= a0 <= attacks1.len(),
    ensures
        wander_outcome(m0, a0, moves2, attacks2, e),
{
    assert((exists|k: int| m0 <= k < moves1.len() && (#[trigger] moves1[k]).entity == e) <==> (
    exists|k: int| m0 <= k < moves2.len() && (#[trigger] moves2[k]).entity == e)) by {
        if exists|k: int| m0 <= k < moves1.len() && (#[trigger] moves1[k]).entity == e {
            let k = choose|k: int| m0 <= k < moves1.len() && (#[trigger] moves1[k]).entity == e;
            assert(moves2[k] == moves1[k]);
        }
        if exists|k: int| m0 <= k < moves2.len() && (#[trigger] moves2[k]).entity == e {
            let k = choose|k: int| m0 <= k < moves2.len() && (#[trigger] moves2[k]).entity == e;
            assert(k < moves1.len());
            assert(moves1[k] == moves2[k]);
        }
    }
    assert((exists|k: int| a0 <= k < attacks1.len() && (#[trigger] attacks1[k]).attacker == e)
        <==> (exists|k: int| a0 <= k < attacks2.len() && (#[trigger] attacks2[k]).attacker == e))
        by {
        if exists|k: int| a0 <= k < attacks1.len() && (#[trigger] attacks1[k]).attacker == e {
            let k = choose|k: int|
                a0 <= k < attacks1.len() && (#[trigger] attacks1[k]).attacker == e;
            assert(attacks2[k] == attacks1[k]);
        }
        if exists|k: int| a0 <= k < attacks2.len() && (#[trigger] attacks2[k]).attacker == e {
            let k = choose|k: int|
                a0 <= k < attacks2.len() && (#[trigger] attacks2[k]).attacker == e;
            assert(k < attacks1.len());
            assert(attacks1[k] == attacks2[k]);
        }
    }
}

/// For each live randomly-wandering monster, draw one of the four unit
/// steps from the random stream. If the live player stands on the drawn
/// cell, queue an attack on the player; otherwise queue the move there —
/// whoever else may stand on it, per the message-passing design, where
/// stacking is the movement resolver's concern. Whatever the stream
/// yields, every queued intent is well-formed in the sense of
/// `ai_move_ok`/`ai_attack_ok`, and every wanderer queues exactly one
/// intent: one move, or one attack, never both.
pub fn random_move(
    ecs: &EntityStore,
    buffer: &mut CommandBuffer,
    rng: &mut bracket_lib::random::RandomNumberGenerator,
)
    requires
        ecs.wf(),
    ensures
        final(buffer).moves@.len() >= old(buffer).moves@.len(),
        final(buffer).moves@.subrange(0, old(buffer).moves@.len() as int) == old(buffer).moves@,
        final(buffer).attacks@.len() >= old(buffer).attacks@.len(),
        final(buffer).attacks@.subrange(0, old(buffer).attacks@.len() as int) == old(buffer).attacks@,
        forall|k: int|
            old(buffer).moves@.len() <= k < final(buffer).moves@.len() ==> ai_move_ok(
                *ecs,
                #[trigger] final(buffer).moves@[k],
                true,
            ),
        forall|k: int|
            old(buffer).attacks@.len() <= k < final(buffer).attacks@.len() ==> ai_attack_ok(
                *ecs,
                #[trigger] final(buffer).attacks@[k],
                true,
            ),
        // every wanderer queues exactly one intent
        forall|e: int|
            0 <= e < ecs.entities@.len() && (#[trigger] ecs.entities@[e]).alive
                && ecs.entities@[e].moving_randomly && ecs.entities@[e].position is Some
                ==> wander_outcome(
                old(buffer).moves@.len() as int,
                old(buffer).attacks@.len() as int,
                final(buffer).moves@,
                final(buffer).attacks@,
                e,
            ),
        // and at most one of each kind
        forall|k1: int, k2: int|
            old(buffer).moves@.len() <= k1 < k2 < final(buffer).moves@.len() ==> (#[trigger] final(buffer).moves@[k1]).entity < (#[trigger] final(buffer).moves@[k2]).entity,
        forall|k1: int, k2: int|
            old(buffer).attacks@.len() <= k1 < k2 < final(buffer).attacks@.len()
                ==> (#[trigger] final(buffer).attacks@[k1]).attacker < (#[trigger] final(buffer).attacks@[k2]).attacker,
{
    let ghost m0 = buffer.moves@;
    let ghost a0 = buffer.attacks@;
    let mut e: usize = 0;
    while e < ecs.entities.len()
        invariant
            ecs.wf(),
            e <= ecs.entities@.len(),
            buffer.moves@.len() >= m0.len(),
            buffer.moves@.subrange(0, m0.len() as int) == m0,
            buffer.attacks@.len() >= a0.len(),
            buffer.attacks@.subrange(0, a0.len() as int) == a0,
            forall|k: int|
                m0.len() <= k < buffer.moves@.len() ==> ai_move_ok(
                    *ecs,
                    #[trigger] buffer.moves@[k],
                    true,
                ),
            forall|k: int|
                a0.len() <= k < buffer.attacks@.len() ==> ai_attack_ok(
                    *ecs,
                    #[trigger] buffer.attacks@[k],
                    true,
                ),
            forall|ee: int|
                0 <= ee < e && (#[trigger] ecs.entities@[ee]).alive
                    && ecs.entities@[ee].moving_randomly && ecs.entities@[ee].position is Some
                    ==> wander_outcome(
                    m0.len() as int,
                    a0.len() as int,
                    buffer.moves@,
                    buffer.attacks@,
                    ee,
                ),
            forall|k: int|
                m0.len() <= k < buffer.moves@.len() ==> (#[trigger] buffer.moves@[k]).entity < e,
            forall|k1: int, k2: int|
                m0.len() <= k1 < k2 < buffer.moves@.len() ==> (#[trigger] buffer.moves@[k1]).entity
                    < (#[trigger] buffer.moves@[k2]).entity,
            forall|k: int|
                a0.len() <= k < buffer.attacks@.len() ==> (#[trigger] buffer.attacks@[k]).attacker
                    < e,
            forall|k1: int, k2: int|
                a0.len() <= k1 < k2 < buffer.attacks@.len()
                    ==> (#[trigger] buffer.attacks@[k1]).attacker < (#[trigger] buffer.attacks@[k2]).attacker,
        decreases ecs.entities@.len() - e,
    {
        let mut is_mover = false;
        let mut pos = Point::new(0, 0);
        {
            let ent = &ecs.entities[e];
            if ent.alive && ent.moving_randomly {
                if let Some(p) = ent.position {
                    is_mover = true;
                    pos = p;
                }
            }
        }
        if is_mover {
            let roll = random_range(rng, 0, 4);
            let destination = if roll == 0 {
                Point::new(pos.x - 1, pos.y)
            } else if roll == 1 {
                Point::new(pos.x + 1, pos.y)
            } else if roll == 2 {
                Point::new(pos.x, pos.y - 1)
            } else {
                Point::new(pos.x, pos.y + 1)
            };
            let mut player_here = false;
            let mut player_idx: usize = 0;
            if let Some(pl) = ecs.player {
                let pent = &ecs.entities[pl];
                if pent.alive {
                    if let Some(pp) = pent.position {
                        if pp.x == destination.x && pp.y == destination.y {
                            player_here = true;
                            player_idx = pl;
                        }
                    }
                }
            }
            let ghost moves_pre = buffer.moves@;
            let ghost attacks_pre = buffer.attacks@;
            if player_here {
                buffer.attacks.push(WantsToAttack { attacker: e, victim: player_idx });
                proof {
                    assert(buffer.attacks@.subrange(0, a0.len() as int) =~= attacks_pre.subrange(
                        0,
                        a0.len() as int,
                    ));
                    assert(ai_attack_ok(
                        *ecs,
                        buffer.attacks@[buffer.attacks@.len() - 1],
                        true,
                    ));
                }
            } else {
                buffer.moves.push(WantsToMove { entity: e, destination });
                proof {
                    assert(buffer.moves@.subrange(0, m0.len() as int) =~= moves_pre.subrange(
                        0,
                        m0.len() as int,
                    ));
                    assert(!spec_player_at(*ecs, destination));
                    assert(ai_move_ok(*ecs, buffer.moves@[buffer.moves@.len() - 1], true));
                }
            }
            proof {
                // this wanderer queued exactly one intent
                assert(wander_outcome(
                    m0.len() as int,
                    a0.len() as int,
                    buffer.moves@,
                    buffer.attacks@,
                    e as int,
                )) by {
                    if player_here {
                        assert(buffer.attacks@[buffer.attacks@.len() - 1].attacker == e);
                        if exists|k: int|
                            m0.len() <= k < buffer.moves@.len() && (#[trigger] buffer.moves@[k]).entity
                                == e as int {
                            let k = choose|k: int|
                                m0.len() <= k < buffer.moves@.len()
                                    && (#[trigger] buffer.moves@[k]).entity == e as int;
                            assert(buffer.moves@[k].entity < e);
                        }
                    } else {
                        assert(buffer.moves@[buffer.moves@.len() - 1].entity == e);
                        if exists|k: int|
                            a0.len() <= k < buffer.attacks@.len()
                                && (#[trigger] buffer.attacks@[k]).attacker == e as int {
                            let k = choose|k: int|
                                a0.len() <= k < buffer.attacks@.len()
                                    && (#[trigger] buffer.attacks@[k]).attacker == e as int;
                            assert(buffer.attacks@[k].attacker < e);
                        }
                    }
                }
                // and earlier wanderers' outcomes survive the push
                assert forall|ee: int|
                    0 <= ee < e && (#[trigger] ecs.entities@[ee]).alive
                        && ecs.entities@[ee].moving_randomly
                        && ecs.entities@[ee].position is Some implies wander_outcome(
                    m0.len() as int,
                    a0.len() as int,
                    buffer.moves@,
                    buffer.attacks@,
                    ee,
                ) by {
                    lemma_wander_outcome_extended(
                        m0.len() as int,
                        a0.len() as int,
                        moves_pre,
                        attacks_pre,
                        buffer.moves@,
                        buffer.attacks@,
                        ee,
                    );
                }
            }
        }
        e = e + 1;
    }
}

} // verus!
