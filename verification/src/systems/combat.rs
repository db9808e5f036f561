use vstd::prelude::*;

use crate::components::Health;
use crate::store::{attacks_on, attacks_on_upto, CommandBuffer, EntityData, EntityStore};

verus! {

/// All fields except health and `alive` agree.
pub open spec fn same_except_health_alive(a: EntityData, b: EntityData) -> bool {
    &&& b.position == a.position
    &&& b.render == a.render
    &&& b.name == a.name
    &&& b.fov == a.fov
    &&& b.is_player == a.is_player
    &&& b.is_enemy == a.is_enemy
    &&& b.is_amulet == a.is_amulet
    &&& b.moving_randomly == a.moving_randomly
    &&& b.chasing_player == a.chasing_player
}

/// `current` lowered by `n` hits, stopping at the representation floor.
pub open spec fn hit_points_after(cur: int, n: int) -> int {
    if cur - n >= i32::MIN {
        cur - n
    } else {
        i32::MIN as int
    }
}

/// Resolve every queued attack and consume the whole queue. Each attack
/// lowers its victim's hit points by one unit; destruction is deferred to
/// the end of the drain, as a flush would apply it, so a victim of several
/// attacks in one stage takes them all. A victim whose hit points end below
/// one is destroyed unless it is the player. Attacks naming destroyed or
/// health-less entities change nothing.
pub fn combat(ecs: &mut EntityStore, buffer: &mut CommandBuffer)
    requires
        old(ecs).wf(),
    ensures
        final(ecs).wf(),
        final(buffer).attacks@.len() == 0,
        final(buffer).moves == old(buffer).moves,
        final(ecs).entities@.len() == old(ecs).entities@.len(),
        final(ecs).player == old(ecs).player,
        final(ecs).amulet == old(ecs).amulet,
        // hit points never rise during combat resolution
        forall|v: int|
            0 <= v < old(ecs).entities@.len() && (#[trigger] old(ecs).entities@[v]).health is Some
                && final(ecs).entities@[v].health is Some
                ==> final(ecs).entities@[v].health->Some_0.current
                <= old(ecs).entities@[v].health->Some_0.current,
        forall|v: int|
            0 <= v < old(ecs).entities@.len() ==> {
                let e = #[trigger] old(ecs).entities@[v];
                let n = attacks_on(old(buffer).attacks@, v);
                if e.alive && e.health is Some && n > 0 {
                    let ncur = hit_points_after(e.health->Some_0.current as int, n);
                    &&& same_except_health_alive(e, final(ecs).entities@[v])
                    &&& final(ecs).entities@[v].health == Some(
                        Health { current: ncur as i32, max: e.health->Some_0.max },
                    )
                    &&& final(ecs).entities@[v].alive == !(ncur < 1 && !e.is_player)
                } else {
                    final(ecs).entities@[v] == e
                }
            },
{
    let ghost q = old(buffer).attacks@;
    let mut i: usize = 0;
    while i < buffer.attacks.len()
        invariant
            ecs.wf(),
            buffer.attacks@ == q,
            buffer.moves == old(buffer).moves,
            i <= q.len(),
            ecs.entities@.len() == old(ecs).entities@.len(),
            ecs.player == old(ecs).player,
            ecs.amulet == old(ecs).amulet,
            forall|v: int|
                0 <= v < old(ecs).entities@.len() ==> {
                    let e = #[trigger] old(ecs).entities@[v];
                    let c = attacks_on_upto(q, v, i as int);
                    if e.alive && e.health is Some && c > 0 {
                        let ncur = hit_points_after(e.health->Some_0.current as int, c);
                        &&& same_except_health_alive(e, ecs.entities@[v])
                        &&& ecs.entities@[v].alive == e.alive
                        &&& ecs.entities@[v].health == Some(
                            Health { current: ncur as i32, max: e.health->Some_0.max },
                        )
                    } else {
                        ecs.entities@[v] == e
                    }
                },
        decreases q.len() - i,
    {
        let victim = buffer.attacks[i].victim;
        proof {
            crate::store::lemma_attacks_on_upto_bounds(q, victim as int, i as int);
            assert forall|v: int| v != victim as int implies attacks_on_upto(q, v, i + 1)
                == attacks_on_upto(q, v, i as int) by {}
        }
        if victim < ecs.entities.len() {
            let mut hit = false;
            let mut cur: i32 = 0;
            let mut mx: i32 = 0;
            {
                let ent = &ecs.entities[victim];
                if ent.alive {
                    if let Some(h) = &ent.health {
                        hit = true;
                        cur = h.current;
                        mx = h.max;
                    }
                }
            }
            if hit {
                let newcur = if cur > i32::MIN {
                    cur - 1
                } else {
                    cur
                };
                ecs.entities[victim].health = Some(Health { current: newcur, max: mx });
            }
        }
        i = i + 1;
    }
    let ghost mid = ecs.entities@;
    let mut j: usize = 0;
    while j < buffer.attacks.len()
        invariant
            ecs.wf(),
            buffer.attacks@ == q,
            buffer.moves == old(buffer).moves,
            j <= q.len(),
            ecs.entities@.len() == mid.len(),
            ecs.player == old(ecs).player,
            ecs.amulet == old(ecs).amulet,
            forall|v: int|
                0 <= v < mid.len() ==> {
                    let e = #[trigger] mid[v];
                    if attacks_on_upto(q, v, j as int) > 0 && e.alive && e.health is Some
                        && e.health->Some_0.current < 1 && !e.is_player {
                        !ecs.entities@[v].alive && crate::systems::collisions::same_except_alive(
                            e,
                            ecs.entities@[v],
                        )
                    } else {
                        ecs.entities@[v] == e
                    }
                },
        decreases q.len() - j,
    {
        let victim = buffer.attacks[j].victim;
        let ghost ents_pre = ecs.entities@;
        proof {
            crate::store::lemma_attacks_on_upto_bounds(q, victim as int, j as int);
            assert forall|v: int| v != victim as int implies attacks_on_upto(q, v, j + 1)
                == attacks_on_upto(q, v, j as int) by {}
            assert(attacks_on_upto(q, victim as int, j + 1) == attacks_on_upto(
                q,
                victim as int,
                j as int,
            ) + 1);
        }
        if victim < ecs.entities.len() {
            let mut destroy = false;
            {
                let ent = &ecs.entities[victim];
                if ent.alive && !ent.is_player {
                    if let Some(h) = &ent.health {
                        if h.current < 1 {
                            destroy = true;
                        }
                    }
                }
            }
            if destroy {
                proof {
                    assert(ents_pre[victim as int] == mid[victim as int]);
                }
                ecs.entities[victim].alive = false;
            }
        }
        proof {
            assert forall|v: int| 0 <= v < mid.len() implies {
                let e = #[trigger] mid[v];
                if attacks_on_upto(q, v, j + 1) > 0 && e.alive && e.health is Some
                    && e.health->Some_0.current < 1 && !e.is_player {
                    !ecs.entities@[v].alive && crate::systems::collisions::same_except_alive(
                        e,
                        ecs.entities@[v],
                    )
                } else {
                    ecs.entities@[v] == e
                }
            } by {
                if v != victim as int {
                    assert(ecs.entities@[v] == ents_pre[v]);
                    assert(attacks_on_upto(q, v, j + 1) == attacks_on_upto(q, v, j as int));
                } else {
                    let e = mid[v];
                    if attacks_on_upto(q, v, j as int) > 0 && e.alive && e.health is Some
                        && e.health->Some_0.current < 1 && !e.is_player {
                        assert(!ents_pre[v].alive);
                        assert(crate::systems::collisions::same_except_alive(e, ents_pre[v]));
                        assert(ecs.entities@[v] == ents_pre[v]);
                        assert(crate::systems::collisions::same_except_alive(
                            e,
                            ecs.entities@[v],
                        ));
                    } else if e.alive && e.health is Some && e.health->Some_0.current < 1
                        && !e.is_player {
                        assert(ents_pre[v] == e);
                        assert(!ecs.entities@[v].alive);
                        assert(crate::systems::collisions::same_except_alive(
                            e,
                            ecs.entities@[v],
                        ));
                    } else {
                        assert(ents_pre[v] == e);
                        assert(ecs.entities@[v] == e);
                    }
                }
            }
        }
        j = j + 1;
    }
    buffer.attacks = Vec::new();
    proof {
        assert forall|v: int| 0 <= v < old(ecs).entities@.len() implies {
            let e = #[trigger] old(ecs).entities@[v];
            let n = attacks_on(q, v);
            if e.alive && e.health is Some && n > 0 {
                let ncur = hit_points_after(e.health->Some_0.current as int, n);
                &&& same_except_health_alive(e, ecs.entities@[v])
                &&& ecs.entities@[v].health == Some(
                    Health { current: ncur as i32, max: e.health->Some_0.max },
                )
                &&& ecs.entities@[v].alive == !(ncur < 1 && !e.is_player)
            } else {
                ecs.entities@[v] == e
            }
        } by {
            crate::store::lemma_attacks_on_upto_bounds(q, v, q.len() as int);
        }
    }
}

} // verus!
