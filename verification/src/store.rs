use vstd::prelude::*;

use crate::components::{FieldOfView, Health, Name, Render, WantsToAttack, WantsToMove};
use crate::map::spec_in_bounds;
use crate::point::Point;

verus! {

/// One entity's component record. `alive` is false once the entity has been
/// destroyed; a destroyed entity's slot is never reused. The boolean fields
/// are the zero-sized capability tags of the design: player, enemy, amulet,
/// and the two monster AI strategies.
pub struct EntityData {
    pub alive: bool,
    pub position: Option<Point>,
    pub render: Option<Render>,
    pub health: Option<Health>,
    pub name: Option<Name>,
    pub fov: Option<FieldOfView>,
    pub is_player: bool,
    pub is_enemy: bool,
    pub is_amulet: bool,
    pub moving_randomly: bool,
    pub chasing_player: bool,
}

/// The entity-component store. Entities are indices into `entities`. The
/// player and the amulet, whose presence the rules depend on, are held as
/// distinguished references rather than found by query.
pub struct EntityStore {
    pub entities: Vec<EntityData>,
    pub player: Option<usize>,
    pub amulet: Option<usize>,
}

impl EntityStore {
    /// Well-formedness:
    /// - the player reference names a live, tagged entity with position and
    ///   health, and no other live entity carries the player tag;
    /// - the amulet reference names the tagged amulet entity, which has a
    ///   position (the goal's cell matters even to a store that has had the
    ///   amulet destroyed by force);
    /// - every attached position is on the grid;
    /// - every health never exceeds its maximum;
    /// - every sight radius is within the supported range.
    pub open spec fn wf(self) -> bool {
        &&& (match self.player {
            Some(p) => {
                &&& p < self.entities@.len()
                &&& self.entities@[p as int].alive
                &&& self.entities@[p as int].is_player
                &&& self.entities@[p as int].position is Some
                &&& self.entities@[p as int].health is Some
            },
            None => true,
        })
        &&& (forall|i: int|
            0 <= i < self.entities@.len() && (#[trigger] self.entities@[i]).alive
                && self.entities@[i].is_player ==> self.player == Some(i as usize))
        &&& (match self.amulet {
            Some(a) => {
                &&& a < self.entities@.len()
                &&& self.entities@[a as int].is_amulet
                &&& self.entities@[a as int].position is Some
            },
            None => true,
        })
        &&& (forall|i: int|
            0 <= i < self.entities@.len() && (#[trigger] self.entities@[i]).position is Some
                ==> spec_in_bounds(self.entities@[i].position->Some_0))
        &&& (forall|i: int|
            0 <= i < self.entities@.len() && (#[trigger] self.entities@[i]).health is Some
                ==> self.entities@[i].health->Some_0.current <= self.entities@[i].health->Some_0.max)
        &&& (forall|i: int|
            0 <= i < self.entities@.len() && (#[trigger] self.entities@[i]).fov is Some ==> 0
                <= self.entities@[i].fov->Some_0.radius <= 1000)
    }

    /// An empty store.
    pub fn new() -> (s: EntityStore)
        ensures
            s.wf(),
            s.entities@.len() == 0,
            s.player is None,
            s.amulet is None,
    {
        EntityStore { entities: Vec::new(), player: None, amulet: None }
    }
}

/// The deferred-intent queues: movement and attack messages appended by the
/// input and AI systems within a stage, and consumed, applied or not, by the
/// resolution systems at the following stage.
pub struct CommandBuffer {
    pub moves: Vec<WantsToMove>,
    pub attacks: Vec<WantsToAttack>,
}

impl CommandBuffer {
    /// Empty queues.
    pub fn new() -> (b: CommandBuffer)
        ensures
            b.moves@.len() == 0,
            b.attacks@.len() == 0,
    {
        CommandBuffer { moves: Vec::new(), attacks: Vec::new() }
    }
}

/// No queued move names the entity `e`.
pub open spec fn no_move_for(q: Seq<WantsToMove>, e: int) -> bool {
    forall|k: int| 0 <= k < q.len() ==> (#[trigger] q[k]).entity != e
}

/// The queue names the entity `e` exactly once, at position `k`.
pub open spec fn unique_move_at(q: Seq<WantsToMove>, e: int, k: int) -> bool {
    &&& 0 <= k < q.len()
    &&& q[k].entity == e
    &&& forall|k2: int| 0 <= k2 < q.len() && k2 != k ==> (#[trigger] q[k2]).entity != e
}

/// The number of attacks among the first `n` queued that strike victim `v`.
pub open spec fn attacks_on_upto(q: Seq<WantsToAttack>, v: int, n: int) -> int
    decreases n,
{
    if n <= 0 {
        0
    } else {
        attacks_on_upto(q, v, n - 1) + if q[n - 1].victim == v {
            1int
        } else {
            0int
        }
    }
}

/// The number of queued attacks that strike victim `v`.
pub open spec fn attacks_on(q: Seq<WantsToAttack>, v: int) -> int {
    attacks_on_upto(q, v, q.len() as int)
}

/// Attack counts are never negative and never exceed the queue length.
pub proof fn lemma_attacks_on_upto_bounds(q: Seq<WantsToAttack>, v: int, n: int)
    requires
        0 <= n <= q.len(),
    ensures
        0 <= attacks_on_upto(q, v, n) <= n,
    decreases n,
{
    if n > 0 {
        lemma_attacks_on_upto_bounds(q, v, n - 1);
    }
}

} // verus!
