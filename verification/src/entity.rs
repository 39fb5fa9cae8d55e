//! The entity arena: slots that hold what the server simulates, addressed by
//! generational handles. A handle names one slot for one generation of it, so
//! a handle to a despawned entity never reaches the entity that took its
//! place.

use vstd::prelude::*;

use crate::motion::{PlayerState, Transform, Velocity};
use crate::protocol::CollectibleInfo;

verus! {

/// A handle to one slot of the arena, valid for one generation of that slot.
#[derive(Clone, Copy, Debug, PartialEq, Eq, Structural)]
pub struct Entity {
    pub index: usize,
    pub generation: u32,
}

/// Marks an entity as the player of one session.
#[derive(Clone, Copy, Debug, PartialEq, Eq, Structural)]
pub struct Player {
    pub client_id: u64,
}

/// Marks an entity as something that can be picked up.
#[derive(Clone, Copy, Debug, PartialEq, Eq, Structural)]
pub struct BoxCollectable;

/// The identifier of a collectible, unique while the server runs.
#[derive(Clone, Copy, Debug, PartialEq, Eq, Structural)]
pub struct CollectibleId(pub u64);

/// What an entity is made of.
#[derive(Clone, Copy, Debug, PartialEq, Eq)]
pub enum Body {
    /// The player of a session, with the input frame that was applied last
    /// and has not been reported back to its client yet.
    Player { player: Player, transform: Transform, velocity: Velocity, frame: Option<u32> },
    /// A collectible waiting to be picked up.
    Collectible { marker: BoxCollectable, id: CollectibleId, transform: Transform },
}

/// One slot of the arena.
#[derive(Clone, Copy, Debug, PartialEq, Eq)]
pub struct Slot {
    pub generation: u32,
    pub body: Option<Body>,
}

/// The arena of entities.
pub struct World {
    slots: Vec<Slot>,
}

impl Body {
    /// The simulated state of a player body.
    pub open spec fn player_state(self) -> PlayerState {
        PlayerState {
            client_id: self->player.client_id,
            transform: self->Player_transform,
            velocity: self->velocity,
        }
    }

    /// What clients are told of a collectible body.
    pub open spec fn collectible_info(self) -> CollectibleInfo {
        CollectibleInfo { id: self->id.0, position: self->Collectible_transform.translation }
    }
}

impl Slot {
    /// Whether the slot holds a collectible.
    pub open spec fn holds_collectible(self) -> bool {
        self.body is Some && self.body->0 is Collectible
    }

    /// Whether the slot holds a player.
    pub open spec fn holds_player(self) -> bool {
        self.body is Some && self.body->0 is Player
    }

    /// Whether a new entity may take this slot: it is empty and has a
    /// generation left.
    pub open spec fn reusable(self) -> bool {
        self.body is None && self.generation < u32::MAX
    }

    /// The slot after its entity was despawned: empty, and in its next
    /// generation where there is one.
    pub open spec fn vacated(self) -> Slot {
        Slot {
            generation: if self.generation < u32::MAX {
                (self.generation + 1) as u32
            } else {
                self.generation
            },
            body: None,
        }
    }
}

/// The first slot from `start` on that a new entity may take, or the number
/// of slots where there is none.
pub open spec fn first_reusable(slots: Seq<Slot>, start: int) -> int
    decreases slots.len() - start,
{
    if start < 0 || start >= slots.len() {
        slots.len() as int
    } else if slots[start].reusable() {
        start
    } else {
        first_reusable(slots, start + 1)
    }
}

/// `first_reusable` names a slot that can be taken, or the end.
pub proof fn lemma_first_reusable(slots: Seq<Slot>, start: int)
    requires
        0 <= start <= slots.len(),
    ensures
        start <= first_reusable(slots, start) <= slots.len(),
        first_reusable(slots, start) < slots.len() ==> slots[first_reusable(
            slots,
            start,
        )].reusable(),
        forall|i: int| start <= i < first_reusable(slots, start) ==> !(#[trigger] slots[i]).reusable(),
    decreases slots.len() - start,
{
    if start < slots.len() && !slots[start].reusable() {
        lemma_first_reusable(slots, start + 1);
    }
}

/// Whether `entity` names an entity that exists in `slots`.
pub open spec fn live_in(slots: Seq<Slot>, entity: Entity) -> bool {
    &&& entity.index < slots.len()
    &&& slots[entity.index as int].generation == entity.generation
    &&& slots[entity.index as int].body is Some
}

/// What the live entity `entity` is made of.
pub open spec fn body_in(slots: Seq<Slot>, entity: Entity) -> Body {
    slots[entity.index as int].body->0
}

/// The handle to the entity in slot `index`.
pub open spec fn handle_in(slots: Seq<Slot>, index: int) -> Entity {
    Entity { index: index as usize, generation: slots[index].generation }
}

/// The handle that the next entity spawned in `slots` gets.
pub open spec fn next_entity_in(slots: Seq<Slot>) -> Entity {
    let index = first_reusable(slots, 0);
    Entity {
        index: index as usize,
        generation: if index < slots.len() {
            slots[index].generation
        } else {
            0
        },
    }
}

/// The slots after an entity made of `body` was spawned.
pub open spec fn spawned_in(slots: Seq<Slot>, body: Body) -> Seq<Slot> {
    let index = first_reusable(slots, 0);
    let slot = Slot { generation: next_entity_in(slots).generation, body: Some(body) };
    if index < slots.len() {
        slots.update(index, slot)
    } else {
        slots.push(slot)
    }
}

/// The slots after `entity` was despawned.
pub open spec fn despawned_in(slots: Seq<Slot>, entity: Entity) -> Seq<Slot> {
    if live_in(slots, entity) {
        slots.update(entity.index as int, slots[entity.index as int].vacated())
    } else {
        slots
    }
}

/// The slots after the live entity `entity` was given another body.
pub open spec fn replaced_in(slots: Seq<Slot>, entity: Entity, body: Body) -> Seq<Slot> {
    if live_in(slots, entity) {
        slots.update(entity.index as int, Slot { generation: entity.generation, body: Some(body) })
    } else {
        slots
    }
}

/// Whether the entity that `entity` named is gone for good: its slot has
/// moved on to a later generation, or has used up its last one.
pub open spec fn expired(slots: Seq<Slot>, entity: Entity) -> bool {
    &&& entity.index < slots.len()
    &&& entity.generation < slots[entity.index as int].generation || (slots[entity.index as int].generation
        == u32::MAX && slots[entity.index as int].body is None)
}

/// Despawning an entity invalidates every copy of its handle: the handle
/// names no entity afterwards.
pub proof fn lemma_despawn_expires(slots: Seq<Slot>, entity: Entity)
    requires
        live_in(slots, entity),
    ensures
        expired(despawned_in(slots, entity), entity),
        !live_in(despawned_in(slots, entity), entity),
{
}

/// A handle that is gone for good names no entity, and stays gone whatever
/// is spawned, despawned or replaced afterwards: a slot that is taken again
/// is taken in a later generation.
pub proof fn lemma_expired_stays_expired(slots: Seq<Slot>, entity: Entity, other: Entity, body: Body)
    requires
        expired(slots, entity),
    ensures
        !live_in(slots, entity),
        expired(spawned_in(slots, body), entity),
        expired(despawned_in(slots, other), entity),
        expired(replaced_in(slots, other, body), entity),
{
    lemma_first_reusable(slots, 0);
}

impl View for World {
    type V = Seq<Slot>;

    closed spec fn view(&self) -> Seq<Slot> {
        self.slots@
    }
}

impl World {
    /// Whether `entity` names an entity that exists.
    pub open spec fn is_live(&self, entity: Entity) -> bool {
        live_in(self@, entity)
    }

    /// What the live entity `entity` is made of.
    pub open spec fn body(&self, entity: Entity) -> Body {
        body_in(self@, entity)
    }

    /// The handle to the entity in slot `index`.
    pub open spec fn handle(&self, index: int) -> Entity {
        handle_in(self@, index)
    }

    /// The handle that the next spawned entity gets.
    pub open spec fn next_entity(&self) -> Entity {
        next_entity_in(self@)
    }

    /// The slots after an entity made of `body` was spawned.
    pub open spec fn after_spawn(&self, body: Body) -> Seq<Slot> {
        spawned_in(self@, body)
    }

    /// The arena never has more slots than a handle can address.
    pub proof fn lemma_addressable(&self)
        ensures
            self@.len() <= usize::MAX,
    {
        assert(self.slots.len() == self.slots@.len());
    }

    /// An arena without entities.
    pub fn new() -> (world: World)
        ensures
            world@.len() == 0,
    {
        World { slots: Vec::new() }
    }

    /// The number of slots, taken or not.
    pub fn len(&self) -> (n: usize)
        ensures
            n == self@.len(),
    {
        self.slots.len()
    }

    /// The slot at `index`.
    pub fn slot(&self, index: usize) -> (slot: Slot)
        requires
            index < self@.len(),
        ensures
            slot == self@[index as int],
    {
        self.slots[index]
    }

    /// What `entity` is made of, if it exists.
    pub fn get(&self, entity: Entity) -> (found: Option<Body>)
        ensures
            found == (if self.is_live(entity) {
                Some(self.body(entity))
            } else {
                None
            }),
    {
        if entity.index < self.slots.len() {
            let slot = self.slots[entity.index];
            if slot.generation == entity.generation {
                slot.body
            } else {
                None
            }
        } else {
            None
        }
    }

    /// Spawns an entity made of `body` in the first slot that can be taken,
    /// or in a new slot at the end, and hands back its handle. Every other
    /// slot stays as it is.
    pub fn spawn(&mut self, body: Body) -> (entity: Entity)
        ensures
            entity == old(self).next_entity(),
            final(self)@ == old(self).after_spawn(body),
            !old(self).is_live(entity),
            final(self).is_live(entity),
            final(self).body(entity) == body,
            entity.index <= old(self)@.len(),
            entity.index < old(self)@.len() ==> old(self)@[entity.index as int].body is None,
    {
        let mut i: usize = 0;
        proof {
            lemma_first_reusable(self.slots@, 0);
        }
        while i < self.slots.len()
            invariant
                i <= self.slots.len(),
                self.slots@ == old(self).slots@,
                first_reusable(self.slots@, i as int) == first_reusable(self.slots@, 0),
            decreases self.slots.len() - i,
        {
            let slot = self.slots[i];
            if slot.body.is_none() && slot.generation < u32::MAX {
                let entity = Entity { index: i, generation: slot.generation };
                self.slots[i] = Slot { generation: slot.generation, body: Some(body) };
                return entity;
            }
            i = i + 1;
        }
        self.slots.push(Slot { generation: 0, body: Some(body) });
        Entity { index: i, generation: 0 }
    }

    /// Despawns `entity` and hands back what it was made of; a handle to no
    /// entity changes nothing. The slot moves on to its next generation, so
    /// the handle stays dead.
    pub fn despawn(&mut self, entity: Entity) -> (removed: Option<Body>)
        ensures
            removed == (if old(self).is_live(entity) {
                Some(old(self).body(entity))
            } else {
                None
            }),
            final(self)@ == despawned_in(old(self)@, entity),
            !final(self).is_live(entity),
    {
        if entity.index < self.slots.len() {
            let slot = self.slots[entity.index];
            if slot.generation == entity.generation && slot.body.is_some() {
                let generation: u32 = if slot.generation < u32::MAX {
                    slot.generation + 1
                } else {
                    slot.generation
                };
                self.slots[entity.index] = Slot { generation, body: None };
                return slot.body;
            }
        }
        None
    }

    /// Replaces what the live entity `entity` is made of and says whether it
    /// did; a handle to no entity changes nothing.
    pub fn replace(&mut self, entity: Entity, body: Body) -> (replaced: bool)
        ensures
            replaced == old(self).is_live(entity),
            final(self)@ == replaced_in(old(self)@, entity, body),
    {
        if entity.index < self.slots.len() {
            let slot = self.slots[entity.index];
            if slot.generation == entity.generation && slot.body.is_some() {
                self.slots[entity.index] = Slot { generation: slot.generation, body: Some(body) };
                return true;
            }
        }
        false
    }
}

} // verus!
