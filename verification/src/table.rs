//! The identifier tables: hash maps from a 64-bit identifier to the entity
//! that carries it.

use bevy_platform::collections::HashMap;
use bevy_platform::hash::FixedHasher;
use vstd::prelude::*;

use crate::entity::Entity;

verus! {

/// `bevy_platform::collections::HashMap`, the hash map with a fixed hasher.
/// Nothing is known of a map but what `table_entries` names.
#[verifier::external_type_specification]
#[verifier::external_body]
#[verifier::reject_recursive_types(K)]
#[verifier::reject_recursive_types(V)]
#[verifier::reject_recursive_types(S)]
pub struct ExHashMap<K, V, S>(HashMap<K, V, S>);

/// `bevy_platform::hash::FixedHasher`, the hasher that the tables are built
/// with. It is only named, never used.
#[verifier::external_type_specification]
#[verifier::external_body]
pub struct ExFixedHasher(FixedHasher);

/// The entries that a table holds: the keys that were inserted and not
/// removed since, each with the entity inserted under it last.
pub uninterp spec fn table_entries(table: HashMap<u64, Entity>) -> Map<u64, Entity>;

/// `HashMap::new`: a table without entries.
#[verifier::external_body]
pub(crate) fn table_new() -> (fresh: HashMap<u64, Entity>)
    ensures
        table_entries(fresh).dom() == Set::<u64>::empty(),
{
    HashMap::new()
}

/// `HashMap::get`: the entity stored under `key`, if there is one.
#[verifier::external_body]
pub(crate) fn table_get(table: &HashMap<u64, Entity>, key: u64) -> (found: Option<Entity>)
    ensures
        found == (if table_entries(*table).contains_key(key) {
            Some(table_entries(*table)[key])
        } else {
            None::<Entity>
        }),
{
    table.get(&key).copied()
}

/// `HashMap::insert`: stores `entity` under `key` and hands back the entity
/// that was stored there before, if any.
#[verifier::external_body]
pub(crate) fn table_insert(table: &mut HashMap<u64, Entity>, key: u64, entity: Entity) -> (previous: Option<Entity>)
    ensures
        table_entries(*final(table)) == table_entries(*old(table)).insert(key, entity),
        previous == (if table_entries(*old(table)).contains_key(key) {
            Some(table_entries(*old(table))[key])
        } else {
            None
        }),
{
    table.insert(key, entity)
}

/// `HashMap::remove`: takes the entry under `key` out and hands back its
/// entity, if there was one.
#[verifier::external_body]
pub(crate) fn table_remove(table: &mut HashMap<u64, Entity>, key: u64) -> (removed: Option<Entity>)
    ensures
        table_entries(*final(table)) == table_entries(*old(table)).remove(key),
        removed == (if table_entries(*old(table)).contains_key(key) {
            Some(table_entries(*old(table))[key])
        } else {
            None
        }),
{
    table.remove(&key)
}

/// The table from a session's client identifier to the entity of its player.
pub struct PlayerEntityMap(pub HashMap<u64, Entity>);

/// The table from a collectible's identifier to its entity.
pub struct CollectibleEntityMap(pub HashMap<u64, Entity>);

impl View for PlayerEntityMap {
    type V = Map<u64, Entity>;

    open spec fn view(&self) -> Map<u64, Entity> {
        table_entries(self.0)
    }
}

impl View for CollectibleEntityMap {
    type V = Map<u64, Entity>;

    open spec fn view(&self) -> Map<u64, Entity> {
        table_entries(self.0)
    }
}

/// What a lookup of `key` in `entries` finds.
pub open spec fn lookup(entries: Map<u64, Entity>, key: u64) -> Option<Entity> {
    if entries.contains_key(key) {
        Some(entries[key])
    } else {
        None
    }
}

impl PlayerEntityMap {
    /// A table without sessions.
    pub fn new() -> (table: PlayerEntityMap)
        ensures
            table@ == Map::<u64, Entity>::empty(),
    {
        let table = PlayerEntityMap(table_new());
        assert(table@ =~= Map::<u64, Entity>::empty());
        table
    }

    /// The entity of the player of `client_id`.
    pub fn get(&self, client_id: u64) -> (found: Option<Entity>)
        ensures
            found == lookup(self@, client_id),
    {
        table_get(&self.0, client_id)
    }

    /// Binds `client_id` to `entity` and hands back the entity it was bound
    /// to before.
    pub fn insert(&mut self, client_id: u64, entity: Entity) -> (previous: Option<Entity>)
        ensures
            final(self)@ == old(self)@.insert(client_id, entity),
            previous == lookup(old(self)@, client_id),
    {
        table_insert(&mut self.0, client_id, entity)
    }

    /// Unbinds `client_id` and hands back the entity it was bound to.
    pub fn remove(&mut self, client_id: u64) -> (removed: Option<Entity>)
        ensures
            final(self)@ == old(self)@.remove(client_id),
            removed == lookup(old(self)@, client_id),
    {
        table_remove(&mut self.0, client_id)
    }
}

impl CollectibleEntityMap {
    /// A table without collectibles.
    pub fn new() -> (table: CollectibleEntityMap)
        ensures
            table@ == Map::<u64, Entity>::empty(),
    {
        let table = CollectibleEntityMap(table_new());
        assert(table@ =~= Map::<u64, Entity>::empty());
        table
    }

    /// The entity of the collectible `id`.
    pub fn get(&self, id: u64) -> (found: Option<Entity>)
        ensures
            found == lookup(self@, id),
    {
        table_get(&self.0, id)
    }

    /// Binds `id` to `entity` and hands back the entity it was bound to
    /// before.
    pub fn insert(&mut self, id: u64, entity: Entity) -> (previous: Option<Entity>)
        ensures
            final(self)@ == old(self)@.insert(id, entity),
            previous == lookup(old(self)@, id),
    {
        table_insert(&mut self.0, id, entity)
    }

    /// Unbinds `id` and hands back the entity it was bound to.
    pub fn remove(&mut self, id: u64) -> (removed: Option<Entity>)
        ensures
            final(self)@ == old(self)@.remove(id),
            removed == lookup(old(self)@, id),
    {
        table_remove(&mut self.0, id)
    }
}

} // verus!
