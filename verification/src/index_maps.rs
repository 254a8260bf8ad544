//! The insertion-ordered maps of a room, from the `indexmap` crate.

use indexmap::IndexMap;
use vstd::prelude::*;
use crate::entries::{has_key, index_of, lookup, swap_remove, upsert};
use crate::types::{ClientId, EntityId};
use crate::room::{Client, Entity};

verus! {

#[verifier::external_type_specification]
#[verifier::external_body]
#[verifier::reject_recursive_types(K)]
#[verifier::reject_recursive_types(V)]
#[verifier::reject_recursive_types(S)]
pub struct ExIndexMap<K, V, S>(IndexMap<K, V, S>);

/// The clients of a room, keyed by id, in the order they joined.
pub type ClientMap = IndexMap<ClientId, Client>;

/// The entities of a room, keyed by id, in the order they were announced.
pub type EntityMap = IndexMap<EntityId, Entity>;

/// The pairs of a client map, in the map's order.
pub uninterp spec fn client_entries(m: ClientMap) -> Seq<(ClientId, Client)>;

/// `IndexMap::new`: an empty map.
#[verifier::external_body]
pub(crate) fn client_map_new() -> (r: ClientMap)
    ensures
        client_entries(r).len() == 0,
{
    IndexMap::new()
}

/// `IndexMap::index_mut` by key: the value stored under `k`, to be changed in place.
#[verifier::external_body]
pub(crate) fn client_map_value_mut<'a>(m: &'a mut ClientMap, k: &ClientId) -> (r: &'a mut Client)
    requires
        has_key(client_entries(*old(m)), *k),
    ensures
        *r == lookup(client_entries(*old(m)), *k),
        client_entries(*final(m)) == client_entries(*old(m)).update(
            index_of(client_entries(*old(m)), *k),
            (*k, *final(r)),
        ),
{
    &mut m[k]
}

/// `IndexMap::len`.
#[verifier::external_body]
pub(crate) fn client_map_len(m: &ClientMap) -> (r: usize)
    ensures
        r == client_entries(*m).len(),
{
    m.len()
}

/// `IndexMap::insert`: an existing key keeps its place and takes the new value,
/// whose predecessor comes back; a new key goes last.
#[verifier::external_body]
pub(crate) fn client_map_insert(m: &mut ClientMap, k: ClientId, v: Client) -> (r: Option<Client>)
    ensures
        client_entries(*final(m)) == upsert(client_entries(*old(m)), k, v),
        r is Some == has_key(client_entries(*old(m)), k),
        r matches Some(x) ==> x == lookup(client_entries(*old(m)), k),
{
    m.insert(k, v)
}

/// `IndexMap::swap_remove`: the pair under `k` leaves and the last pair takes its
/// place; its value comes back.
#[verifier::external_body]
pub(crate) fn client_map_swap_remove(m: &mut ClientMap, k: &ClientId) -> (r: Option<Client>)
    ensures
        client_entries(*final(m)) == swap_remove(client_entries(*old(m)), *k),
        r is Some == has_key(client_entries(*old(m)), *k),
        r matches Some(x) ==> x == lookup(client_entries(*old(m)), *k),
{
    m.swap_remove(k)
}

/// `IndexMap::get`.
#[verifier::external_body]
pub(crate) fn client_map_get<'a>(m: &'a ClientMap, k: &ClientId) -> (r: Option<&'a Client>)
    ensures
        r is Some == has_key(client_entries(*m), *k),
        r matches Some(x) ==> *x == lookup(client_entries(*m), *k),
{
    m.get(k)
}

/// `IndexMap::index` by position.
#[verifier::external_body]
pub(crate) fn client_map_at<'a>(m: &'a ClientMap, i: usize) -> (r: &'a Client)
    requires
        i < client_entries(*m).len(),
    ensures
        *r == client_entries(*m)[i as int].1,
{
    &m[i]
}

/// The pairs of an entity map, in the map's order.
pub uninterp spec fn entity_entries(m: EntityMap) -> Seq<(EntityId, Entity)>;

/// `IndexMap::new`: an empty map.
#[verifier::external_body]
pub(crate) fn entity_map_new() -> (r: EntityMap)
    ensures
        entity_entries(r).len() == 0,
{
    IndexMap::new()
}

/// `IndexMap::len`.
#[verifier::external_body]
pub(crate) fn entity_map_len(m: &EntityMap) -> (r: usize)
    ensures
        r == entity_entries(*m).len(),
{
    m.len()
}

/// `IndexMap::insert`: an existing key keeps its place and takes the new value,
/// whose predecessor comes back; a new key goes last.
#[verifier::external_body]
pub(crate) fn entity_map_insert(m: &mut EntityMap, k: EntityId, v: Entity) -> (r: Option<Entity>)
    ensures
        entity_entries(*final(m)) == upsert(entity_entries(*old(m)), k, v),
        r is Some == has_key(entity_entries(*old(m)), k),
        r matches Some(x) ==> x == lookup(entity_entries(*old(m)), k),
{
    m.insert(k, v)
}

/// `IndexMap::swap_remove`: the pair under `k` leaves and the last pair takes its
/// place; its value comes back.
#[verifier::external_body]
pub(crate) fn entity_map_swap_remove(m: &mut EntityMap, k: &EntityId) -> (r: Option<Entity>)
    ensures
        entity_entries(*final(m)) == swap_remove(entity_entries(*old(m)), *k),
        r is Some == has_key(entity_entries(*old(m)), *k),
        r matches Some(x) ==> x == lookup(entity_entries(*old(m)), *k),
{
    m.swap_remove(k)
}

/// `IndexMap::get`.
#[verifier::external_body]
pub(crate) fn entity_map_get<'a>(m: &'a EntityMap, k: &EntityId) -> (r: Option<&'a Entity>)
    ensures
        r is Some == has_key(entity_entries(*m), *k),
        r matches Some(x) ==> *x == lookup(entity_entries(*m), *k),
{
    m.get(k)
}

/// `IndexMap::contains_key`.
#[verifier::external_body]
pub(crate) fn entity_map_contains_key(m: &EntityMap, k: &EntityId) -> (r: bool)
    ensures
        r == has_key(entity_entries(*m), *k),
{
    m.contains_key(k)
}

/// `IndexMap::index` by position.
#[verifier::external_body]
pub(crate) fn entity_map_at<'a>(m: &'a EntityMap, i: usize) -> (r: &'a Entity)
    requires
        i < entity_entries(*m).len(),
    ensures
        *r == entity_entries(*m)[i as int].1,
{
    &m[i]
}

} // verus!
