//! Properties of the room service that span several operations.

use vstd::prelude::*;
use vstd::utf8::encode_utf8;
use crate::entries::{
    as_map, has_key, index_of, keys_of, lemma_index_of, lemma_index_of_unique, lemma_lookup_update,
    lemma_retain_values, lemma_swap_remove, lookup, retain_values, swap_remove, unique_keys, upsert,
};
use crate::room::{
    add_file, client_id_bytes, lemma_fnv1a_one_byte_apart, entity_id_of, not_owned_by, remove_file, ClientView, EntityView, RoomView,
};
use crate::rpc::RoomRpc;
use crate::types::{AccessToken, ClientId, ClientRole, EntityId, EntityMeta, Invite, RoomError, RoomId};
use crate::validator::{
    entity_exists_outcome, entity_owner_outcome, host_only_outcome, kick_yourself_outcome,
    then_check,
};

verus! {

/// Only the host manages a room: a guest's request to invite, to revoke an
/// invite or to kick a client is refused with a permission error that names
/// the guest's role.
pub proof fn law_guest_cannot_manage(tok: AccessToken, client_id: ClientId)
    requires
        tok.role == ClientRole::Guest,
    ensures
        host_only_outcome(tok) == Err::<(), RoomError>(
            RoomError::PermissionDenied {
                client_id: tok.client_id,
                room_id: tok.room_id,
                details: Some(crate::types::PermissionDetails::ClientRole(ClientRole::Guest)),
            },
        ),
        then_check(host_only_outcome(tok), kick_yourself_outcome(tok, client_id)) is Err,
{
}

/// The host cannot kick itself.
pub proof fn law_host_cannot_kick_itself(tok: AccessToken)
    ensures
        then_check(host_only_outcome(tok), kick_yourself_outcome(tok, tok.client_id)) is Err,
{
}

/// Only the owner of an entity may remove it: the check passes exactly for the
/// owner of an entity the room has.
pub proof fn law_only_owner_removes(tok: AccessToken, room: RoomView, entity_id: EntityId)
    ensures
        entity_owner_outcome(tok, room, entity_id) is Ok <==> has_key(room.entities, entity_id)
            && lookup(room.entities, entity_id).owner == tok.client_id,
{
}

/// Once a client has announced an entity under a name, announcing another
/// one under the same name fails: entity ids are determined by owner and name.
pub proof fn law_announce_same_name_twice(room: RoomView, owner: ClientId, meta: EntityMeta, other: EntityMeta)
    requires
        other.name@ == meta.name@,
    ensures
        ({
            let id = entity_id_of(owner, meta.name@);
            let after = room.with_entities(
                room.entities.push((id, EntityView { id, meta, owner })),
            );
            entity_exists_outcome(after, entity_id_of(owner, other.name@)) is Err
        }),
{
    let id = entity_id_of(owner, meta.name@);
    let after = room.entities.push((id, EntityView { id, meta, owner }));
    assert(after[room.entities.len() as int].0 == id);
}

/// Announcing an entity and then removing it gives the room back the
/// entities it had, in the same order; the owner's files are as before
/// when they did not already name the entity.
pub proof fn law_announce_then_remove(room: RoomView, owner: ClientId, meta: EntityMeta)
    requires
        room.wf(),
        has_key(room.clients, owner),
        !has_key(room.entities, entity_id_of(owner, meta.name@)),
    ensures
        ({
            let id = entity_id_of(owner, meta.name@);
            let e = EntityView { id, meta, owner };
            let announced = upsert(room.entities, id, e);
            let with_file = add_file(room.clients, owner, id);
            &&& swap_remove(announced, id) == room.entities
            &&& !lookup(room.clients, owner).files.contains(id) ==> remove_file(
                with_file,
                lookup(announced, id).owner,
                id,
            ) == room.clients
        }),
{
    let id = entity_id_of(owner, meta.name@);
    let e = EntityView { id, meta, owner };
    let s = room.entities;
    let announced = upsert(s, id, e);
    assert(announced == s.push((id, e)));
    let n = s.len() as int;
    assert(announced[n].0 == id);
    assert(has_key(announced, id));
    crate::entries::lemma_upsert(s, id, e);
    lemma_index_of_unique(announced, n);
    assert(swap_remove(announced, id) =~= s);
    lemma_index_of_unique(announced, n);
    assert(lookup(announced, id) == e);
    let cs = room.clients;
    let i = index_of(cs, owner);
    lemma_index_of(cs, owner);
    lemma_index_of_unique(cs, i);
    let with_file = add_file(cs, owner, id);
    let c = lookup(cs, owner);
    assert(with_file[i].0 == owner);
    assert forall|a: int, b: int|
        0 <= a < with_file.len() && 0 <= b < with_file.len() && a != b implies #[trigger] with_file[a].0
        != #[trigger] with_file[b].0 by {
        assert(cs[a].0 != cs[b].0);
    }
    lemma_index_of_unique(with_file, i);
    if !c.files.contains(id) {
        assert(c.files.insert(id).remove(id) =~= c.files);
        assert(remove_file(with_file, owner, id) =~= cs);
    }
}

/// Removing a client leaves none of its entities and keeps every other
/// entity, in order.
pub proof fn law_removed_client_owns_nothing(room: RoomView, client_id: ClientId)
    requires
        room.wf(),
    ensures
        !has_key(swap_remove(room.clients, client_id), client_id),
        forall|i: int|
            0 <= i < retain_values(room.entities, not_owned_by(client_id)).len() ==> (#[trigger] retain_values(
                room.entities,
                not_owned_by(client_id),
            )[i]).1.owner != client_id,
        forall|i: int|
            0 <= i < room.entities.len() && room.entities[i].1.owner != client_id ==> retain_values(
                room.entities,
                not_owned_by(client_id),
            ).contains(#[trigger] room.entities[i]),
{
    lemma_swap_remove(room.clients, client_id);
    assert(!crate::entries::as_map(swap_remove(room.clients, client_id)).contains_key(client_id));
    lemma_retain_values(room.entities, not_owned_by(client_id));
    assert forall|i: int|
        0 <= i < room.entities.len() && room.entities[i].1.owner != client_id implies retain_values(
            room.entities,
            not_owned_by(client_id),
        ).contains(#[trigger] room.entities[i]) by {
        reveal(Seq::filter);
        room.entities.lemma_filter_contains(|p: (EntityId, EntityView)| not_owned_by(client_id)(p.1), i);
    }
}

/// An invite admits one client: a connection by an invite's password, and
/// revoking it, leave the room open without that invite, whatever came of the
/// request, so a second connection by the same password is refused
/// (`RoomRpc::connect` fails on a password the room does not hold).
pub proof fn law_invite_single_use(before: RoomRpc, after: RoomRpc, room_id: RoomId, password: Seq<char>)
    requires
        before.rooms().contains_key(room_id),
        after.updated(&before, room_id, after.rooms()[room_id]@),
        after.rooms()[room_id]@.invites == before.rooms()[room_id]@.invites.remove(password),
    ensures
        after.rooms().contains_key(room_id),
        !after.rooms()[room_id]@.invites.contains_key(password),
{
}

/// Announcing an entity keeps every entity listed among its owner's files:
/// the new entity joins its owner's files, and nobody's files shrink.
pub proof fn law_add_entity_keeps_files_listed(room: RoomView, e: EntityView)
    requires
        room.wf(),
        room.files_listed(),
        has_key(room.clients, e.owner),
    ensures
        room.with_clients(add_file(room.clients, e.owner, e.id)).with_entities(
            upsert(room.entities, e.id, e),
        ).files_listed(),
        lookup(add_file(room.clients, e.owner, e.id), e.owner).files.contains(e.id),
{
    let cs = room.clients;
    let es = room.entities;
    let c = lookup(cs, e.owner);
    let nc = ClientView { files: c.files.insert(e.id), ..c };
    let cs2 = add_file(cs, e.owner, e.id);
    let es2 = upsert(es, e.id, e);
    lemma_lookup_update(cs, e.owner, nc, e.owner);
    crate::entries::lemma_upsert(es, e.id, e);
    assert forall|j: int| 0 <= j < es2.len() implies #[trigger] lookup(cs2, es2[j].1.owner).files.contains(
        es2[j].0,
    ) by {
        if j < es.len() && es[j].0 != e.id {
            assert(es2[j] == es[j]);
            let o = es[j].1.owner;
            assert(has_key(cs, o));
            assert(lookup(cs, o).files.contains(es[j].0));
            lemma_lookup_update(cs, e.owner, nc, o);
        } else {
            if has_key(es, e.id) {
                lemma_index_of(es, e.id);
                if j < es.len() {
                    lemma_index_of_unique(es, j);
                }
                assert(es2[j] == (e.id, e));
            } else {
                if j < es.len() {
                    assert(has_key(es, e.id));
                }
                assert(es2[j] == (e.id, e));
            }
        }
    }
}

/// Removing an entity the room has takes it out of the entities, leaves the
/// others as they were, takes it out of its owner's files, and keeps every
/// remaining entity listed among its owner's files.
pub proof fn law_remove_entity_keeps_files_listed(room: RoomView, entity_id: EntityId)
    requires
        room.wf(),
        room.files_listed(),
        has_key(room.entities, entity_id),
    ensures
        ({
            let owner = lookup(room.entities, entity_id).owner;
            let after = room.with_entities(swap_remove(room.entities, entity_id)).with_clients(
                remove_file(room.clients, owner, entity_id),
            );
            &&& !has_key(after.entities, entity_id)
            &&& as_map(after.entities) == as_map(room.entities).remove(entity_id)
            &&& lookup(after.clients, owner).files == lookup(room.clients, owner).files.remove(
                entity_id,
            )
            &&& after.files_listed()
        }),
{
    let cs = room.clients;
    let es = room.entities;
    let k = index_of(es, entity_id);
    lemma_index_of(es, entity_id);
    let owner = lookup(es, entity_id).owner;
    assert(has_key(cs, owner));
    let c = lookup(cs, owner);
    let nc = ClientView { files: c.files.remove(entity_id), ..c };
    let cs2 = remove_file(cs, owner, entity_id);
    let es2 = swap_remove(es, entity_id);
    lemma_swap_remove(es, entity_id);
    lemma_lookup_update(cs, owner, nc, owner);
    assert(!as_map(es2).contains_key(entity_id));
    let last = es.len() - 1;
    assert forall|j: int| 0 <= j < es2.len() implies #[trigger] lookup(cs2, es2[j].1.owner).files.contains(
        es2[j].0,
    ) by {
        let sj = if j == k { last } else { j };
        assert(es2[j] == es[sj]);
        assert(sj != k);
        assert(es[sj].0 != entity_id);
        let o = es[sj].1.owner;
        assert(has_key(cs, o));
        assert(lookup(cs, o).files.contains(es[sj].0));
        lemma_lookup_update(cs, owner, nc, o);
    }
}

/// Removing a client keeps every remaining entity listed among its owner's
/// files.
pub proof fn law_remove_client_keeps_files_listed(room: RoomView, client_id: ClientId)
    requires
        room.wf(),
        room.files_listed(),
    ensures
        room.with_clients(swap_remove(room.clients, client_id)).with_entities(
            retain_values(room.entities, not_owned_by(client_id)),
        ).files_listed(),
{
    let cs = room.clients;
    let es = room.entities;
    let cs2 = swap_remove(cs, client_id);
    let es2 = retain_values(es, not_owned_by(client_id));
    lemma_swap_remove(cs, client_id);
    lemma_retain_values(es, not_owned_by(client_id));
    assert forall|j: int| 0 <= j < es2.len() implies #[trigger] lookup(cs2, es2[j].1.owner).files.contains(
        es2[j].0,
    ) by {
        assert(es.contains(es2[j]));
        let w = choose|w: int| 0 <= w < es.len() && es[w] == es2[j];
        let o = es[w].1.owner;
        assert(o != client_id);
        assert(has_key(cs, o));
        assert(lookup(cs, o).files.contains(es[w].0));
        assert(as_map(cs).remove(client_id).contains_key(o));
        assert(as_map(cs2)[o] == as_map(cs).remove(client_id)[o]);
    }
}

/// Admitting a client under an id the room does not hold keeps every entity
/// listed among its owner's files.
pub proof fn law_add_client_keeps_files_listed(room: RoomView, client: ClientView)
    requires
        room.wf(),
        room.files_listed(),
        !has_key(room.clients, client.id),
    ensures
        room.with_clients(upsert(room.clients, client.id, client)).files_listed(),
{
    let cs = room.clients;
    let es = room.entities;
    let cs2 = upsert(cs, client.id, client);
    crate::entries::lemma_upsert(cs, client.id, client);
    assert forall|j: int| 0 <= j < es.len() implies #[trigger] lookup(cs2, es[j].1.owner).files.contains(
        es[j].0,
    ) by {
        let o = es[j].1.owner;
        assert(has_key(cs, o));
        assert(o != client.id);
        assert(as_map(cs).insert(client.id, client).contains_key(o));
        assert(as_map(cs2)[o] == as_map(cs).insert(client.id, client)[o]);
    }
}

/// Drawing an invite and then revoking it leaves the room's stored invites as
/// they were, but for an expired invite stored under the same password, which
/// is gone; a second revoke of that password finds nothing.
pub proof fn law_invite_then_revoke(room: RoomView, inv: Invite)
    ensures
        ({
            let drawn = room.with_invites(room.invites.insert(inv.password@, inv));
            let revoked = drawn.with_invites(drawn.invites.remove(inv.password@));
            &&& revoked == room.with_invites(room.invites.remove(inv.password@))
            &&& !room.invites.contains_key(inv.password@) ==> revoked == room
            &&& !revoked.invites.contains_key(inv.password@)
        }),
{
    assert(room.invites.insert(inv.password@, inv).remove(inv.password@) =~= room.invites.remove(
        inv.password@,
    ));
    if !room.invites.contains_key(inv.password@) {
        assert(room.invites.remove(inv.password@) =~= room.invites);
    }
}

/// A request that keeps the set of open rooms and the room counter, as every
/// request on a room does (`updated` or `unchanged`), keeps the next room id
/// fresh.
pub proof fn law_room_ids_stay_fresh(before: RoomRpc, after: RoomRpc)
    requires
        before.ids_fresh(),
        after.rooms().dom() == before.rooms().dom(),
        after.next_id() == before.next_id(),
    ensures
        after.ids_fresh(),
{
    assert forall|id: RoomId| #[trigger] after.rooms().contains_key(id) implies id < after.next_id() by {
        assert(before.rooms().contains_key(id));
    }
}

/// An entity's id depends on every byte of its name: two names that one
/// client announces, whose UTF-8 forms have one length and differ in a single
/// byte, get different ids wherever that byte is, so announcing the second
/// is not refused as a duplicate of the first.
pub proof fn law_entity_id_depends_on_every_name_byte(
    owner: ClientId,
    first: Seq<char>,
    second: Seq<char>,
    k: int,
)
    requires
        encode_utf8(first).len() == encode_utf8(second).len(),
        0 <= k < encode_utf8(first).len(),
        encode_utf8(first)[k] != encode_utf8(second)[k],
        forall|i: int|
            0 <= i < encode_utf8(first).len() && i != k ==> encode_utf8(first)[i] == encode_utf8(
                second,
            )[i],
    ensures
        entity_id_of(owner, first) != entity_id_of(owner, second),
{
    let p = client_id_bytes(owner);
    let b1 = p + encode_utf8(first);
    let b2 = p + encode_utf8(second);
    assert forall|i: int| 0 <= i < b1.len() && i != p.len() + k implies b1[i] == b2[i] by {
        if i >= p.len() {
            assert(b1[i] == encode_utf8(first)[i - p.len()]);
            assert(b2[i] == encode_utf8(second)[i - p.len()]);
        }
    }
    lemma_fnv1a_one_byte_apart(b1, b2, p.len() + k);
}

} // verus!
