//! A room: its clients, the entities they announced, and the pending invites.

use std::collections::HashSet;
use vstd::prelude::*;
use vstd::std_specs::hash::group_hash_axioms;
use vstd::string::StringSliceAdditionalSpecFns;
use vstd::utf8::encode_utf8;
use crate::entries::{
    has_key, index_of, lemma_index_of, lemma_index_of_unique, lemma_map_vals_keys,
    lemma_map_vals_retain, lemma_map_vals_swap_remove, lemma_map_vals_upsert, lemma_retain_values,
    lemma_swap_remove, lemma_take_unique, lemma_update_value, lemma_upsert, lookup, map_vals, retain_values,
    swap_remove, unique_keys, upsert,
};
use crate::ext::{generate_password, is_v4_uuid, new_uuid_v4, PasswordPolicy};
use crate::index_maps::{
    client_entries, client_map_at, client_map_insert, client_map_len, client_map_new,
    client_map_swap_remove, client_map_value_mut, entity_entries, entity_map_at,
    entity_map_contains_key, entity_map_get, entity_map_insert, entity_map_len, entity_map_new,
    entity_map_swap_remove, ClientMap, EntityMap,
};
use crate::ttl_invites::{
    invite_cache_contains_key, invite_cache_insert, invite_cache_live_keys, invite_cache_new,
    invite_cache_remove, invite_capacity, invite_entries, InviteCache,
};
use crate::types::{
    ClientId, ClientRole, EntityId, EntityMeta, Invite, RoomConfig, RoomError, RoomId, RoomInfo,
    RoomOptions,
};

verus! {

broadcast use group_hash_axioms;

// ---------------------------------------------------------------------------
// Entity identifiers

/// Offset basis of the 64-bit FNV-1a hash.
pub const FNV_OFFSET_BASIS: u64 = 0xcbf2_9ce4_8422_2325;

/// Prime of the 64-bit FNV-1a hash.
pub const FNV_PRIME: u64 = 0x0000_0100_0000_01b3;

/// One step of FNV-1a.
pub open spec fn fnv_step(h: u64, b: u8) -> u64 {
    (h ^ (b as u64)).wrapping_mul(FNV_PRIME)
}

/// The 64-bit FNV-1a hash of `bytes`.
pub open spec fn fnv1a(bytes: Seq<u8>) -> u64
    decreases bytes.len(),
{
    if bytes.len() == 0 {
        FNV_OFFSET_BASIS
    } else {
        fnv_step(fnv1a(bytes.drop_last()), bytes.last())
    }
}

/// FNV-1a continued from the hash `h` over `bytes`.
pub open spec fn fnv_from(h: u64, bytes: Seq<u8>) -> u64
    decreases bytes.len(),
{
    if bytes.len() == 0 {
        h
    } else {
        fnv_step(fnv_from(h, bytes.drop_last()), bytes.last())
    }
}

/// Inverse of the FNV prime modulo 2^64.
const FNV_PRIME_INVERSE: u64 = 0xce96_5057_aff6_957b;

/// Equal steps come from equal mixed values: multiplying by the (odd) FNV prime
/// loses nothing.
proof fn lemma_fnv_step_injective(h1: u64, b1: u8, h2: u64, b2: u8)
    requires
        fnv_step(h1, b1) == fnv_step(h2, b2),
    ensures
        h1 ^ (b1 as u64) == h2 ^ (b2 as u64),
{
    let x1 = h1 ^ (b1 as u64);
    let x2 = h2 ^ (b2 as u64);
    assert(((x1 * 0x100000001b3u64) % 0x1_0000_0000_0000_0000) as u64 == (x1
        * 0x100000001b3u64) as u64) by (bit_vector);
    assert(((x2 * 0x100000001b3u64) % 0x1_0000_0000_0000_0000) as u64 == (x2
        * 0x100000001b3u64) as u64) by (bit_vector);
    assert(((x1 * 0x100000001b3u64) as u64 * 0xce965057aff6957bu64) as u64 == x1) by (bit_vector);
    assert(((x2 * 0x100000001b3u64) as u64 * 0xce965057aff6957bu64) as u64 == x2) by (bit_vector);
}

/// Hashing a concatenation continues from the hash of its first part.
proof fn lemma_fnv_append(s: Seq<u8>, c: Seq<u8>)
    ensures
        fnv1a(s + c) == fnv_from(fnv1a(s), c),
    decreases c.len(),
{
    if c.len() == 0 {
        assert(s + c =~= s);
    } else {
        lemma_fnv_append(s, c.drop_last());
        assert((s + c).drop_last() =~= s + c.drop_last());
        assert((s + c).last() == c.last());
    }
}

/// Continuing the hash over the same bytes keeps different hashes different.
proof fn lemma_fnv_from_injective(h1: u64, h2: u64, c: Seq<u8>)
    requires
        fnv_from(h1, c) == fnv_from(h2, c),
    ensures
        h1 == h2,
    decreases c.len(),
{
    if c.len() > 0 {
        lemma_fnv_step_injective(fnv_from(h1, c.drop_last()), c.last(), fnv_from(h2, c.drop_last()), c.last());
        let a = fnv_from(h1, c.drop_last());
        let b = fnv_from(h2, c.drop_last());
        let l = c.last();
        assert(a == b) by (bit_vector)
            requires
                a ^ (l as u64) == b ^ (l as u64);
        lemma_fnv_from_injective(h1, h2, c.drop_last());
    }
}

/// Two byte strings of one length that differ in exactly one byte have
/// different FNV-1a hashes, wherever that byte is.
pub proof fn lemma_fnv1a_one_byte_apart(b1: Seq<u8>, b2: Seq<u8>, k: int)
    requires
        b1.len() == b2.len(),
        0 <= k < b1.len(),
        b1[k] != b2[k],
        forall|i: int| 0 <= i < b1.len() && i != k ==> b1[i] == b2[i],
    ensures
        fnv1a(b1) != fnv1a(b2),
{
    let a = b1.take(k);
    let c = b1.skip(k + 1);
    assert(b1 =~= a.push(b1[k]) + c);
    assert(b2 =~= a.push(b2[k]) + c);
    lemma_fnv_append(a.push(b1[k]), c);
    lemma_fnv_append(a.push(b2[k]), c);
    assert(a.push(b1[k]).drop_last() =~= a);
    assert(a.push(b2[k]).drop_last() =~= a);
    if fnv1a(b1) == fnv1a(b2) {
        lemma_fnv_from_injective(fnv1a(a.push(b1[k])), fnv1a(a.push(b2[k])), c);
        lemma_fnv_step_injective(fnv1a(a), b1[k], fnv1a(a), b2[k]);
        let h = fnv1a(a);
        let x = b1[k];
        let y = b2[k];
        assert(x == y) by (bit_vector)
            requires
                h ^ (x as u64) == h ^ (y as u64);
    }
}

/// The 16 bytes of a client id, most significant first.
pub open spec fn client_id_bytes(id: ClientId) -> Seq<u8> {
    Seq::new(16, |i: int| (id >> ((120 - 8 * i) as u128)) as u8)
}

/// The id of the entity that `owner` announces under `name`: the FNV-1a hash
/// of the owner's bytes followed by the name's UTF-8 bytes, so that one client
/// cannot announce two entities of the same name.
pub open spec fn entity_id_of(owner: ClientId, name: Seq<char>) -> EntityId {
    fnv1a(client_id_bytes(owner) + encode_utf8(name))
}

/// The id of the entity that `owner` announces under `name`.
pub fn new_entity_id(owner: ClientId, name: &str) -> (r: EntityId)
    ensures
        r == entity_id_of(owner, name@),
{
    let mut bytes: Vec<u8> = Vec::new();
    let mut i: usize = 0;
    while i < 16
        invariant
            i <= 16,
            bytes@ == client_id_bytes(owner).take(i as int),
        decreases 16 - i,
    {
        let shift: u128 = 120 - 8 * (i as u128);
        bytes.push((owner >> shift) as u8);
        assert(bytes@ =~= client_id_bytes(owner).take(i + 1));
        i += 1;
    }
    let name_bytes = name.as_bytes();
    let mut j: usize = 0;
    while j < name_bytes.len()
        invariant
            j <= name_bytes@.len(),
            name_bytes@ == name.spec_bytes(),
            bytes@ == client_id_bytes(owner) + name_bytes@.take(j as int),
        decreases name_bytes@.len() - j,
    {
        bytes.push(name_bytes[j]);
        assert(bytes@ =~= client_id_bytes(owner) + name_bytes@.take(j + 1));
        j += 1;
    }
    assert(name_bytes@.take(name_bytes@.len() as int) =~= name_bytes@);
    let mut h: u64 = FNV_OFFSET_BASIS;
    let mut k: usize = 0;
    while k < bytes.len()
        invariant
            k <= bytes@.len(),
            h == fnv1a(bytes@.take(k as int)),
        decreases bytes@.len() - k,
    {
        assert(bytes@.take(k + 1).drop_last() =~= bytes@.take(k as int));
        h = (h ^ (bytes[k] as u64)).wrapping_mul(FNV_PRIME);
        k += 1;
    }
    assert(bytes@.take(bytes@.len() as int) =~= bytes@);
    h
}

// ---------------------------------------------------------------------------
// Clients and entities

/// What a client is, as the contracts see it.
pub struct ClientView {
    pub id: ClientId,
    pub role: ClientRole,
    pub files: Set<EntityId>,
}

/// A member of a room.
#[derive(Debug)]
pub struct Client {
    id: ClientId,
    role: ClientRole,
    files: HashSet<EntityId>,
}

impl View for Client {
    type V = ClientView;

    closed spec fn view(&self) -> ClientView {
        ClientView { id: self.id, role: self.role, files: self.files@ }
    }
}

impl Client {
    /// A client with a fresh random id, the given role and no files.
    pub fn new(role: ClientRole) -> (r: Self)
        ensures
            r@.role == role,
            r@.files == Set::<EntityId>::empty(),
            is_v4_uuid(r@.id),
    {
        Client { id: Self::next_id(), role, files: HashSet::new() }
    }

    pub fn id(&self) -> (r: ClientId)
        ensures
            r == self@.id,
    {
        self.id
    }

    pub fn role(&self) -> (r: ClientRole)
        ensures
            r == self@.role,
    {
        self.role
    }

    fn next_id() -> (r: ClientId)
        ensures
            is_v4_uuid(r),
    {
        new_uuid_v4()
    }
}

/// What an entity is, as the contracts see it.
pub struct EntityView {
    pub id: EntityId,
    pub meta: EntityMeta,
    pub owner: ClientId,
}

/// An entity announced by a client.
#[derive(Debug)]
pub struct Entity {
    id: EntityId,
    meta: EntityMeta,
    owner: ClientId,
}

impl View for Entity {
    type V = EntityView;

    closed spec fn view(&self) -> EntityView {
        EntityView { id: self.id, meta: self.meta, owner: self.owner }
    }
}

impl Entity {
    /// The entity that `owner` announces with description `meta`.
    pub fn new(owner: ClientId, meta: EntityMeta) -> (r: Self)
        ensures
            r@.id == entity_id_of(owner, meta.name@),
            r@.meta == meta,
            r@.owner == owner,
    {
        let id = new_entity_id(owner, meta.name());
        Entity { id, meta, owner }
    }

    pub fn id(&self) -> (r: EntityId)
        ensures
            r == self@.id,
    {
        self.id
    }

    fn duplicate(&self) -> (r: Self)
        ensures
            r == *self,
    {
        Entity { id: self.id, meta: self.meta.duplicate(), owner: self.owner }
    }
}

// ---------------------------------------------------------------------------
// Rooms

/// Latest instant the `time` crate can represent (the end of year 9999, UTC), in
/// seconds since the Unix epoch; expiries past it cannot be computed.
pub const MAX_UNIX_TIMESTAMP: i64 = 253_402_300_799;

/// Earliest instant the `time` crate can represent (the start of year -9999,
/// UTC), in seconds since the Unix epoch.
pub const MIN_UNIX_TIMESTAMP: i64 = -377_705_116_800;

/// The policy by which a room draws invite passwords: eight characters,
/// digits and lowercase letters, no look-alikes, each kind at least once.
pub open spec fn room_invite_policy() -> PasswordPolicy {
    PasswordPolicy {
        length: 8,
        numbers: true,
        lowercase_letters: true,
        uppercase_letters: false,
        symbols: false,
        spaces: false,
        exclude_similar_characters: true,
        strict: true,
    }
}

/// `p` has the shape of a room's invite passwords: eight characters, each
/// allowed by the room's policy, with at least one digit and one letter.
pub open spec fn is_invite_password(p: Seq<char>) -> bool {
    &&& p.len() == 8
    &&& forall|i: int| 0 <= i < p.len() ==> crate::ext::policy_allows(room_invite_policy(), #[trigger] p[i])
    &&& crate::ext::has_each_kind(room_invite_policy(), p)
}

fn invite_password_policy() -> (r: PasswordPolicy)
    ensures
        r == room_invite_policy(),
{
    PasswordPolicy {
        length: 8,
        numbers: true,
        lowercase_letters: true,
        uppercase_letters: false,
        symbols: false,
        spaces: false,
        exclude_similar_characters: true,
        strict: true,
    }
}

/// What a room is, as the contracts see it.
pub struct RoomView {
    pub id: RoomId,
    pub host_id: ClientId,
    /// Clients keyed by id, in the order they joined.
    pub clients: Seq<(ClientId, ClientView)>,
    /// Entities keyed by id, in the order they were announced.
    pub entities: Seq<(EntityId, EntityView)>,
    /// Stored invites keyed by password (expired ones until they are dropped).
    pub invites: Map<Seq<char>, Invite>,
    pub invite_capacity: nat,
    pub options: RoomOptions,
    pub invite_ttl_secs: u64,
    pub invite_policy: PasswordPolicy,
}

impl RoomView {
    /// The invariant that every operation keeps.
    pub open spec fn wf(self) -> bool {
        &&& unique_keys(self.clients)
        &&& unique_keys(self.entities)
        &&& forall|i: int|
            0 <= i < self.clients.len() ==> #[trigger] self.clients[i].0 == self.clients[i].1.id
        &&& forall|i: int|
            0 <= i < self.entities.len() ==> #[trigger] self.entities[i].0
                == self.entities[i].1.id
        &&& forall|i: int|
            0 <= i < self.entities.len() ==> has_key(
                self.clients,
                #[trigger] self.entities[i].1.owner,
            )
        &&& self.invites.dom().finite()
        &&& self.invite_capacity == usize::MAX
        &&& self.invite_policy == room_invite_policy()
    }

    /// Every entity is listed among its owner's files.
    pub open spec fn files_listed(self) -> bool {
        forall|i: int|
            0 <= i < self.entities.len() ==> #[trigger] lookup(
                self.clients,
                self.entities[i].1.owner,
            ).files.contains(self.entities[i].0)
    }

    pub open spec fn with_clients(self, clients: Seq<(ClientId, ClientView)>) -> RoomView {
        RoomView { clients, ..self }
    }

    pub open spec fn with_entities(self, entities: Seq<(EntityId, EntityView)>) -> RoomView {
        RoomView { entities, ..self }
    }

    pub open spec fn with_invites(self, invites: Map<Seq<char>, Invite>) -> RoomView {
        RoomView { invites, ..self }
    }
}

/// `clients` with entity `id` added to the files of client `owner`.
pub open spec fn add_file(clients: Seq<(ClientId, ClientView)>, owner: ClientId, id: EntityId) -> Seq<
    (ClientId, ClientView),
> {
    let c = lookup(clients, owner);
    clients.update(
        index_of(clients, owner),
        (owner, ClientView { files: c.files.insert(id), ..c }),
    )
}

/// `clients` with entity `id` removed from the files of client `owner`.
pub open spec fn remove_file(clients: Seq<(ClientId, ClientView)>, owner: ClientId, id: EntityId) -> Seq<
    (ClientId, ClientView),
> {
    let c = lookup(clients, owner);
    clients.update(
        index_of(clients, owner),
        (owner, ClientView { files: c.files.remove(id), ..c }),
    )
}

/// Entities that `client_id` does not own.
pub open spec fn not_owned_by(client_id: ClientId) -> spec_fn(EntityView) -> bool {
    |e: EntityView| e.owner != client_id
}

/// Whether a room is full: its live invites and its clients together reach
/// its capacity.
pub open spec fn is_capacity_reached(live_invites: nat, clients: nat, capacity: nat) -> bool {
    live_invites + clients >= capacity
}

/// A room is full when its live invites and its clients together reach its
/// capacity.
pub fn capacity_reached(live_invites: usize, clients: usize, capacity: usize) -> (r: bool)
    ensures
        r == is_capacity_reached(live_invites as nat, clients as nat, capacity as nat),
{
    live_invites as u128 + clients as u128 >= capacity as u128
}

spec fn client_view_fn() -> spec_fn(Client) -> ClientView {
    |c: Client| c@
}

spec fn entity_view_fn() -> spec_fn(Entity) -> EntityView {
    |e: Entity| e@
}

spec fn not_owned_by_exec(client_id: ClientId) -> spec_fn(Entity) -> bool {
    |e: Entity| e.owner != client_id
}

/// A room of clients that share entities.
pub struct Room {
    id: RoomId,
    host_id: ClientId,
    clients: ClientMap,
    entities: EntityMap,
    invites: InviteCache,
    options: RoomOptions,
    invite_ttl_secs: u64,
    invite_policy: PasswordPolicy,
    /// Every password under which an invite may still be stored: the cache's
    /// keys are among them.
    stored_passwords: Vec<String>,
}

impl View for Room {
    type V = RoomView;

    closed spec fn view(&self) -> RoomView {
        RoomView {
            id: self.id,
            host_id: self.host_id,
            clients: map_vals(client_entries(self.clients), client_view_fn()),
            entities: map_vals(entity_entries(self.entities), entity_view_fn()),
            invites: invite_entries(self.invites),
            invite_capacity: invite_capacity(self.invites),
            options: self.options,
            invite_ttl_secs: self.invite_ttl_secs,
            invite_policy: self.invite_policy,
        }
    }
}

impl Room {
    pub open spec fn wf(&self) -> bool {
        &&& self@.wf()
        &&& self.passwords_cover()
    }

    /// Every key the invite cache holds is among the recorded passwords.
    pub closed spec fn passwords_cover(&self) -> bool {
        forall|k: Seq<char>|
            #[trigger] invite_entries(self.invites).contains_key(k) ==> exists|i: int|
                0 <= i < self.stored_passwords@.len() && self.stored_passwords@[i]@ == k
    }

    /// The invariant, read on the stored sequences themselves.
    proof fn lemma_wf_entries(&self)
        requires
            self.wf(),
        ensures
            unique_keys(client_entries(self.clients)),
            unique_keys(entity_entries(self.entities)),
            forall|i: int|
                0 <= i < client_entries(self.clients).len() ==> #[trigger] client_entries(
                    self.clients,
                )[i].0 == client_entries(self.clients)[i].1.id,
            forall|i: int|
                0 <= i < entity_entries(self.entities).len() ==> #[trigger] entity_entries(
                    self.entities,
                )[i].0 == entity_entries(self.entities)[i].1.id,
            forall|i: int|
                0 <= i < entity_entries(self.entities).len() ==> has_key(
                    client_entries(self.clients),
                    #[trigger] entity_entries(self.entities)[i].1.owner,
                ),
    {
        let cs = client_entries(self.clients);
        let es = entity_entries(self.entities);
        lemma_map_vals_keys(cs, client_view_fn());
        lemma_map_vals_keys(es, entity_view_fn());
        let cv = map_vals(cs, client_view_fn());
        let ev = map_vals(es, entity_view_fn());
        assert forall|a: int, b: int|
            0 <= a < cs.len() && 0 <= b < cs.len() && a != b implies #[trigger] cs[a].0
            != #[trigger] cs[b].0 by {
            assert(cv[a].0 != cv[b].0);
        }
        assert forall|a: int, b: int|
            0 <= a < es.len() && 0 <= b < es.len() && a != b implies #[trigger] es[a].0
            != #[trigger] es[b].0 by {
            assert(ev[a].0 != ev[b].0);
        }
        assert forall|i: int| 0 <= i < cs.len() implies #[trigger] cs[i].0 == cs[i].1.id by {
            assert(cv[i].0 == cv[i].1.id);
        }
        assert forall|i: int| 0 <= i < es.len() implies #[trigger] es[i].0 == es[i].1.id by {
            assert(ev[i].0 == ev[i].1.id);
        }
        assert forall|i: int| 0 <= i < es.len() implies has_key(cs, #[trigger] es[i].1.owner) by {
            assert(has_key(cv, ev[i].1.owner));
        }
    }

    /// A room with id `id`, host `host` as its only client, no entities and
    /// no invites.
    pub fn new(id: RoomId, options: RoomOptions, host: Client, cfg: &RoomConfig) -> (r: Self)
        ensures
            r.wf(),
            r@.id == id,
            r@.host_id == host@.id,
            r@.clients == seq![(host@.id, host@)],
            r@.entities.len() == 0,
            r@.invites == Map::<Seq<char>, Invite>::empty(),
            r@.options == options,
            r@.invite_ttl_secs == cfg.invite_ttl_secs,
            r@.files_listed(),
    {
        let host_id = host.id;
        let mut clients = client_map_new();
        let ghost h = host;
        client_map_insert(&mut clients, host_id, host);
        let r = Room {
            id,
            host_id,
            clients,
            entities: entity_map_new(),
            invites: invite_cache_new(usize::MAX),
            options,
            invite_ttl_secs: cfg.invite_ttl_secs,
            invite_policy: invite_password_policy(),
            stored_passwords: Vec::new(),
        };
        proof {
            assert(client_entries(r.clients) =~= seq![(host_id, h)]);
            lemma_map_vals_keys(client_entries(r.clients), client_view_fn());
            assert(r@.clients =~= seq![(h@.id, h@)]);
            assert(r@.invites =~= Map::<Seq<char>, Invite>::empty());
        }
        r
    }

    pub fn id(&self) -> (r: RoomId)
        ensures
            r == self@.id,
    {
        self.id
    }

    pub fn host_id(&self) -> (r: ClientId)
        ensures
            r == self@.host_id,
    {
        self.host_id
    }

    pub fn capacity(&self) -> (r: usize)
        ensures
            r == self@.options.capacity,
    {
        self.options.capacity
    }
}

impl Room {
    /// Draws an invite password and, unless it names an invite the room still
    /// holds, stores an invite under it that expires `invite_ttl_secs` after
    /// `now`. `Ok(None)` means the draw collided and nothing changed; drawing
    /// again is the caller's choice.
    pub fn generate_invite(&mut self, now: i64) -> (r: Result<Option<Invite>, RoomError>)
        requires
            old(self).wf(),
            MIN_UNIX_TIMESTAMP <= now,
            now + old(self)@.invite_ttl_secs <= MAX_UNIX_TIMESTAMP,
        ensures
            final(self).wf(),
            r is Ok,
            r matches Ok(None) ==> final(self)@ == old(self)@,
            r matches Ok(None) ==> exists|p: Seq<char>|
                #[trigger] old(self)@.invites.contains_key(p) && is_invite_password(p),
            r matches Ok(Some(inv)) ==> {
                &&& inv.room_id == old(self)@.id
                &&& inv.exp == now + old(self)@.invite_ttl_secs
                &&& is_invite_password(inv.password@)
                &&& final(self)@ == old(self)@.with_invites(
                    old(self)@.invites.insert(inv.password@, inv),
                )
            },
    {
        let password = match generate_password(&self.invite_policy) {
            Ok(p) => p,
            Err(e) => {
                return Err(RoomError::Other { message: String::from_str(e) });
            },
        };
        if invite_cache_contains_key(&self.invites, password.as_str()) {
            proof {
                assert(old(self)@.invites.contains_key(password@) && is_invite_password(password@));
            }
            return Ok(None);
        }
        let ttl = self.invite_ttl_secs;
        let exp: i64 = (now as i128 + ttl as i128) as i64;
        let invite = Invite { room_id: self.id, password: password.clone(), exp };
        let stored = invite.duplicate();
        let recorded = password.clone();
        invite_cache_insert(&mut self.invites, password, stored, ttl);
        let ghost before = self.stored_passwords@;
        self.stored_passwords.push(recorded);
        proof {
            assert(self@.invites.dom() == old(self)@.invites.dom().insert(invite.password@));
            assert forall|k: Seq<char>| #[trigger] invite_entries(self.invites).contains_key(k)
                implies exists|i: int|
                0 <= i < self.stored_passwords@.len() && self.stored_passwords@[i]@ == k by {
                if k == invite.password@ {
                    assert(self.stored_passwords@[before.len() as int]@ == k);
                } else {
                    assert(invite_entries(old(self).invites).contains_key(k));
                    let i = choose|i: int| 0 <= i < before.len() && before[i]@ == k;
                    assert(self.stored_passwords@[i] == before[i]);
                }
            }
        }
        Ok(Some(invite))
    }

    /// Withdraws the invite with password `invite_id`; fails when the room holds
    /// no live invite under it.
    pub fn revoke_invite(&mut self, invite_id: String) -> (r: Result<(), RoomError>)
        requires
            old(self).wf(),
        ensures
            final(self).wf(),
            final(self)@ == old(self)@.with_invites(old(self)@.invites.remove(invite_id@)),
            r is Ok ==> old(self)@.invites.contains_key(invite_id@),
            r is Err ==> r == Err::<(), RoomError>(
                RoomError::InviteNotFound { room_id: old(self)@.id, invite_password: invite_id },
            ),
            !old(self)@.invites.contains_key(invite_id@) ==> r is Err,
    {
        let removed = invite_cache_remove(&mut self.invites, invite_id.as_str());
        proof {
            self.lemma_cover_kept(*old(self));
        }
        match removed {
            None => Err(RoomError::InviteNotFound { room_id: self.id, invite_password: invite_id }),
            Some(_) => Ok(()),
        }
    }

    /// Adds `entity` to the room and to its owner's files; fails, changing
    /// nothing, when the owner is not a client of the room.
    pub fn add_entity(&mut self, entity: Entity) -> (r: Result<(), RoomError>)
        requires
            old(self).wf(),
        ensures
            final(self).wf(),
            has_key(old(self)@.clients, entity@.owner) ==> r is Ok && final(self)@ == old(
                self,
            )@.with_clients(add_file(old(self)@.clients, entity@.owner, entity@.id)).with_entities(
                upsert(old(self)@.entities, entity@.id, entity@),
            ),
            !has_key(old(self)@.clients, entity@.owner) ==> r == Err::<(), RoomError>(
                RoomError::ClientNotFound { room_id: old(self)@.id, client_id: entity@.owner },
            ) && final(self)@ == old(self)@,
            old(self)@.files_listed() ==> final(self)@.files_listed(),
    {
        proof {
            self.lemma_wf_entries();
        }
        let ghost cs = client_entries(self.clients);
        let ghost es = entity_entries(self.entities);
        let owner = entity.owner;
        let eid = entity.id;
        let ghost ent = entity;
        if crate::index_maps::client_map_get(&self.clients, &owner).is_none() {
            proof {
                lemma_map_vals_keys(cs, client_view_fn());
            }
            return Err(RoomError::ClientNotFound { room_id: self.id, client_id: owner });
        }
        let c = client_map_value_mut(&mut self.clients, &owner);
        c.files.insert(eid);
        entity_map_insert(&mut self.entities, eid, entity);
        proof {
            let cs2 = client_entries(self.clients);
            let es2 = entity_entries(self.entities);
            let i = index_of(cs, owner);
            lemma_index_of(cs, owner);
            lemma_update_value(cs, i, cs2[i].1);
            assert(cs2 == cs.update(i, (cs[i].0, cs2[i].1)));
            lemma_upsert(es, eid, ent);
            lemma_map_vals_keys(cs, client_view_fn());
            lemma_map_vals_keys(cs2, client_view_fn());
            lemma_map_vals_keys(es, entity_view_fn());
            lemma_map_vals_keys(es2, entity_view_fn());
            lemma_map_vals_upsert(es, entity_view_fn(), eid, ent);
            lemma_index_of_unique(cs, i);
            assert(self@.clients =~= add_file(old(self)@.clients, owner, eid));
            assert forall|j: int| 0 <= j < es2.len() implies #[trigger] es2[j].0 == es2[j].1.id
                && has_key(cs2, es2[j].1.owner) by {
                if j < es.len() && es[j].0 != eid {
                    assert(es2[j] == es[j]);
                } else {
                    if has_key(es, eid) {
                        assert(es2[index_of(es, eid)] == (eid, ent));
                        lemma_index_of_unique(es, j);
                    }
                }
            }
            let cv2 = self@.clients;
            let ev2 = self@.entities;
            assert forall|j: int| 0 <= j < cv2.len() implies #[trigger] cv2[j].0 == cv2[j].1.id by {
                if j != i {
                    assert(cs2[j] == cs[j]);
                }
            }
            assert forall|j: int| 0 <= j < ev2.len() implies #[trigger] ev2[j].0 == ev2[j].1.id
                && has_key(cv2, ev2[j].1.owner) by {
                assert(es2[j].0 == es2[j].1.id && has_key(cs2, es2[j].1.owner));
            }
        }
        proof {
            if old(self)@.files_listed() {
                crate::laws::law_add_entity_keeps_files_listed(old(self)@, ent@);
            }
        }
        proof {
            self.lemma_cover_kept(*old(self));
        }
        Ok(())
    }
}

impl Room {
    /// Removes the entity `entity_id` from the room and from its owner's files;
    /// fails, changing nothing, when the room has no such entity.
    pub fn remove_entity(&mut self, entity_id: EntityId) -> (r: Result<(), RoomError>)
        requires
            old(self).wf(),
        ensures
            final(self).wf(),
            has_key(old(self)@.entities, entity_id) ==> r is Ok && final(self)@ == old(
                self,
            )@.with_entities(swap_remove(old(self)@.entities, entity_id)).with_clients(
                remove_file(
                    old(self)@.clients,
                    lookup(old(self)@.entities, entity_id).owner,
                    entity_id,
                ),
            ),
            !has_key(old(self)@.entities, entity_id) ==> r == Err::<(), RoomError>(
                RoomError::EntityNotFound { room_id: old(self)@.id, entity_id },
            ) && final(self)@ == old(self)@,
            old(self)@.files_listed() ==> final(self)@.files_listed(),
    {
        proof {
            self.lemma_wf_entries();
        }
        let ghost cs = client_entries(self.clients);
        let ghost es = entity_entries(self.entities);
        let file = match entity_map_swap_remove(&mut self.entities, &entity_id) {
            Some(f) => f,
            None => {
                proof {
                    lemma_map_vals_keys(es, entity_view_fn());
                }
                return Err(RoomError::EntityNotFound { room_id: self.id, entity_id });
            },
        };
        let owner = file.owner;
        proof {
            let i = index_of(es, entity_id);
            lemma_index_of(es, entity_id);
            assert(has_key(cs, es[i].1.owner));
        }
        if crate::index_maps::client_map_get(&self.clients, &owner).is_none() {
            return Err(RoomError::ClientNotFound { room_id: self.id, client_id: owner });
        }
        let c = client_map_value_mut(&mut self.clients, &owner);
        c.files.remove(&entity_id);
        proof {
            let cs2 = client_entries(self.clients);
            let es2 = entity_entries(self.entities);
            let i = index_of(cs, owner);
            lemma_index_of(cs, owner);
            lemma_update_value(cs, i, cs2[i].1);
            assert(cs2 == cs.update(i, (cs[i].0, cs2[i].1)));
            lemma_swap_remove(es, entity_id);
            lemma_map_vals_keys(cs, client_view_fn());
            lemma_map_vals_keys(cs2, client_view_fn());
            lemma_map_vals_keys(es, entity_view_fn());
            lemma_map_vals_keys(es2, entity_view_fn());
            lemma_map_vals_swap_remove(es, entity_view_fn(), entity_id);
            lemma_index_of_unique(cs, i);
            let k = index_of(es, entity_id);
            lemma_index_of(es, entity_id);
            lemma_index_of_unique(es, k);
            assert(self@.clients =~= remove_file(
                old(self)@.clients,
                lookup(old(self)@.entities, entity_id).owner,
                entity_id,
            ));
            let last = es.len() - 1;
            assert forall|j: int| 0 <= j < es2.len() implies #[trigger] es2[j].0 == es2[j].1.id
                && has_key(cs2, es2[j].1.owner) by {
                let sj = if j == k { last } else { j };
                assert(es2[j] == es[sj]);
            }
            let cv2 = self@.clients;
            let ev2 = self@.entities;
            assert forall|j: int| 0 <= j < cv2.len() implies #[trigger] cv2[j].0 == cv2[j].1.id by {
                if j != i {
                    assert(cs2[j] == cs[j]);
                }
            }
            assert forall|j: int| 0 <= j < ev2.len() implies #[trigger] ev2[j].0 == ev2[j].1.id
                && has_key(cv2, ev2[j].1.owner) by {
                assert(es2[j].0 == es2[j].1.id && has_key(cs2, es2[j].1.owner));
            }
        }
        proof {
            if old(self)@.files_listed() {
                crate::laws::law_remove_entity_keeps_files_listed(old(self)@, entity_id);
            }
        }
        proof {
            self.lemma_cover_kept(*old(self));
        }
        Ok(())
    }

    /// Admits `client` by the invite with password `invite_id`, which is used up;
    /// fails when the room holds no live invite under it.
    pub fn add_client(&mut self, client: Client, invite_id: String) -> (r: Result<(), RoomError>)
        requires
            old(self).wf(),
        ensures
            final(self).wf(),
            r is Ok ==> old(self)@.invites.contains_key(invite_id@) && final(self)@ == old(
                self,
            )@.with_invites(old(self)@.invites.remove(invite_id@)).with_clients(
                upsert(old(self)@.clients, client@.id, client@),
            ),
            r is Err ==> r == Err::<(), RoomError>(
                RoomError::InviteNotFound { room_id: old(self)@.id, invite_password: invite_id },
            ) && final(self)@ == old(self)@.with_invites(
                old(self)@.invites.remove(invite_id@),
            ),
            !old(self)@.invites.contains_key(invite_id@) ==> r is Err,
            old(self)@.files_listed() && !has_key(old(self)@.clients, client@.id)
                ==> final(self)@.files_listed(),
    {
        let removed = invite_cache_remove(&mut self.invites, invite_id.as_str());
        proof {
            self.lemma_cover_kept(*old(self));
        }
        self.admit_client(client, removed, invite_id)
    }

    /// Admits `client` when the invite that was used up, `removed`, was still
    /// valid: with it the client joins (or replaces a client with the same id),
    /// without it the answer is that no invite `invite_id` was found. The
    /// invites are left as they are.
    pub fn admit_client(&mut self, client: Client, removed: Option<Invite>, invite_id: String) -> (r: Result<(), RoomError>)
        requires
            old(self).wf(),
        ensures
            final(self).wf(),
            removed is Some ==> r is Ok && final(self)@ == old(self)@.with_clients(
                upsert(old(self)@.clients, client@.id, client@),
            ),
            removed is None ==> r == Err::<(), RoomError>(
                RoomError::InviteNotFound { room_id: old(self)@.id, invite_password: invite_id },
            ) && final(self)@ == old(self)@,
            old(self)@.files_listed() && !has_key(old(self)@.clients, client@.id)
                ==> final(self)@.files_listed(),
    {
        proof {
            self.lemma_wf_entries();
        }
        let ghost cs = client_entries(self.clients);
        let ghost es = entity_entries(self.entities);
        if removed.is_none() {
            return Err(RoomError::InviteNotFound { room_id: self.id, invite_password: invite_id });
        }
        let cid = client.id;
        let ghost cl = client;
        client_map_insert(&mut self.clients, cid, client);
        proof {
            let cs2 = client_entries(self.clients);
            lemma_upsert(cs, cid, cl);
            lemma_map_vals_keys(cs, client_view_fn());
            lemma_map_vals_keys(cs2, client_view_fn());
            lemma_map_vals_keys(es, entity_view_fn());
            lemma_map_vals_upsert(cs, client_view_fn(), cid, cl);
            assert forall|x: ClientId| has_key(cs, x) implies has_key(cs2, x) by {
                assert(crate::entries::as_map(cs2).contains_key(x));
            }
            let cv2 = self@.clients;
            assert forall|j: int| 0 <= j < cv2.len() implies #[trigger] cv2[j].0 == cv2[j].1.id by {
                if j < cs.len() && cs[j].0 != cid {
                    assert(cs2[j] == cs[j]);
                } else if has_key(cs, cid) {
                    lemma_index_of_unique(cs, j);
                }
            }
            let ev2 = self@.entities;
            assert forall|j: int| 0 <= j < ev2.len() implies has_key(cv2, #[trigger] ev2[j].1.owner) by {
                assert(has_key(cs, es[j].1.owner));
            }
        }
        proof {
            if old(self)@.files_listed() && !has_key(old(self)@.clients, cl@.id) {
                crate::laws::law_add_client_keeps_files_listed(old(self)@, cl@);
            }
        }
        proof {
            self.lemma_cover_kept(*old(self));
        }
        Ok(())
    }

    /// Removes the client `client_id` and every entity it owns; other
    /// entities keep their order. Always succeeds.
    pub fn remove_client(&mut self, client_id: ClientId) -> (r: Result<(), RoomError>)
        requires
            old(self).wf(),
        ensures
            final(self).wf(),
            r is Ok,
            final(self)@ == old(self)@.with_clients(
                swap_remove(old(self)@.clients, client_id),
            ).with_entities(retain_values(old(self)@.entities, not_owned_by(client_id))),
            old(self)@.files_listed() ==> final(self)@.files_listed(),
    {
        proof {
            self.lemma_wf_entries();
        }
        let ghost cs = client_entries(self.clients);
        let ghost es = entity_entries(self.entities);
        client_map_swap_remove(&mut self.clients, &client_id);
        let mut kept = entity_map_new();
        let n = entity_map_len(&self.entities);
        let mut i: usize = 0;
        while i < n
            invariant
                i <= n,
                n == es.len(),
                entity_entries(self.entities) == es,
                unique_keys(es),
                forall|j: int| 0 <= j < es.len() ==> #[trigger] es[j].0 == es[j].1.id,
                entity_entries(kept) == retain_values(
                    es.take(i as int),
                    not_owned_by_exec(client_id),
                ),
            decreases n - i,
        {
            let e = entity_map_at(&self.entities, i);
            if e.owner != client_id {
                let d = e.duplicate();
                let ghost before = entity_entries(kept);
                let did = d.id;
                entity_map_insert(&mut kept, did, d);
                proof {
                    let t = es.take(i as int);
                    lemma_take_unique(es, i as int);
                    lemma_retain_values(t, not_owned_by_exec(client_id));
                    assert(!has_key(before, did)) by {
                        if has_key(before, did) {
                            let w = index_of(before, did);
                            assert(t.contains(before[w]));
                            let v = choose|v: int| 0 <= v < t.len() && t[v] == before[w];
                            assert(es[v].0 == es[i as int].0);
                        }
                    }
                    assert(entity_entries(kept) == before.push((did, d)));
                    assert(*e == es[i as int].1);
                    assert((did, d) == es[i as int]);
                }
            }
            proof {
                reveal(Seq::filter);
                assert(es.take(i + 1).drop_last() =~= es.take(i as int));
                assert(es.take(i + 1).last() == es[i as int]);
                assert(retain_values(es.take(i + 1), not_owned_by_exec(client_id)) == if es[i as int].1.owner != client_id {
                    retain_values(es.take(i as int), not_owned_by_exec(client_id)).push(es[i as int])
                } else {
                    retain_values(es.take(i as int), not_owned_by_exec(client_id))
                });
            }
            i += 1;
        }
        proof {
            assert(es.take(n as int) =~= es);
        }
        self.entities = kept;
        proof {
            let cs2 = client_entries(self.clients);
            let es2 = entity_entries(self.entities);
            lemma_swap_remove(cs, client_id);
            lemma_retain_values(es, not_owned_by_exec(client_id));
            lemma_map_vals_keys(cs, client_view_fn());
            lemma_map_vals_keys(cs2, client_view_fn());
            lemma_map_vals_keys(es, entity_view_fn());
            lemma_map_vals_keys(es2, entity_view_fn());
            lemma_map_vals_swap_remove(cs, client_view_fn(), client_id);
            assert forall|e: Entity| #[trigger] not_owned_by_exec(client_id)(e) == not_owned_by(
                client_id,
            )(entity_view_fn()(e)) by {}
            lemma_map_vals_retain(
                es,
                entity_view_fn(),
                not_owned_by(client_id),
                not_owned_by_exec(client_id),
            );
            assert forall|x: ClientId| has_key(cs, x) && x != client_id implies has_key(cs2, x) by {
                assert(crate::entries::as_map(cs2).contains_key(x));
            }
            let cv2 = self@.clients;
            let ev2 = self@.entities;
            let k = index_of(cs, client_id);
            assert forall|j: int| 0 <= j < cv2.len() implies #[trigger] cv2[j].0 == cv2[j].1.id by {
                if has_key(cs, client_id) {
                    let sj = if j == k { cs.len() - 1 } else { j };
                    assert(cs2[j] == cs[sj]);
                }
            }
            assert forall|j: int| 0 <= j < ev2.len() implies #[trigger] ev2[j].0 == ev2[j].1.id
                && has_key(cv2, ev2[j].1.owner) by {
                assert(es.contains(es2[j]));
                let w = choose|w: int| 0 <= w < es.len() && es[w] == es2[j];
                assert(has_key(cs, es[w].1.owner));
                assert(not_owned_by_exec(client_id)(es2[j].1));
            }
            assert forall|j: int| 0 <= j < ev2.len() implies has_key(cv2, #[trigger] ev2[j].1.owner) by {
                assert(ev2[j].0 == ev2[j].1.id);
            }
            assert(es2 == retain_values(es, not_owned_by_exec(client_id)));
            assert(unique_keys(cv2));
            assert(unique_keys(ev2));
            assert(self@.invites == old(self)@.invites);
        }
        proof {
            if old(self)@.files_listed() {
                crate::laws::law_remove_client_keeps_files_listed(old(self)@, client_id);
            }
        }
        proof {
            self.lemma_cover_kept(*old(self));
        }
        Ok(())
    }

    /// Whether `client_id` owns the entity `entity_id`; fails when the room has
    /// no such entity.
    pub fn is_entity_owner(&self, entity_id: EntityId, client_id: ClientId) -> (r: Result<bool, RoomError>)
        requires
            self.wf(),
        ensures
            has_key(self@.entities, entity_id) ==> r == Ok::<bool, RoomError>(
                client_id == lookup(self@.entities, entity_id).owner,
            ),
            !has_key(self@.entities, entity_id) ==> r == Err::<bool, RoomError>(
                RoomError::EntityNotFound { room_id: self@.id, entity_id },
            ),
    {
        let entity = self.get_entity(entity_id)?;
        Ok(client_id == entity.owner)
    }

    /// Whether the room has an entity `file_id`.
    pub fn is_file_exists(&self, file_id: EntityId) -> (r: bool)
        requires
            self.wf(),
        ensures
            r == has_key(self@.entities, file_id),
    {
        proof {
            lemma_map_vals_keys(entity_entries(self.entities), entity_view_fn());
        }
        entity_map_contains_key(&self.entities, &file_id)
    }

    /// The entity `entity_id`; fails when the room has no such entity.
    fn get_entity(&self, entity_id: EntityId) -> (r: Result<&Entity, RoomError>)
        requires
            self.wf(),
        ensures
            has_key(self@.entities, entity_id) ==> r is Ok && r->Ok_0@ == lookup(
                self@.entities,
                entity_id,
            ),
            !has_key(self@.entities, entity_id) ==> r == Err::<&Entity, RoomError>(
                RoomError::EntityNotFound { room_id: self@.id, entity_id },
            ),
    {
        proof {
            self.lemma_wf_entries();
            lemma_map_vals_keys(entity_entries(self.entities), entity_view_fn());
        }
        match entity_map_get(&self.entities, &entity_id) {
            Some(e) => Ok(e),
            None => Err(RoomError::EntityNotFound { room_id: self.id, entity_id }),
        }
    }
}

impl Room {
    /// A key the cache holds is among the recorded passwords.
    proof fn lemma_covered_key(self, k: Seq<char>)
        requires
            self.passwords_cover(),
            invite_entries(self.invites).contains_key(k),
        ensures
            exists|j: int| 0 <= j < self.stored_passwords@.len() && self.stored_passwords@[j]@ == k,
    {
    }

    /// The recorded passwords still cover a cache that kept only some of its keys.
    proof fn lemma_cover_kept(self, before: Room)
        requires
            before.passwords_cover(),
            self.stored_passwords == before.stored_passwords,
            invite_entries(self.invites).dom().subset_of(invite_entries(before.invites).dom()),
        ensures
            self.passwords_cover(),
    {
        assert forall|k: Seq<char>| #[trigger] invite_entries(self.invites).contains_key(k)
            implies exists|i: int|
            0 <= i < self.stored_passwords@.len() && self.stored_passwords@[i]@ == k by {
            assert(invite_entries(before.invites).dom().contains(k));
            before.lemma_covered_key(k);
        }
    }
}

/// Whether `p` is one of `passwords`.
fn contains_password(passwords: &Vec<String>, p: &String) -> (r: bool)
    ensures
        r == exists|j: int| 0 <= j < passwords@.len() && passwords@[j]@ == p@,
{
    let mut j: usize = 0;
    while j < passwords.len()
        invariant
            j <= passwords@.len(),
            forall|l: int| 0 <= l < j ==> passwords@[l]@ != p@,
        decreases passwords@.len() - j,
    {
        if passwords[j] == *p {
            return true;
        }
        j += 1;
    }
    false
}

/// A copy of `passwords`.
fn copy_passwords(passwords: &Vec<String>) -> (r: Vec<String>)
    ensures
        r@.len() == passwords@.len(),
        forall|j: int| 0 <= j < r@.len() ==> #[trigger] r@[j]@ == passwords@[j]@,
{
    let mut r: Vec<String> = Vec::new();
    let mut j: usize = 0;
    while j < passwords.len()
        invariant
            j <= passwords@.len(),
            r@.len() == j,
            forall|l: int| 0 <= l < j ==> #[trigger] r@[l]@ == passwords@[l]@,
        decreases passwords@.len() - j,
    {
        r.push(passwords[j].clone());
        j += 1;
    }
    r
}

/// Distinct passwords that are exactly the keys of a finite map are as many as
/// its entries.
proof fn lemma_keys_count(keys: Seq<String>, invites: Map<Seq<char>, Invite>)
    requires
        invites.dom().finite(),
        forall|i: int| 0 <= i < keys.len() ==> invites.contains_key(#[trigger] keys[i]@),
        forall|i: int, j: int| 0 <= i < j < keys.len() ==> #[trigger] keys[i]@ != #[trigger] keys[j]@,
        forall|k: Seq<char>| #[trigger] invites.contains_key(k) ==> exists|i: int|
            0 <= i < keys.len() && keys[i]@ == k,
    ensures
        keys.len() == invites.len(),
{
    let views = keys.map_values(|k: String| k@);
    assert forall|i: int, j: int| 0 <= i < views.len() && 0 <= j < views.len() && i != j implies views[i]
        != views[j] by {
        if i < j {
            assert(keys[i]@ != keys[j]@);
        } else {
            assert(keys[j]@ != keys[i]@);
        }
    }
    assert(views.no_duplicates());
    views.unique_seq_to_set();
    assert forall|x: Seq<char>| views.to_set().contains(x) <==> invites.dom().contains(x) by {
        if views.to_set().contains(x) {
            let i = choose|i: int| 0 <= i < views.len() && views[i] == x;
            assert(invites.contains_key(keys[i]@));
        }
        if invites.dom().contains(x) {
            let i = choose|i: int| 0 <= i < keys.len() && keys[i]@ == x;
            assert(views[i] == x);
        }
    }
    assert(views.to_set() =~= invites.dom());
}

/// Removes from `cache` every key among `passwords` that is not among `live`;
/// when the cache's keys are all among `live` or `passwords`, afterwards they
/// are all among `live`.
fn purge_invites(cache: &mut InviteCache, passwords: &Vec<String>, live: &Vec<String>)
    requires
        forall|j: int| 0 <= j < live@.len() ==> invite_entries(*old(cache)).contains_key(#[trigger] live@[j]@),
        forall|k: Seq<char>| #[trigger] invite_entries(*old(cache)).contains_key(k) ==> (exists|j: int|
            0 <= j < live@.len() && live@[j]@ == k) || (exists|j: int|
            0 <= j < passwords@.len() && passwords@[j]@ == k),
    ensures
        invite_capacity(*final(cache)) == invite_capacity(*old(cache)),
        invite_entries(*final(cache)).submap_of(invite_entries(*old(cache))),
        forall|j: int| 0 <= j < live@.len() ==> invite_entries(*final(cache)).contains_key(#[trigger] live@[j]@),
        forall|k: Seq<char>| #[trigger] invite_entries(*final(cache)).contains_key(k) ==> exists|j: int|
            0 <= j < live@.len() && live@[j]@ == k,
{
    let ghost start = invite_entries(*cache);
    let n = passwords.len();
    let mut i: usize = 0;
    while i < n
        invariant
            n == passwords@.len(),
            i <= n,
            invite_capacity(*cache) == invite_capacity(*old(cache)),
            start == invite_entries(*old(cache)),
            invite_entries(*cache).submap_of(start),
            forall|j: int| 0 <= j < live@.len() ==> invite_entries(*cache).contains_key(#[trigger] live@[j]@),
            forall|k: Seq<char>| #[trigger] invite_entries(*cache).contains_key(k) ==> (exists|j: int|
                0 <= j < live@.len() && live@[j]@ == k) || (exists|j: int|
                i <= j < n && passwords@[j]@ == k),
        decreases n - i,
    {
        let found = contains_password(live, &passwords[i]);
        let ghost before = invite_entries(*cache);
        if !found {
            invite_cache_remove(cache, passwords[i].as_str());
            proof {
                assert forall|k: Seq<char>| #[trigger] invite_entries(*cache).contains_key(k)
                    implies (exists|j: int| 0 <= j < live@.len() && live@[j]@ == k) || (exists|j: int|
                    i + 1 <= j < n && passwords@[j]@ == k) by {
                    assert(before.contains_key(k));
                    assert(k != passwords@[i as int]@);
                    if !(exists|j: int| 0 <= j < live@.len() && live@[j]@ == k) {
                        let j = choose|j: int| i <= j < n && passwords@[j]@ == k;
                        assert(j != i);
                    }
                }
                assert forall|j: int| 0 <= j < live@.len() implies invite_entries(*cache).contains_key(
                    #[trigger] live@[j]@) by {
                    assert(before.contains_key(live@[j]@));
                    assert(live@[j]@ != passwords@[i as int]@);
                }
                assert forall|k: Seq<char>| #[trigger] invite_entries(*cache).contains_key(k)
                    implies start.contains_key(k) && invite_entries(*cache)[k] == start[k] by {
                    assert(before.contains_key(k));
                }
            }
        } else {
            proof {
                assert forall|k: Seq<char>| #[trigger] invite_entries(*cache).contains_key(k)
                    implies (exists|j: int| 0 <= j < live@.len() && live@[j]@ == k) || (exists|j: int|
                    i + 1 <= j < n && passwords@[j]@ == k) by {
                    if !(exists|j: int| 0 <= j < live@.len() && live@[j]@ == k) {
                        let j = choose|j: int| i <= j < n && passwords@[j]@ == k;
                        assert(j != i);
                    }
                }
            }
        }
        i += 1;
    }
}

impl Room {
    /// Drops from the invite cache every invite whose time to live has passed
    /// and returns the passwords of those that remain, each once: exactly the
    /// invites the room holds afterwards.
    fn drop_expired_invites(&mut self) -> (live: Vec<String>)
        requires
            old(self).wf(),
        ensures
            final(self).wf(),
            final(self)@ == old(self)@.with_invites(final(self)@.invites),
            final(self)@.invites.submap_of(old(self)@.invites),
            live@.len() == final(self)@.invites.len(),
            forall|i: int|
                0 <= i < live@.len() ==> final(self)@.invites.contains_key(#[trigger] live@[i]@),
            forall|i: int, j: int|
                0 <= i < j < live@.len() ==> #[trigger] live@[i]@ != #[trigger] live@[j]@,
            forall|k: Seq<char>| #[trigger] final(self)@.invites.contains_key(k) ==> exists|i: int|
                0 <= i < live@.len() && live@[i]@ == k,
    {
        let live = invite_cache_live_keys(&mut self.invites);
        proof {
            assert forall|k: Seq<char>| #[trigger] invite_entries(self.invites).contains_key(k)
                implies (exists|j: int| 0 <= j < live@.len() && live@[j]@ == k) || (exists|j: int|
                0 <= j < self.stored_passwords@.len() && self.stored_passwords@[j]@ == k) by {
                assert(invite_entries(old(self).invites).contains_key(k));
                (*old(self)).lemma_covered_key(k);
                let j = choose|j: int|
                    0 <= j < old(self).stored_passwords@.len() && old(self).stored_passwords@[j]@ == k;
                assert(self.stored_passwords@[j]@ == k);
            }
        }
        purge_invites(&mut self.invites, &self.stored_passwords, &live);
        self.stored_passwords = copy_passwords(&live);
        proof {
            vstd::set_lib::lemma_set_subset_finite(old(self)@.invites.dom(), self@.invites.dom());
            assert forall|k: Seq<char>| #[trigger] invite_entries(self.invites).contains_key(k)
                implies exists|i: int|
                0 <= i < self.stored_passwords@.len() && self.stored_passwords@[i]@ == k by {
                let j = choose|j: int| 0 <= j < live@.len() && live@[j]@ == k;
                assert(self.stored_passwords@[j]@ == live@[j]@);
            }
            lemma_keys_count(live@, self@.invites);
        }
        live
    }
}

impl Room {
    /// Whether the room is full: its live invites and its clients together
    /// reach its capacity. The invite cache drops expired invites first.
    pub fn is_full(&mut self) -> (r: bool)
        requires
            old(self).wf(),
        ensures
            final(self).wf(),
            final(self)@ == old(self)@.with_invites(final(self)@.invites),
            final(self)@.invites.submap_of(old(self)@.invites),
            old(self)@.clients.len() >= old(self)@.options.capacity ==> r,
            final(self)@.invites.len() + old(self)@.clients.len() < old(self)@.options.capacity
                ==> !r,
            r == is_capacity_reached(
                final(self)@.invites.len(),
                old(self)@.clients.len(),
                old(self)@.options.capacity as nat,
            ),
    {
        let live = self.drop_expired_invites();
        proof {
            lemma_map_vals_keys(client_entries(self.clients), client_view_fn());
        }
        capacity_reached(live.len(), client_map_len(&self.clients), self.options.capacity)
    }

    /// A snapshot of the room: clients and entities in order, and the
    /// passwords of the invites that have not expired, which the cache drops
    /// first.
    pub fn info(&mut self) -> (r: RoomInfo)
        requires
            old(self).wf(),
        ensures
            final(self).wf(),
            final(self)@ == old(self)@.with_invites(final(self)@.invites),
            final(self)@.invites.submap_of(old(self)@.invites),
            r.id == old(self)@.id,
            r.host == old(self)@.host_id,
            r.options == old(self)@.options,
            r.clients@ == crate::entries::keys_of(old(self)@.clients),
            r.entities@.len() == old(self)@.entities.len(),
            forall|i: int|
                0 <= i < r.entities@.len() ==> #[trigger] r.entities@[i].0 == old(
                    self,
                )@.entities[i].0 && r.entities@[i].1 == old(self)@.entities[i].1.meta,
            forall|i: int|
                0 <= i < r.invites@.len() ==> final(self)@.invites.contains_key(
                    #[trigger] r.invites@[i]@,
                ),
            forall|i: int, j: int|
                0 <= i < j < r.invites@.len() ==> #[trigger] r.invites@[i]@
                    != #[trigger] r.invites@[j]@,
            r.invites@.len() == final(self)@.invites.len(),
            forall|k: Seq<char>| #[trigger] final(self)@.invites.contains_key(k) ==> exists|i: int|
                0 <= i < r.invites@.len() && r.invites@[i]@ == k,
    {
        proof {
            self.lemma_wf_entries();
            lemma_map_vals_keys(client_entries(self.clients), client_view_fn());
            lemma_map_vals_keys(entity_entries(self.entities), entity_view_fn());
        }
        let ghost cs = client_entries(self.clients);
        let ghost es = entity_entries(self.entities);
        let mut clients: Vec<ClientId> = Vec::new();
        let nc = client_map_len(&self.clients);
        let mut i: usize = 0;
        while i < nc
            invariant
                i <= nc,
                nc == cs.len(),
                client_entries(self.clients) == cs,
                forall|j: int| 0 <= j < cs.len() ==> #[trigger] cs[j].0 == cs[j].1.id,
                clients@ == crate::entries::keys_of(cs).take(i as int),
            decreases nc - i,
        {
            let c = client_map_at(&self.clients, i);
            clients.push(c.id);
            proof {
                assert(clients@ =~= crate::entries::keys_of(cs).take(i + 1));
            }
            i += 1;
        }
        let mut entities: Vec<(EntityId, EntityMeta)> = Vec::new();
        let ne = entity_map_len(&self.entities);
        let mut j: usize = 0;
        while j < ne
            invariant
                j <= ne,
                ne == es.len(),
                entity_entries(self.entities) == es,
                forall|k: int| 0 <= k < es.len() ==> #[trigger] es[k].0 == es[k].1.id,
                entities@.len() == j,
                forall|k: int|
                    0 <= k < j ==> #[trigger] entities@[k].0 == es[k].0 && entities@[k].1
                        == es[k].1.meta,
            decreases ne - j,
        {
            let e = entity_map_at(&self.entities, j);
            let ghost before = entities@;
            entities.push((e.id, e.meta.duplicate()));
            proof {
                assert(*e == es[j as int].1);
                assert(es[j as int].0 == es[j as int].1.id);
                assert(entities@[j as int].0 == es[j as int].0);
                assert(entities@[j as int].1 == es[j as int].1.meta);
            }
            j += 1;
            proof {
                assert forall|k: int| 0 <= k < j implies #[trigger] entities@[k].0 == es[k].0
                    && entities@[k].1 == es[k].1.meta by {
                    if k < j - 1 {
                        assert(entities@[k] == before[k]);
                    }
                }
            }
        }
        let invites = self.drop_expired_invites();
        proof {
            assert(clients@ =~= crate::entries::keys_of(old(self)@.clients));
        }
        RoomInfo {
            id: self.id,
            host: self.host_id,
            entities,
            clients,
            invites,
            options: self.options,
        }
    }
}

} // verus!
