//! The room service: every room by id, and the requests that clients send.

use std::collections::HashMap;
use vstd::prelude::*;
use vstd::std_specs::hash::group_hash_axioms;
use crate::entries::{has_key, lookup, retain_values, swap_remove, upsert};
use crate::ext::is_v4_uuid;
use crate::room::{
    entity_id_of, is_invite_password, not_owned_by, remove_file, add_file, Client, Entity, Room,
    RoomView, MAX_UNIX_TIMESTAMP, MIN_UNIX_TIMESTAMP,
};
use crate::types::{
    AccessToken, ClientId, ClientRole, EntityId, EntityMeta, Invite, RoomConfig, RoomError,
    RoomId, RoomInfo, RoomOptions,
};
use crate::validator::{
    entity_exists_outcome, entity_owner_outcome, host_only_outcome, kick_yourself_outcome,
    then_check, RoomMutValidate, RoomValidate, RoomValidator,
};

verus! {

broadcast use group_hash_axioms;

/// When a token made at `now` expires under a lifetime of `ttl_secs`, if any.
pub open spec fn token_expiry(ttl_secs: Option<u64>, now: i64) -> Option<i64> {
    match ttl_secs {
        Some(d) => Some((now + d) as i64),
        None => None,
    }
}

/// The expiries of tokens made at `now` are representable.
pub open spec fn expiry_in_range(ttl_secs: Option<u64>, now: i64) -> bool {
    match ttl_secs {
        Some(d) => now + d <= MAX_UNIX_TIMESTAMP,
        None => true,
    }
}

/// The service holding every open room.
pub struct RoomRpc {
    rooms: HashMap<RoomId, Room>,
    cfg: RoomConfig,
    next_room_id: u64,
}

impl RoomRpc {
    /// The open rooms by id.
    pub closed spec fn rooms(&self) -> Map<RoomId, Room> {
        self.rooms@
    }

    /// The lifetime of invites, in seconds.
    pub closed spec fn invite_ttl_secs(&self) -> u64 {
        self.cfg.invite_ttl_secs
    }

    /// The lifetime of access tokens, in seconds, if they expire.
    pub closed spec fn token_ttl_secs(&self) -> Option<u64> {
        self.cfg.jwt.ttl_secs
    }

    /// The id the next room will get.
    pub closed spec fn next_id(&self) -> u64 {
        self.next_room_id
    }

    /// Every room keeps its invariant and is stored under its own id.
    pub open spec fn wf(&self) -> bool {
        &&& self.rooms().dom().finite()
        &&& forall|id: RoomId|
            #[trigger] self.rooms().contains_key(id) ==> self.rooms()[id].wf()
                && self.rooms()[id]@.id == id && self.rooms()[id]@.invite_ttl_secs
                == self.invite_ttl_secs()
    }

    /// Every open room's id is below the id the next room gets, so that id is
    /// fresh; this holds until the room counter wraps.
    pub open spec fn ids_fresh(&self) -> bool {
        forall|id: RoomId| #[trigger] self.rooms().contains_key(id) ==> id < self.next_id()
    }

    /// The service keeps everything but the room `id`, which becomes `room`.
    pub open spec fn updated(&self, old_rpc: &RoomRpc, id: RoomId, room: RoomView) -> bool {
        &&& self.rooms().dom() == old_rpc.rooms().dom()
        &&& self.rooms()[id]@ == room
        &&& forall|other: RoomId| #[trigger]
            self.rooms().contains_key(other) && other != id ==> self.rooms()[other]
                == old_rpc.rooms()[other]
        &&& self.invite_ttl_secs() == old_rpc.invite_ttl_secs()
        &&& self.token_ttl_secs() == old_rpc.token_ttl_secs()
        &&& self.next_id() == old_rpc.next_id()
    }

    /// Nothing that the contracts see changed.
    pub open spec fn unchanged(&self, old_rpc: &RoomRpc) -> bool {
        &&& self.rooms().dom() == old_rpc.rooms().dom()
        &&& forall|id: RoomId| #[trigger]
            self.rooms().contains_key(id) ==> self.rooms()[id]@ == old_rpc.rooms()[id]@
        &&& self.invite_ttl_secs() == old_rpc.invite_ttl_secs()
        &&& self.token_ttl_secs() == old_rpc.token_ttl_secs()
        &&& self.next_id() == old_rpc.next_id()
    }

    pub fn new(cfg: RoomConfig) -> (r: Self)
        ensures
            r.wf(),
            r.ids_fresh(),
            r.rooms() == Map::<RoomId, Room>::empty(),
            r.invite_ttl_secs() == cfg.invite_ttl_secs,
            r.token_ttl_secs() == cfg.jwt.ttl_secs,
            r.next_id() == 0,
    {
        let r = RoomRpc { rooms: HashMap::new(), cfg, next_room_id: 0 };
        proof {
            assert(r.rooms().dom() =~= Set::<RoomId>::empty());
        }
        r
    }

    /// Takes the room `room_id` out of the service; fails when there is none.
    fn take_room(&mut self, room_id: RoomId) -> (r: Result<Room, RoomError>)
        requires
            old(self).wf(),
        ensures
            final(self).cfg == old(self).cfg,
            final(self).next_room_id == old(self).next_room_id,
            final(self).rooms@ == old(self).rooms@.remove(room_id),
            old(self).rooms@.contains_key(room_id) ==> r == Ok::<Room, RoomError>(
                old(self).rooms@[room_id],
            ),
            !old(self).rooms@.contains_key(room_id) ==> r == Err::<Room, RoomError>(
                RoomError::RoomNotFound { room_id },
            ),
    {
        match self.rooms.remove(&room_id) {
            Some(room) => Ok(room),
            None => Err(RoomError::RoomNotFound { room_id }),
        }
    }

    /// Puts `room` back under `room_id`.
    fn put_room(&mut self, room_id: RoomId, room: Room)
        ensures
            final(self).cfg == old(self).cfg,
            final(self).next_room_id == old(self).next_room_id,
            final(self).rooms@ == old(self).rooms@.insert(room_id, room),
    {
        self.rooms.insert(room_id, room);
    }
}

impl RoomRpc {
    proof fn lemma_put_back(&self, old_rpc: &RoomRpc, id: RoomId, room: Room)
        requires
            old_rpc.wf(),
            old_rpc.rooms@.contains_key(id),
            self.rooms@ == old_rpc.rooms@.remove(id).insert(id, room),
            self.cfg == old_rpc.cfg,
            self.next_room_id == old_rpc.next_room_id,
            room.wf(),
            room@.id == id,
            room@.invite_ttl_secs == old_rpc.cfg.invite_ttl_secs,
        ensures
            self.wf(),
            self.updated(old_rpc, id, room@),
            room@ == old_rpc.rooms@[id]@ ==> self.unchanged(old_rpc),
    {
        assert(self.rooms@.dom() =~= old_rpc.rooms@.dom());
    }

    proof fn lemma_not_found(&self, old_rpc: &RoomRpc, id: RoomId)
        requires
            old_rpc.wf(),
            !old_rpc.rooms@.contains_key(id),
            self.rooms@ == old_rpc.rooms@.remove(id),
            self.cfg == old_rpc.cfg,
            self.next_room_id == old_rpc.next_room_id,
        ensures
            self.wf(),
            self.unchanged(old_rpc),
    {
        assert(self.rooms@ =~= old_rpc.rooms@);
    }

    /// Withdraws an invite of the requester's room; only the host may.
    pub fn revoke_invite(&mut self, tok: &AccessToken, invite_id: String) -> (r: Result<(), RoomError>)
        requires
            old(self).wf(),
        ensures
            final(self).wf(),
            !old(self).rooms().contains_key(tok.room_id) ==> r == Err::<(), RoomError>(
                RoomError::RoomNotFound { room_id: tok.room_id },
            ) && final(self).unchanged(old(self)),
            old(self).rooms().contains_key(tok.room_id) && host_only_outcome(*tok) is Err ==> r
                == host_only_outcome(*tok) && final(self).unchanged(old(self)),
            old(self).rooms().contains_key(tok.room_id) && host_only_outcome(*tok) is Ok ==> {
                let room = old(self).rooms()[tok.room_id]@;
                &&& final(self).updated(
                    old(self),
                    tok.room_id,
                    room.with_invites(room.invites.remove(invite_id@)),
                )
                &&& (r is Ok ==> room.invites.contains_key(invite_id@))
                &&& (r is Err ==> r == Err::<(), RoomError>(
                    RoomError::InviteNotFound { room_id: tok.room_id, invite_password: invite_id },
                ))
                &&& (!room.invites.contains_key(invite_id@) ==> r is Err)
            },
    {
        let mut room = match self.take_room(tok.room_id) {
            Ok(room) => room,
            Err(e) => {
                proof {
                    self.lemma_not_found(old(self), tok.room_id);
                }
                return Err(e);
            },
        };
        let ghost old_room = room;
        let checked = RoomValidator::new(tok, &room).validate_revoke_invite();
        if let Err(e) = checked {
            self.put_room(tok.room_id, room);
            proof {
                self.lemma_put_back(old(self), tok.room_id, old_room);
            }
            return Err(e);
        }
        let r = room.revoke_invite(invite_id);
        self.put_room(tok.room_id, room);
        proof {
            self.lemma_put_back(old(self), tok.room_id, room);
        }
        r
    }

    /// Removes a client, and what it owns, from the requester's room; only the
    /// host may, and not itself.
    pub fn kick(&mut self, tok: &AccessToken, client_id: ClientId) -> (r: Result<(), RoomError>)
        requires
            old(self).wf(),
        ensures
            final(self).wf(),
            !old(self).rooms().contains_key(tok.room_id) ==> r == Err::<(), RoomError>(
                RoomError::RoomNotFound { room_id: tok.room_id },
            ) && final(self).unchanged(old(self)),
            old(self).rooms().contains_key(tok.room_id) ==> {
                let room = old(self).rooms()[tok.room_id]@;
                let check = then_check(host_only_outcome(*tok), kick_yourself_outcome(*tok, client_id));
                &&& (check is Err ==> r == check && final(self).unchanged(old(self)))
                &&& (check is Ok ==> r is Ok && final(self).updated(
                    old(self),
                    tok.room_id,
                    room.with_clients(swap_remove(room.clients, client_id)).with_entities(
                        retain_values(room.entities, not_owned_by(client_id)),
                    ),
                ))
            },
    {
        let mut room = match self.take_room(tok.room_id) {
            Ok(room) => room,
            Err(e) => {
                proof {
                    self.lemma_not_found(old(self), tok.room_id);
                }
                return Err(e);
            },
        };
        let ghost old_room = room;
        let checked = RoomValidator::new(tok, &room).validate_kick(client_id);
        if let Err(e) = checked {
            self.put_room(tok.room_id, room);
            proof {
                self.lemma_put_back(old(self), tok.room_id, old_room);
            }
            return Err(e);
        }
        let r = room.remove_client(client_id);
        self.put_room(tok.room_id, room);
        proof {
            self.lemma_put_back(old(self), tok.room_id, room);
        }
        r
    }

    /// Announces an entity of the requester in its room and returns the
    /// entity's id; fails when the requester already announced one of that name
    /// or is not a client of the room.
    pub fn announce_entity(&mut self, tok: &AccessToken, meta: EntityMeta) -> (r: Result<EntityId, RoomError>)
        requires
            old(self).wf(),
        ensures
            final(self).wf(),
            !old(self).rooms().contains_key(tok.room_id) ==> r == Err::<EntityId, RoomError>(
                RoomError::RoomNotFound { room_id: tok.room_id },
            ) && final(self).unchanged(old(self)),
            old(self).rooms().contains_key(tok.room_id) ==> {
                let room = old(self).rooms()[tok.room_id]@;
                let id = entity_id_of(tok.client_id, meta.name@);
                &&& (entity_exists_outcome(room, id) is Err ==> r == Err::<EntityId, RoomError>(
                    entity_exists_outcome(room, id)->Err_0,
                ) && final(self).unchanged(old(self)))
                &&& (entity_exists_outcome(room, id) is Ok && !has_key(room.clients, tok.client_id)
                    ==> r == Err::<EntityId, RoomError>(
                    RoomError::ClientNotFound { room_id: tok.room_id, client_id: tok.client_id },
                ) && final(self).unchanged(old(self)))
                &&& (entity_exists_outcome(room, id) is Ok && has_key(room.clients, tok.client_id)
                    ==> r == Ok::<EntityId, RoomError>(id) && final(self).updated(
                    old(self),
                    tok.room_id,
                    room.with_clients(add_file(room.clients, tok.client_id, id)).with_entities(
                        room.entities.push(
                            (id, crate::room::EntityView { id, meta, owner: tok.client_id }),
                        ),
                    ),
                ))
            },
    {
        let mut room = match self.take_room(tok.room_id) {
            Ok(room) => room,
            Err(e) => {
                proof {
                    self.lemma_not_found(old(self), tok.room_id);
                }
                return Err(e);
            },
        };
        let ghost old_room = room;
        let entity = Entity::new(tok.client_id, meta);
        let entity_id = entity.id();
        let checked = RoomValidator::new(tok, &room).validate_announce_entity(entity_id);
        if let Err(e) = checked {
            self.put_room(tok.room_id, room);
            proof {
                self.lemma_put_back(old(self), tok.room_id, old_room);
            }
            return Err(e);
        }
        let added = room.add_entity(entity);
        self.put_room(tok.room_id, room);
        proof {
            self.lemma_put_back(old(self), tok.room_id, room);
            if old_room@ == room@ {
            }
        }
        match added {
            Ok(()) => Ok(entity_id),
            Err(e) => Err(e),
        }
    }

    /// Removes an entity of the requester's room; only its owner may.
    pub fn remove_entity(&mut self, tok: &AccessToken, entity_id: EntityId) -> (r: Result<(), RoomError>)
        requires
            old(self).wf(),
        ensures
            final(self).wf(),
            !old(self).rooms().contains_key(tok.room_id) ==> r == Err::<(), RoomError>(
                RoomError::RoomNotFound { room_id: tok.room_id },
            ) && final(self).unchanged(old(self)),
            old(self).rooms().contains_key(tok.room_id) ==> {
                let room = old(self).rooms()[tok.room_id]@;
                let check = entity_owner_outcome(*tok, room, entity_id);
                &&& (check is Err ==> r == check && final(self).unchanged(old(self)))
                &&& (check is Ok ==> r is Ok && final(self).updated(
                    old(self),
                    tok.room_id,
                    room.with_entities(swap_remove(room.entities, entity_id)).with_clients(
                        remove_file(room.clients, tok.client_id, entity_id),
                    ),
                ))
            },
    {
        let mut room = match self.take_room(tok.room_id) {
            Ok(room) => room,
            Err(e) => {
                proof {
                    self.lemma_not_found(old(self), tok.room_id);
                }
                return Err(e);
            },
        };
        let ghost old_room = room;
        let checked = RoomValidator::new(tok, &room).validate_remove_entity(entity_id);
        if let Err(e) = checked {
            self.put_room(tok.room_id, room);
            proof {
                self.lemma_put_back(old(self), tok.room_id, old_room);
            }
            return Err(e);
        }
        let r = room.remove_entity(entity_id);
        self.put_room(tok.room_id, room);
        proof {
            self.lemma_put_back(old(self), tok.room_id, room);
        }
        r
    }
}

impl RoomRpc {
    /// Creates an invite in the requester's room; only the host may, and only
    /// while the room is not full. `Ok(None)`: the drawn password collided with
    /// a live invite and nothing was created; the caller draws again.
    pub fn invite(&mut self, tok: &AccessToken, now: i64) -> (r: Result<Option<Invite>, RoomError>)
        requires
            old(self).wf(),
            MIN_UNIX_TIMESTAMP <= now,
            now + old(self).invite_ttl_secs() <= MAX_UNIX_TIMESTAMP,
        ensures
            final(self).wf(),
            !old(self).rooms().contains_key(tok.room_id) ==> r == Err::<Option<Invite>, RoomError>(
                RoomError::RoomNotFound { room_id: tok.room_id },
            ) && final(self).unchanged(old(self)),
            old(self).rooms().contains_key(tok.room_id) && host_only_outcome(*tok) is Err ==> r
                == Err::<Option<Invite>, RoomError>(host_only_outcome(*tok)->Err_0)
                && final(self).unchanged(old(self)),
            old(self).rooms().contains_key(tok.room_id) && host_only_outcome(*tok) is Ok ==> {
                let room = old(self).rooms()[tok.room_id]@;
                let now_room = final(self).rooms()[tok.room_id]@;
                &&& final(self).updated(old(self), tok.room_id, now_room)
                &&& now_room == room.with_invites(now_room.invites)
                &&& (r matches Ok(Some(inv)) ==> {
                    &&& inv.room_id == tok.room_id
                    &&& inv.exp == now + room.invite_ttl_secs
                    &&& is_invite_password(inv.password@)
                    &&& now_room.invites.contains_key(inv.password@)
                    &&& now_room.invites[inv.password@] == inv
                    &&& now_room.invites.remove(inv.password@).submap_of(room.invites)
                })
                &&& (r matches Ok(None) ==> now_room.invites.submap_of(room.invites))
                &&& (r matches Ok(None) ==> exists|p: Seq<char>|
                    #[trigger] room.invites.contains_key(p) && is_invite_password(p))
                &&& (r is Err ==> r == Err::<Option<Invite>, RoomError>(
                    RoomError::RoomIsFull { room_id: tok.room_id, capacity: room.options.capacity },
                ) && now_room.invites.submap_of(room.invites))
                &&& (r is Err ==> now_room.invites.len() + room.clients.len() >= room.options.capacity)
                &&& (r is Ok ==> now_room.invites.len() + room.clients.len() <= room.options.capacity)
                &&& (room.clients.len() >= room.options.capacity ==> r is Err)
                &&& (room.invites.len() + room.clients.len() < room.options.capacity ==> r is Ok)
            },
    {
        let mut room = match self.take_room(tok.room_id) {
            Ok(room) => room,
            Err(e) => {
                proof {
                    self.lemma_not_found(old(self), tok.room_id);
                }
                return Err(e);
            },
        };
        let ghost old_room = room;
        let mut validator = RoomValidator::new(tok, &mut room);
        let checked = validator.validate_invite();
        let _ = validator.into_room();
        if let Err(e) = checked {
            self.put_room(tok.room_id, room);
            proof {
                self.lemma_put_back(old(self), tok.room_id, room);
                vstd::set_lib::lemma_len_subset(room@.invites.dom(), old_room@.invites.dom());
            }
            return Err(e);
        }
        proof {
            vstd::set_lib::lemma_len_subset(room@.invites.dom(), old_room@.invites.dom());
        }
        let ghost checked_room = room;
        let invite = room.generate_invite(now);
        self.put_room(tok.room_id, room);
        proof {
            self.lemma_put_back(old(self), tok.room_id, room);
            if let Ok(Some(inv)) = &invite {
                assert(room@.invites.remove(inv.password@).submap_of(old_room@.invites)) by {
                    assert forall|k: Seq<char>| #[trigger] room@.invites.remove(inv.password@).contains_key(k)
                        implies old_room@.invites.contains_key(k) && room@.invites.remove(inv.password@)[k]
                        == old_room@.invites[k] by {
                        assert(checked_room@.invites.contains_key(k));
                    }
                }
            }
            if let Ok(None) = &invite {
                let p = choose|p: Seq<char>|
                    #[trigger] checked_room@.invites.contains_key(p) && is_invite_password(p);
                assert(old_room@.invites.contains_key(p));
            }
        }
        invite
    }
}

impl RoomRpc {
    /// The access token of a client of room `room_id` made at `now`.
    fn make_token(&self, client_id: ClientId, room_id: RoomId, role: ClientRole, now: i64) -> (r: AccessToken)
        requires
            expiry_in_range(self.token_ttl_secs(), now),
        ensures
            r == (AccessToken { client_id, room_id, role, exp: token_expiry(self.token_ttl_secs(), now) }),
    {
        let exp = match self.cfg.jwt.ttl_secs {
            Some(d) => Some((now as i128 + d as i128) as i64),
            None => None,
        };
        AccessToken { client_id, room_id, role, exp }
    }

    /// Opens a room with `options` whose host is a new client, and returns the
    /// host's token. Rooms get consecutive ids, wrapping after `u64::MAX`.
    pub fn create(&mut self, options: RoomOptions, now: i64) -> (r: AccessToken)
        requires
            old(self).wf(),
            expiry_in_range(old(self).token_ttl_secs(), now),
        ensures
            final(self).wf(),
            r.room_id == old(self).next_id(),
            old(self).ids_fresh() ==> !old(self).rooms().contains_key(r.room_id),
            old(self).ids_fresh() && old(self).next_id() < u64::MAX ==> final(self).ids_fresh(),
            r.role == ClientRole::Host,
            is_v4_uuid(r.client_id),
            r.exp == token_expiry(old(self).token_ttl_secs(), now),
            final(self).next_id() == old(self).next_id().wrapping_add(1),
            final(self).invite_ttl_secs() == old(self).invite_ttl_secs(),
            final(self).token_ttl_secs() == old(self).token_ttl_secs(),
            final(self).rooms().dom() == old(self).rooms().dom().insert(r.room_id),
            forall|other: RoomId| #[trigger]
                old(self).rooms().contains_key(other) && other != r.room_id ==> final(self).rooms()[other]
                    == old(self).rooms()[other],
            ({
                let room = final(self).rooms()[r.room_id]@;
                &&& room.id == r.room_id
                &&& room.host_id == r.client_id
                &&& room.clients == seq![(r.client_id, crate::room::ClientView {
                    id: r.client_id,
                    role: ClientRole::Host,
                    files: Set::empty(),
                })]
                &&& room.entities.len() == 0
                &&& room.invites == Map::<Seq<char>, Invite>::empty()
                &&& room.options == options
            }),
    {
        let client = Client::new(ClientRole::Host);
        let client_role = client.role();
        let client_id = client.id();
        let room_id = self.next_room_id;
        self.next_room_id = self.next_room_id.wrapping_add(1);
        let ghost host = client;
        let room = Room::new(room_id, options, client, &self.cfg);
        let token = self.make_token(client_id, room_id, client_role, now);
        self.put_room(room_id, room);
        proof {
            assert(host@ == (crate::room::ClientView { id: client_id, role: ClientRole::Host, files: Set::empty() }));
            assert(self.rooms@.dom() =~= old(self).rooms@.dom().insert(room_id));
        }
        token
    }

    /// Closes the room `room_id`, as when its host leaves; returns it if it was
    /// open.
    pub fn close_room(&mut self, room_id: RoomId) -> (r: Option<Room>)
        requires
            old(self).wf(),
        ensures
            final(self).wf(),
            final(self).rooms() == old(self).rooms().remove(room_id),
            final(self).invite_ttl_secs() == old(self).invite_ttl_secs(),
            final(self).token_ttl_secs() == old(self).token_ttl_secs(),
            final(self).next_id() == old(self).next_id(),
            r is Some == old(self).rooms().contains_key(room_id),
            old(self).ids_fresh() ==> final(self).ids_fresh(),
            r matches Some(room) ==> room == old(self).rooms()[room_id],
    {
        self.rooms.remove(&room_id)
    }

    /// Admits a new guest into room `room_id` by the invite with password
    /// `invite_password`, which is used up, and returns the guest's token.
    pub fn connect(&mut self, room_id: RoomId, invite_password: String, now: i64) -> (r: Result<AccessToken, RoomError>)
        requires
            old(self).wf(),
            expiry_in_range(old(self).token_ttl_secs(), now),
        ensures
            final(self).wf(),
            !old(self).rooms().contains_key(room_id) ==> r == Err::<AccessToken, RoomError>(
                RoomError::RoomNotFound { room_id },
            ) && final(self).unchanged(old(self)),
            old(self).rooms().contains_key(room_id) ==> {
                let room = old(self).rooms()[room_id]@;
                let now_room = final(self).rooms()[room_id]@;
                &&& final(self).updated(old(self), room_id, now_room)
                &&& now_room.invites == room.invites.remove(invite_password@)
                &&& (r matches Ok(tok) ==> {
                    &&& room.invites.contains_key(invite_password@)
                    &&& tok.room_id == room_id
                    &&& tok.role == ClientRole::Guest
                    &&& is_v4_uuid(tok.client_id)
                    &&& tok.exp == token_expiry(old(self).token_ttl_secs(), now)
                    &&& now_room == room.with_invites(now_room.invites).with_clients(
                        upsert(room.clients, tok.client_id, crate::room::ClientView {
                            id: tok.client_id,
                            role: ClientRole::Guest,
                            files: Set::empty(),
                        }),
                    )
                })
                &&& (r is Err ==> r == Err::<AccessToken, RoomError>(
                    RoomError::InviteNotFound { room_id, invite_password },
                ) && now_room == room.with_invites(now_room.invites))
                &&& (!room.invites.contains_key(invite_password@) ==> r is Err)
            },
    {
        let client = Client::new(ClientRole::Guest);
        let client_id = client.id();
        let client_role = client.role();
        let guest_token = self.make_token(client_id, room_id, client_role, now);
        let mut room = match self.take_room(room_id) {
            Ok(room) => room,
            Err(e) => {
                proof {
                    self.lemma_not_found(old(self), room_id);
                }
                return Err(e);
            },
        };
        let ghost guest = client;
        let added = room.add_client(client, invite_password);
        self.put_room(room_id, room);
        proof {
            self.lemma_put_back(old(self), room_id, room);
            assert(guest@ == (crate::room::ClientView { id: client_id, role: ClientRole::Guest, files: Set::empty() }));
        }
        match added {
            Ok(()) => Ok(guest_token),
            Err(e) => Err(e),
        }
    }

    /// Removes client `client_id`, and what it owns, from room `room_id`, as
    /// when a guest disconnects; nothing happens when the room is closed.
    pub fn leave(&mut self, room_id: RoomId, client_id: ClientId)
        requires
            old(self).wf(),
        ensures
            final(self).wf(),
            !old(self).rooms().contains_key(room_id) ==> final(self).unchanged(old(self)),
            old(self).rooms().contains_key(room_id) ==> {
                let room = old(self).rooms()[room_id]@;
                final(self).updated(
                    old(self),
                    room_id,
                    room.with_clients(swap_remove(room.clients, client_id)).with_entities(
                        retain_values(room.entities, not_owned_by(client_id)),
                    ),
                )
            },
    {
        let mut room = match self.take_room(room_id) {
            Ok(room) => room,
            Err(_) => {
                proof {
                    self.lemma_not_found(old(self), room_id);
                }
                return;
            },
        };
        let _ = room.remove_client(client_id);
        self.put_room(room_id, room);
        proof {
            self.lemma_put_back(old(self), room_id, room);
        }
    }

    /// A snapshot of room `room_id`, if it is open, as broadcast to its
    /// clients after each change.
    pub fn room_info(&mut self, room_id: RoomId) -> (r: Option<RoomInfo>)
        requires
            old(self).wf(),
        ensures
            final(self).wf(),
            !old(self).rooms().contains_key(room_id) ==> r is None && final(self).unchanged(old(self)),
            old(self).rooms().contains_key(room_id) ==> {
                let room = old(self).rooms()[room_id]@;
                let now_room = final(self).rooms()[room_id]@;
                &&& final(self).updated(old(self), room_id, now_room)
                &&& now_room == room.with_invites(now_room.invites)
                &&& now_room.invites.submap_of(room.invites)
                &&& r matches Some(info) && {
                    &&& info.id == room_id
                    &&& info.host == room.host_id
                    &&& info.options == room.options
                    &&& info.clients@ == crate::entries::keys_of(room.clients)
                    &&& info.entities@.len() == room.entities.len()
                    &&& (forall|i: int|
                        0 <= i < info.entities@.len() ==> #[trigger] info.entities@[i].0
                            == room.entities[i].0 && info.entities@[i].1 == room.entities[i].1.meta)
                    &&& (forall|i: int|
                        0 <= i < info.invites@.len() ==> now_room.invites.contains_key(
                            #[trigger] info.invites@[i]@,
                        ))
                    &&& (forall|i: int, j: int|
                        0 <= i < j < info.invites@.len() ==> #[trigger] info.invites@[i]@
                            != #[trigger] info.invites@[j]@)
                    &&& info.invites@.len() == now_room.invites.len()
                    &&& (forall|k: Seq<char>| #[trigger] now_room.invites.contains_key(k) ==> exists|i: int|
                        0 <= i < info.invites@.len() && info.invites@[i]@ == k)
                }
            },
    {
        let mut room = match self.take_room(room_id) {
            Ok(room) => room,
            Err(_) => {
                proof {
                    self.lemma_not_found(old(self), room_id);
                }
                return None;
            },
        };
        let info = room.info();
        self.put_room(room_id, room);
        proof {
            self.lemma_put_back(old(self), room_id, room);
        }
        Some(info)
    }
}

} // verus!
