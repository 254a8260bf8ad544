//! Checks that a request may act on a room, given the requester's token.

use vstd::prelude::*;
use crate::entries::{has_key, lookup};
use crate::room::{Room, RoomView};
use crate::types::{AccessToken, ClientId, ClientRole, EntityId, PermissionDetails, RoomError};

verus! {

/// The outcome of the host-only check: only a host may proceed.
pub open spec fn host_only_outcome(token: AccessToken) -> Result<(), RoomError> {
    if token.role != ClientRole::Host {
        Err(
            RoomError::PermissionDenied {
                client_id: token.client_id,
                room_id: token.room_id,
                details: Some(PermissionDetails::ClientRole(token.role)),
            },
        )
    } else {
        Ok(())
    }
}

/// The outcome of the check that a client does not kick itself.
pub open spec fn kick_yourself_outcome(token: AccessToken, client_id: ClientId) -> Result<(), RoomError> {
    if token.client_id == client_id {
        Err(
            RoomError::PermissionDenied {
                client_id: token.client_id,
                room_id: token.room_id,
                details: Some(PermissionDetails::HostCannotKickItself),
            },
        )
    } else {
        Ok(())
    }
}

/// The outcome of the check that an entity is new to the room.
pub open spec fn entity_exists_outcome(room: RoomView, entity_id: EntityId) -> Result<(), RoomError> {
    if has_key(room.entities, entity_id) {
        Err(RoomError::EntityAlreadyExists { entity_id, room_id: room.id })
    } else {
        Ok(())
    }
}

/// The outcome of the check that the requester owns an entity of the room.
pub open spec fn entity_owner_outcome(token: AccessToken, room: RoomView, entity_id: EntityId) -> Result<
    (),
    RoomError,
> {
    if !has_key(room.entities, entity_id) {
        Err(RoomError::EntityNotFound { room_id: room.id, entity_id })
    } else if lookup(room.entities, entity_id).owner != token.client_id {
        Err(
            RoomError::PermissionDenied {
                client_id: token.client_id,
                room_id: token.room_id,
                details: Some(PermissionDetails::EntityId(entity_id)),
            },
        )
    } else {
        Ok(())
    }
}

/// The first failing outcome of two checks, or success.
pub open spec fn then_check(first: Result<(), RoomError>, second: Result<(), RoomError>) -> Result<
    (),
    RoomError,
> {
    if first is Err {
        first
    } else {
        second
    }
}

/// Checks a request of the holder of `token` against `room`.
pub struct RoomValidator<'a, R> {
    token: &'a AccessToken,
    room: R,
}

/// Checks that read the room.
pub trait RoomValidate {
    /// The room under check keeps its invariant.
    spec fn room_ready(&self) -> bool;

    fn validate_revoke_invite(&self) -> Result<(), RoomError>;

    fn validate_kick(&self, client_id: ClientId) -> Result<(), RoomError>;

    fn validate_announce_entity(&self, entity_id: EntityId) -> Result<(), RoomError>
        requires
            self.room_ready(),
    ;

    fn validate_remove_entity(&self, entity_id: EntityId) -> Result<(), RoomError>
        requires
            self.room_ready(),
    ;
}

/// Checks that may let the room drop expired invites.
pub trait RoomMutValidate {
    /// The room under check keeps its invariant.
    spec fn room_ready_mut(&self) -> bool;

    fn validate_invite(&mut self) -> Result<(), RoomError>
        requires
            old(self).room_ready_mut(),
    ;
}

impl<'a, R> RoomValidator<'a, R> {
    /// The token of the requester.
    pub closed spec fn held_token(&self) -> AccessToken {
        *self.token
    }

    /// The room under check.
    pub closed spec fn held_room(&self) -> R {
        self.room
    }

    pub fn new(token: &'a AccessToken, room: R) -> (r: Self)
        ensures
            r.held_token() == *token,
            r.held_room() == room,
    {
        RoomValidator { token, room }
    }

    /// Ends the checks and hands the room back.
    pub fn into_room(self) -> (r: R)
        ensures
            r == self.held_room(),
    {
        self.room
    }
}

impl<'a, 'b> RoomValidator<'a, &'b Room> {
    fn check_host_only(&self) -> (r: Result<(), RoomError>)
        ensures
            r == host_only_outcome(*self.token),
    {
        if self.token.role != ClientRole::Host {
            return Err(
                RoomError::PermissionDenied {
                    client_id: self.token.client_id,
                    room_id: self.token.room_id,
                    details: Some(PermissionDetails::ClientRole(self.token.role)),
                },
            );
        }
        Ok(())
    }

    fn check_entity_owner(&self, entity_id: EntityId) -> (r: Result<(), RoomError>)
        requires
            self.room.wf(),
        ensures
            r == entity_owner_outcome(*self.token, self.room@, entity_id),
    {
        if !self.room.is_entity_owner(entity_id, self.token.client_id)? {
            return Err(
                RoomError::PermissionDenied {
                    client_id: self.token.client_id,
                    room_id: self.token.room_id,
                    details: Some(PermissionDetails::EntityId(entity_id)),
                },
            );
        }
        Ok(())
    }

    fn check_kick_yourself(&self, client_id: ClientId) -> (r: Result<(), RoomError>)
        ensures
            r == kick_yourself_outcome(*self.token, client_id),
    {
        if self.token.client_id == client_id {
            return Err(
                RoomError::PermissionDenied {
                    client_id: self.token.client_id,
                    room_id: self.token.room_id,
                    details: Some(PermissionDetails::HostCannotKickItself),
                },
            );
        }
        Ok(())
    }

    fn check_entity_exists(&self, file_id: EntityId) -> (r: Result<(), RoomError>)
        requires
            self.room.wf(),
        ensures
            r == entity_exists_outcome(self.room@, file_id),
    {
        if self.room.is_file_exists(file_id) {
            return Err(RoomError::EntityAlreadyExists { entity_id: file_id, room_id: self.room.id() });
        }
        Ok(())
    }
}

impl<'a, 'b> RoomValidate for RoomValidator<'a, &'b Room> {
    open spec fn room_ready(&self) -> bool {
        self.held_room().wf()
    }

    fn validate_revoke_invite(&self) -> (r: Result<(), RoomError>)
        ensures
            r == host_only_outcome(self.held_token()),
    {
        self.check_host_only()?;
        Ok(())
    }

    fn validate_kick(&self, client_id: ClientId) -> (r: Result<(), RoomError>)
        ensures
            r == then_check(host_only_outcome(self.held_token()), kick_yourself_outcome(self.held_token(), client_id)),
    {
        self.check_host_only()?;
        self.check_kick_yourself(client_id)?;
        Ok(())
    }

    fn validate_announce_entity(&self, entity_id: EntityId) -> (r: Result<(), RoomError>)
        ensures
            r == entity_exists_outcome(self.held_room()@, entity_id),
    {
        self.check_entity_exists(entity_id)?;
        Ok(())
    }

    fn validate_remove_entity(&self, entity_id: EntityId) -> (r: Result<(), RoomError>)
        ensures
            r == entity_owner_outcome(self.held_token(), self.held_room()@, entity_id),
    {
        self.check_entity_owner(entity_id)?;
        Ok(())
    }
}

impl<'a, 'b> RoomMutValidate for RoomValidator<'a, &'b mut Room> {
    open spec fn room_ready_mut(&self) -> bool {
        (*self.held_room()).wf()
    }

    fn validate_invite(&mut self) -> (r: Result<(), RoomError>)
        ensures
            final(self).held_token() == old(self).held_token(),
            *final(final(self).held_room()) == *final(old(self).held_room()),
            (*final(self).held_room()).wf(),
            host_only_outcome(old(self).held_token()) is Err ==> r == host_only_outcome(old(self).held_token())
                && (*final(self).held_room())@ == (*old(self).held_room())@,
            host_only_outcome(old(self).held_token()) is Ok ==> {
                &&& (*final(self).held_room())@ == (*old(self).held_room())@.with_invites((*final(self).held_room())@.invites)
                &&& (*final(self).held_room())@.invites.submap_of((*old(self).held_room())@.invites)
                &&& (r is Ok || r == Err::<(), RoomError>(RoomError::RoomIsFull {
                    room_id: old(self).held_token().room_id,
                    capacity: (*old(self).held_room())@.options.capacity,
                }))
                &&& ((*old(self).held_room())@.clients.len() >= (*old(self).held_room())@.options.capacity ==> r is Err)
                &&& ((*final(self).held_room())@.invites.len() + (*old(self).held_room())@.clients.len()
                    < (*old(self).held_room())@.options.capacity ==> r is Ok)
                &&& (r is Ok <==> (*final(self).held_room())@.invites.len()
                    + (*old(self).held_room())@.clients.len()
                    < (*old(self).held_room())@.options.capacity)
            },
    {
        if self.token.role != ClientRole::Host {
            return Err(
                RoomError::PermissionDenied {
                    client_id: self.token.client_id,
                    room_id: self.token.room_id,
                    details: Some(PermissionDetails::ClientRole(self.token.role)),
                },
            );
        }
        if self.room.is_full() {
            return Err(RoomError::RoomIsFull { room_id: self.token.room_id, capacity: self.room.capacity() });
        }
        Ok(())
    }
}

} // verus!
