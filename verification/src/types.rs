//! Identifiers, options, errors and the other plain values that rooms exchange.

use vstd::prelude::*;

verus! {

/// Identifier of a room.
pub type RoomId = u64;

/// Identifier of a client (the 128-bit value of a random UUID).
pub type ClientId = u128;

/// Identifier of an entity announced in a room.
pub type EntityId = u64;

/// Role of a client inside a room.
#[derive(Clone, Copy, Debug, PartialEq, Eq, Structural)]
pub enum ClientRole {
    Host,
    Guest,
}

/// Options a host chooses when creating a room.
#[derive(Clone, Copy, Debug, PartialEq, Eq, Structural)]
pub struct RoomOptions {
    pub encryption: bool,
    /// Upper bound on clients plus pending invites.
    pub capacity: usize,
}

/// The smallest capacity a room can usefully have: the host and one guest.
pub const DEFAULT_ROOM_CAPACITY: usize = 2;

impl Default for RoomOptions {
    fn default() -> (r: Self)
        ensures
            r.encryption == false,
            r.capacity == DEFAULT_ROOM_CAPACITY,
    {
        RoomOptions { encryption: false, capacity: DEFAULT_ROOM_CAPACITY }
    }
}

/// Kind of an announced entity.
#[derive(Clone, Copy, Debug, PartialEq, Eq, Structural)]
pub enum EntityKind {
    File,
    Text,
}

/// Description of an announced entity.
#[derive(Debug)]
pub struct EntityMeta {
    pub kind: EntityKind,
    pub name: String,
    pub size: u64,
}

impl EntityMeta {
    pub fn name(&self) -> (r: &str)
        ensures
            r@ == self.name@,
    {
        self.name.as_str()
    }

    /// A copy of this description.
    pub fn duplicate(&self) -> (r: Self)
        ensures
            r == *self,
    {
        EntityMeta { kind: self.kind, name: self.name.clone(), size: self.size }
    }
}

/// A one-time invitation into a room.
#[derive(Debug)]
pub struct Invite {
    pub room_id: RoomId,
    pub password: String,
    /// Expiry, in seconds since the Unix epoch.
    pub exp: i64,
}

impl Invite {
    /// A copy of this invite.
    pub fn duplicate(&self) -> (r: Self)
        ensures
            r == *self,
    {
        Invite { room_id: self.room_id, password: self.password.clone(), exp: self.exp }
    }
}

/// The claims that a client presents with each request.
#[derive(Clone, Copy, Debug, PartialEq, Eq, Structural)]
pub struct AccessToken {
    pub client_id: ClientId,
    pub room_id: RoomId,
    pub role: ClientRole,
    /// Expiry, in seconds since the Unix epoch, if the token expires.
    pub exp: Option<i64>,
}

/// What a failed permission check was about.
#[derive(Clone, Copy, Debug, PartialEq, Eq, Structural)]
pub enum PermissionDetails {
    /// The request needs the host role; the client has this one.
    ClientRole(ClientRole),
    /// The client does not own this entity.
    EntityId(EntityId),
    /// The host asked to kick itself.
    HostCannotKickItself,
    /// The access token has expired.
    TokenExpired,
}

/// Errors of room operations.
#[derive(Debug)]
pub enum RoomError {
    RoomNotFound { room_id: RoomId },
    ClientNotFound { room_id: RoomId, client_id: ClientId },
    EntityNotFound { room_id: RoomId, entity_id: EntityId },
    EntityAlreadyExists { room_id: RoomId, entity_id: EntityId },
    InviteNotFound { room_id: RoomId, invite_password: String },
    RoomIsFull { room_id: RoomId, capacity: usize },
    PermissionDenied { client_id: ClientId, room_id: RoomId, details: Option<PermissionDetails> },
    Other { message: String },
}

/// A snapshot of a room, as broadcast to its clients.
#[derive(Debug)]
pub struct RoomInfo {
    pub id: RoomId,
    pub host: ClientId,
    /// Announced entities, in the order they were announced.
    pub entities: Vec<(EntityId, EntityMeta)>,
    /// Connected clients, in the order they joined.
    pub clients: Vec<ClientId>,
    /// Passwords of the invites that have not expired yet.
    pub invites: Vec<String>,
    pub options: RoomOptions,
}

/// Settings of the access tokens.
#[derive(Debug)]
pub struct JwtConfig {
    pub secret: String,
    /// Lifetime of access tokens in seconds; `None` for tokens that never expire.
    pub ttl_secs: Option<u64>,
}

/// Settings of the rooms.
#[derive(Debug)]
pub struct RoomConfig {
    /// Lifetime of invites in seconds.
    pub invite_ttl_secs: u64,
    pub jwt: JwtConfig,
}

/// Where the database lives.
#[derive(Clone, Debug, PartialEq, Eq)]
pub struct MongodbConfig {
    pub uri: String,
}

} // verus!
