//! The records that the database keeps of peers, rooms, entities and invites,
//! and the rules on their lifetimes. Times are seconds since the Unix epoch.

use std::collections::HashSet;
use vstd::prelude::*;
use crate::ext::{random_below, string_push};
use crate::types::{EntityId, EntityKind, RoomId};

verus! {

/// Identifier of a peer (the 128-bit value of a random UUID).
pub type PeerId = u128;

/// How long an invite stays valid, in seconds (one hour).
pub const INVITE_TTL_SECS: i64 = 3600;

/// How long a room is kept, in seconds (one day).
pub const ROOM_TTL_SECS: i64 = 86400;

/// How long a peer is kept, in seconds (one day).
pub const PEER_TTL_SECS: i64 = 86400;

/// How long an entity is kept, in seconds (one day).
pub const ENTITY_TTL_SECS: i64 = 86400;

/// Where a peer stands with respect to rooms.
#[derive(Clone, Copy, Debug, PartialEq, Eq, Structural)]
pub enum PeerState {
    Disconnected,
    Connecting { connecting_at: i64, room_id: RoomId },
    Connected { connected_at: i64, room_id: RoomId },
}

/// A peer of the service.
#[derive(Clone, Copy, Debug, PartialEq, Eq, Structural)]
pub struct Peer {
    pub id: PeerId,
    pub create_at: i64,
    pub state: PeerState,
}

/// A room as stored.
#[derive(Debug)]
pub struct Room {
    pub id: RoomId,
    pub create_at: i64,
    pub peers: HashSet<PeerId>,
    pub entities: HashSet<EntityId>,
}

/// An entity as stored.
#[derive(Debug)]
pub struct Entity {
    pub id: EntityId,
    pub create_at: i64,
    pub kind: EntityKind,
    pub name: String,
    pub size: usize,
    pub owner_id: PeerId,
}

/// An invite as stored: a passphrase that leads to a peer.
#[derive(Debug)]
pub struct Invite {
    pub passphrase: String,
    pub create_at: i64,
    pub peer_id: PeerId,
}

impl Invite {
    /// An invite expires `INVITE_TTL_SECS` after its creation.
    pub open spec fn expired_at(&self, now: i64) -> bool {
        self.create_at + INVITE_TTL_SECS < now
    }

    /// Whether the invite has expired at `now`.
    pub fn is_expired(&self, now: i64) -> (r: bool)
        ensures
            r == self.expired_at(now),
    {
        (self.create_at as i128 + INVITE_TTL_SECS as i128) < (now as i128)
    }
}

/// What to do with a freshly drawn passphrase, given the invite already
/// stored under it.
#[derive(Clone, Copy, Debug, PartialEq, Eq, Structural)]
pub enum InviteSlot {
    /// No invite uses the passphrase: store the new one.
    Free,
    /// The stored invite has expired: replace it.
    Expired,
    /// A live invite uses the passphrase: draw another.
    Taken,
}

/// Decides what to do with a drawn passphrase, given the invite stored under
/// it at `now`.
pub fn invite_slot(existing: &Option<Invite>, now: i64) -> (r: InviteSlot)
    ensures
        existing is None ==> r == InviteSlot::Free,
        existing matches Some(inv) ==> (r == if inv.expired_at(now) {
            InviteSlot::Expired
        } else {
            InviteSlot::Taken
        }),
{
    match existing {
        None => InviteSlot::Free,
        Some(invite) => if invite.is_expired(now) {
            InviteSlot::Expired
        } else {
            InviteSlot::Taken
        },
    }
}

/// Length of an invite passphrase.
pub const PASSPHRASE_LEN: usize = 6;

/// The characters of invite passphrases: digits and lowercase letters
/// without the look-alikes `0`, `1`, `i`, `l` and `o`.
pub open spec fn passphrase_charset() -> Seq<char> {
    seq![
        '2', '3', '4', '5', '6', '7', '8', '9', 'a', 'b', 'c', 'd', 'e', 'f', 'g', 'h', 'j', 'k',
        'm', 'n', 'p', 'q', 'r', 's', 't', 'u', 'v', 'w', 'x', 'y', 'z',
    ]
}

fn passphrase_charset_vec() -> (r: Vec<char>)
    ensures
        r@ == passphrase_charset(),
{
    let r = vec![
        '2', '3', '4', '5', '6', '7', '8', '9', 'a', 'b', 'c', 'd', 'e', 'f', 'g', 'h', 'j', 'k',
        'm', 'n', 'p', 'q', 'r', 's', 't', 'u', 'v', 'w', 'x', 'y', 'z',
    ];
    assert(r@ =~= passphrase_charset());
    r
}

/// A random invite passphrase: six characters drawn from the passphrase
/// characters.
pub fn generate_invite_passphrase() -> (r: String)
    ensures
        r@.len() == PASSPHRASE_LEN,
        forall|i: int| 0 <= i < r@.len() ==> passphrase_charset().contains(#[trigger] r@[i]),
{
    let charset = passphrase_charset_vec();
    let mut passphrase = String::new();
    let mut n: usize = 0;
    while n < PASSPHRASE_LEN
        invariant
            n <= PASSPHRASE_LEN,
            charset@ == passphrase_charset(),
            passphrase@.len() == n,
            forall|i: int|
                0 <= i < passphrase@.len() ==> passphrase_charset().contains(#[trigger] passphrase@[i]),
        decreases PASSPHRASE_LEN - n,
    {
        let idx = random_below(charset.len());
        let ghost before = passphrase@;
        string_push(&mut passphrase, charset[idx]);
        proof {
            assert forall|i: int|
                0 <= i < passphrase@.len() implies passphrase_charset().contains(#[trigger] passphrase@[i]) by {
                if i < before.len() {
                    assert(passphrase@[i] == before[i]);
                } else {
                    assert(passphrase@[i] == charset@[idx as int]);
                }
            }
        }
        n += 1;
    }
    passphrase
}

} // verus!
