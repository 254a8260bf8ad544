use drophub_back::rpc::RoomRpc;
use drophub_back::types::{
    AccessToken, ClientRole, EntityKind, EntityMeta, Invite, JwtConfig, PermissionDetails,
    RoomConfig, RoomError, RoomOptions,
};

const NOW: i64 = 1_700_000_000;

fn service() -> RoomRpc {
    RoomRpc::new(RoomConfig {
        invite_ttl_secs: 60,
        jwt: JwtConfig { secret: "k".to_string(), ttl_secs: None },
    })
}

fn draw_invite(rpc: &mut RoomRpc, tok: &AccessToken) -> Invite {
    loop {
        if let Some(invite) = rpc.invite(tok, NOW).unwrap() {
            return invite;
        }
    }
}

fn roomy() -> RoomOptions {
    RoomOptions { encryption: false, capacity: 5 }
}

#[test]
fn guests_cannot_manage_the_room() {
    let mut rpc = service();
    let host = rpc.create(roomy(), NOW);
    let invite = draw_invite(&mut rpc, &host);
    let guest = rpc.connect(host.room_id, invite.password, NOW).unwrap();
    let pending = draw_invite(&mut rpc, &host);
    let refused = |r: Result<(), RoomError>| {
        matches!(
            r,
            Err(RoomError::PermissionDenied {
                details: Some(PermissionDetails::ClientRole(ClientRole::Guest)),
                ..
            })
        )
    };
    assert!(refused(rpc.invite(&guest, NOW).map(|_| ())));
    assert!(refused(rpc.revoke_invite(&guest, pending.password.clone())));
    assert!(refused(rpc.kick(&guest, host.client_id)));
    let info = rpc.room_info(host.room_id).unwrap();
    assert_eq!(info.clients, vec![host.client_id, guest.client_id]);
    assert_eq!(info.invites, vec![pending.password]);
}

#[test]
fn the_host_cannot_kick_itself() {
    let mut rpc = service();
    let host = rpc.create(roomy(), NOW);
    assert!(matches!(
        rpc.kick(&host, host.client_id),
        Err(RoomError::PermissionDenied { details: Some(PermissionDetails::HostCannotKickItself), .. })
    ));
    assert_eq!(rpc.room_info(host.room_id).unwrap().clients, vec![host.client_id]);
}

#[test]
fn an_invite_admits_one_client() {
    let mut rpc = service();
    let host = rpc.create(roomy(), NOW);
    let invite = draw_invite(&mut rpc, &host);
    assert!(rpc.connect(host.room_id, invite.password.clone(), NOW).is_ok());
    assert!(matches!(
        rpc.connect(host.room_id, invite.password.clone(), NOW),
        Err(RoomError::InviteNotFound { invite_password, .. }) if invite_password == invite.password
    ));
    let revoked = draw_invite(&mut rpc, &host);
    rpc.revoke_invite(&host, revoked.password.clone()).unwrap();
    assert!(rpc.connect(host.room_id, revoked.password, NOW).is_err());
    assert_eq!(rpc.room_info(host.room_id).unwrap().clients.len(), 2);
}

#[test]
fn only_the_owner_removes_an_entity() {
    let mut rpc = service();
    let host = rpc.create(roomy(), NOW);
    let invite = draw_invite(&mut rpc, &host);
    let guest = rpc.connect(host.room_id, invite.password, NOW).unwrap();
    let meta = EntityMeta { kind: EntityKind::Text, name: "notes".to_string(), size: 5 };
    let id = rpc.announce_entity(&guest, meta).unwrap();
    assert!(matches!(
        rpc.remove_entity(&host, id),
        Err(RoomError::PermissionDenied { details: Some(PermissionDetails::EntityId(e)), .. }) if e == id
    ));
    assert!(rpc.remove_entity(&guest, id).is_ok());
    assert!(rpc.room_info(host.room_id).unwrap().entities.is_empty());
}

#[test]
fn a_request_touches_its_own_room_only() {
    let mut rpc = service();
    let first = rpc.create(roomy(), NOW);
    let second = rpc.create(roomy(), NOW);
    assert_eq!(second.room_id, first.room_id + 1);
    let meta = EntityMeta { kind: EntityKind::File, name: "a.bin".to_string(), size: 9 };
    rpc.announce_entity(&first, meta).unwrap();
    draw_invite(&mut rpc, &first);
    let other = rpc.room_info(second.room_id).unwrap();
    assert!(other.entities.is_empty());
    assert!(other.invites.is_empty());
    assert_eq!(other.clients, vec![second.client_id]);
}

#[test]
fn a_kicked_guest_can_no_longer_announce() {
    let mut rpc = service();
    let host = rpc.create(roomy(), NOW);
    let invite = draw_invite(&mut rpc, &host);
    let guest = rpc.connect(host.room_id, invite.password, NOW).unwrap();
    let meta = EntityMeta { kind: EntityKind::File, name: "mine.txt".to_string(), size: 3 };
    rpc.announce_entity(&guest, meta).unwrap();
    rpc.kick(&host, guest.client_id).unwrap();
    assert!(rpc.room_info(host.room_id).unwrap().entities.is_empty());
    let again = EntityMeta { kind: EntityKind::File, name: "other.txt".to_string(), size: 3 };
    assert!(matches!(
        rpc.announce_entity(&guest, again),
        Err(RoomError::ClientNotFound { client_id, .. }) if client_id == guest.client_id
    ));
}

#[test]
fn a_room_without_invites_always_gets_one() {
    for _ in 0..20 {
        let mut rpc = service();
        let host = rpc.create(roomy(), NOW);
        let invite = rpc.invite(&host, NOW).unwrap();
        assert!(invite.is_some());
    }
}

#[test]
fn an_invite_drawn_then_revoked_leaves_nothing_behind() {
    let mut rpc = service();
    let host = rpc.create(roomy(), NOW);
    let kept = draw_invite(&mut rpc, &host);
    let drawn = draw_invite(&mut rpc, &host);
    assert!(rpc.revoke_invite(&host, drawn.password.clone()).is_ok());
    assert_eq!(rpc.room_info(host.room_id).unwrap().invites, vec![kept.password]);
    assert!(matches!(
        rpc.revoke_invite(&host, drawn.password),
        Err(RoomError::InviteNotFound { .. })
    ));
}
