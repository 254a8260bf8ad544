use drophub_back::rpc::RoomRpc;
use drophub_back::types::{
    AccessToken, ClientRole, EntityKind, EntityMeta, Invite, JwtConfig, RoomConfig, RoomError,
    RoomInfo, RoomOptions,
};

const NOW: i64 = 1_700_000_000;

fn service() -> RoomRpc {
    RoomRpc::new(RoomConfig {
        invite_ttl_secs: 3600,
        jwt: JwtConfig { secret: "secret".to_string(), ttl_secs: Some(3600) },
    })
}

fn info(rpc: &mut RoomRpc, tok: &AccessToken) -> RoomInfo {
    rpc.room_info(tok.room_id).expect("room is open")
}

fn draw_invite(rpc: &mut RoomRpc, tok: &AccessToken) -> Result<Invite, RoomError> {
    loop {
        if let Some(invite) = rpc.invite(tok, NOW)? {
            return Ok(invite);
        }
    }
}

fn meta(name: &str, size: u64) -> EntityMeta {
    EntityMeta { kind: EntityKind::File, name: name.to_string(), size }
}

#[test]
fn create() {
    let mut rpc = service();
    let host = rpc.create(RoomOptions::default(), NOW);
    assert_eq!(host.role, ClientRole::Host);
    assert_eq!(host.exp, Some(NOW + 3600));
    let info = info(&mut rpc, &host);
    assert_eq!(info.clients.len(), 1);
    assert_eq!(info.clients[0], host.client_id);
    assert_eq!(info.host, host.client_id);
}

#[test]
fn connect() {
    let mut rpc = service();
    let host = rpc.create(RoomOptions::default(), NOW);
    let room_id = info(&mut rpc, &host).id;

    // Connect without invite
    assert!(rpc.connect(room_id, "123".to_string(), NOW).is_err());

    let invite = draw_invite(&mut rpc, &host).unwrap();
    assert_eq!(info(&mut rpc, &host).invites.len(), 1);
    let guest = rpc.connect(invite.room_id, invite.password.clone(), NOW).unwrap();
    assert_eq!(guest.role, ClientRole::Guest);
    assert_eq!(info(&mut rpc, &host).clients.len(), 2);

    // Connect by used invite
    assert!(rpc.connect(room_id, invite.password, NOW).is_err());
}

#[test]
fn invite() {
    let mut rpc = service();
    let host = rpc.create(RoomOptions { encryption: false, capacity: 2 }, NOW);

    // Success connect via invite
    let invite = draw_invite(&mut rpc, &host).unwrap();
    assert_eq!(info(&mut rpc, &host).invites.len(), 1);
    let guest = rpc.connect(invite.room_id, invite.password, NOW).unwrap();
    let now = info(&mut rpc, &host);
    assert!(now.invites.is_empty() && now.clients.len() == 2);

    // Try create invite by guest
    assert!(matches!(rpc.invite(&guest, NOW), Err(RoomError::PermissionDenied { .. })));

    // Maximum invites reached
    assert!(matches!(rpc.invite(&host, NOW), Err(RoomError::RoomIsFull { capacity: 2, .. })));
}

#[test]
fn invite_revoke() {
    let mut rpc = service();
    let host = rpc.create(RoomOptions { encryption: false, capacity: 3 }, NOW);

    let invite1 = draw_invite(&mut rpc, &host).unwrap();
    assert_eq!(info(&mut rpc, &host).invites.len(), 1);
    let invite2 = draw_invite(&mut rpc, &host).unwrap();
    assert_eq!(info(&mut rpc, &host).invites.len(), 2);

    assert!(rpc.invite(&host, NOW).is_err());

    assert!(rpc.revoke_invite(&host, invite1.password).is_ok());
    assert_eq!(info(&mut rpc, &host).invites.len(), 1);
    assert!(rpc.revoke_invite(&host, invite2.password).is_ok());
    assert_eq!(info(&mut rpc, &host).invites.len(), 0);

    assert!(matches!(
        rpc.revoke_invite(&host, "123".to_string()),
        Err(RoomError::InviteNotFound { .. })
    ));
}

#[test]
fn kick() {
    let mut rpc = service();
    let host = rpc.create(RoomOptions::default(), NOW);
    let invite = draw_invite(&mut rpc, &host).unwrap();
    let guest = rpc.connect(invite.room_id, invite.password, NOW).unwrap();
    let room_info = info(&mut rpc, &host);
    assert_eq!(room_info.clients.len(), 2);

    let other = room_info.clients.iter().copied().find(|c| *c != room_info.host).unwrap();
    assert_eq!(other, guest.client_id);
    assert!(rpc.kick(&host, other).is_ok());
    assert_eq!(info(&mut rpc, &host).clients, vec![host.client_id]);

    assert!(rpc.kick(&host, room_info.host).is_err());
}

#[test]
fn announce_entity() {
    let mut rpc = service();
    let host = rpc.create(RoomOptions::default(), NOW);
    let file_id = rpc.announce_entity(&host, meta("123", 123)).unwrap();
    let info = info(&mut rpc, &host);
    assert!(info.entities.iter().any(|(id, _)| *id == file_id));
}

#[test]
fn remove_entity() {
    let mut rpc = service();
    let host = rpc.create(RoomOptions::default(), NOW);
    let invite = draw_invite(&mut rpc, &host).unwrap();
    let guest = rpc.connect(invite.room_id, invite.password, NOW).unwrap();
    assert_eq!(info(&mut rpc, &host).clients.len(), 2);

    // File doesn't exists
    assert!(matches!(rpc.remove_entity(&host, 123), Err(RoomError::EntityNotFound { .. })));

    // Announce new file
    let file_id = rpc.announce_entity(&host, meta("123", 123)).unwrap();
    assert!(info(&mut rpc, &host).entities.iter().any(|(id, _)| *id == file_id));

    // The owner of the file is another client
    assert!(matches!(rpc.remove_entity(&guest, file_id), Err(RoomError::PermissionDenied { .. })));
    assert!(rpc.remove_entity(&host, file_id).is_ok());
    assert!(!info(&mut rpc, &host).entities.iter().any(|(id, _)| *id == file_id));
}
