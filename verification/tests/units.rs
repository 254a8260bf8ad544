use drophub_back::ext::is_v4_uuid_value;
use drophub_back::inspect::Inspect;
use drophub_back::room::{capacity_reached, new_entity_id, Client, Entity, Room};
use drophub_back::rpc::RoomRpc;
use drophub_back::storage::{generate_invite_passphrase, invite_slot, Invite, InviteSlot};
use drophub_back::token::{check_token, RefreshToken};
use drophub_back::types::{
    AccessToken, ClientRole, EntityKind, EntityMeta, JwtConfig, PermissionDetails, RoomConfig,
    RoomError, RoomOptions,
};
use drophub_back::ui::{
    format_invite_link, format_invite_query_link, format_short_client_id, reduce_room,
    AlertKind, ContextAction, CreateRoomFormState, FileKind, MenuState, NotifyKind,
};

const NOW: i64 = 1_700_000_000;

fn config() -> RoomConfig {
    RoomConfig { invite_ttl_secs: 3600, jwt: JwtConfig { secret: "s".to_string(), ttl_secs: None } }
}

fn meta(name: &str) -> EntityMeta {
    EntityMeta { kind: EntityKind::File, name: name.to_string(), size: 1 }
}

#[test]
fn entity_id_is_fnv1a_of_owner_and_name() {
    let owner = 0x0123_4567_89ab_cdef_0123_4567_89ab_cdef_u128;
    assert_eq!(new_entity_id(owner, "report.pdf"), 6249796388973521319);
    assert_ne!(new_entity_id(owner, "report.pdf"), new_entity_id(owner, "report.pdg"));
    assert_ne!(new_entity_id(owner, "report.pdf"), new_entity_id(owner + 1, "report.pdf"));
}

#[test]
fn new_clients_have_random_v4_ids() {
    let a = Client::new(ClientRole::Guest);
    let b = Client::new(ClientRole::Host);
    assert!(is_v4_uuid_value(a.id()));
    assert!(is_v4_uuid_value(b.id()));
    assert_ne!(a.id(), b.id());
    assert_eq!(a.role(), ClientRole::Guest);
}

#[test]
fn room_invites_have_eight_plain_characters() {
    let host = Client::new(ClientRole::Host);
    let mut room = Room::new(7, RoomOptions::default(), host, &config());
    let invite = loop {
        if let Some(i) = room.generate_invite(NOW).unwrap() {
            break i;
        }
    };
    assert_eq!(invite.room_id, 7);
    assert_eq!(invite.exp, NOW + 3600);
    assert_eq!(invite.password.chars().count(), 8);
    assert!(invite.password.chars().all(|c| c.is_ascii_digit() || c.is_ascii_lowercase()));
    assert!(invite.password.chars().all(|c| !"01ilo".contains(c)));
    assert!(invite.password.chars().any(|c| c.is_ascii_digit()));
    assert!(invite.password.chars().any(|c| c.is_ascii_lowercase()));
    assert_eq!(room.info().invites, vec![invite.password.clone()]);
}

#[test]
fn capacity_counts_invites_and_clients() {
    assert!(!capacity_reached(0, 1, 2));
    assert!(capacity_reached(1, 1, 2));
    assert!(capacity_reached(0, 3, 2));
    assert!(capacity_reached(usize::MAX, usize::MAX, usize::MAX));
}

#[test]
fn removing_a_client_removes_its_entities_in_order() {
    let host = Client::new(ClientRole::Host);
    let host_id = host.id();
    let mut room = Room::new(1, RoomOptions { encryption: false, capacity: 5 }, host, &config());
    let invite = loop {
        if let Some(i) = room.generate_invite(NOW).unwrap() {
            break i;
        }
    };
    let guest = Client::new(ClientRole::Guest);
    let guest_id = guest.id();
    room.add_client(guest, invite.password.clone()).unwrap();
    let a = Entity::new(host_id, meta("a"));
    let b = Entity::new(guest_id, meta("b"));
    let c = Entity::new(host_id, meta("c"));
    let (ia, ib, ic) = (a.id(), b.id(), c.id());
    room.add_entity(a).unwrap();
    room.add_entity(b).unwrap();
    room.add_entity(c).unwrap();
    assert!(room.remove_client(guest_id).is_ok());
    let info = room.info();
    assert_eq!(info.clients, vec![host_id]);
    let ids: Vec<u64> = info.entities.iter().map(|(id, _)| *id).collect();
    assert_eq!(ids, vec![ia, ic]);
    assert!(!room.is_file_exists(ib));
}

#[test]
fn entity_of_unknown_owner_is_refused() {
    let host = Client::new(ClientRole::Host);
    let mut room = Room::new(3, RoomOptions::default(), host, &config());
    let stranger = Client::new(ClientRole::Guest).id();
    let result = room.add_entity(Entity::new(stranger, meta("x")));
    assert!(matches!(result, Err(RoomError::ClientNotFound { room_id: 3, client_id }) if client_id == stranger));
}

#[test]
fn announce_then_remove_restores_entities() {
    let host = Client::new(ClientRole::Host);
    let host_id = host.id();
    let mut room = Room::new(1, RoomOptions::default(), host, &config());
    let first = Entity::new(host_id, meta("first"));
    let first_id = first.id();
    room.add_entity(first).unwrap();
    let second = Entity::new(host_id, meta("second"));
    let second_id = second.id();
    room.add_entity(second).unwrap();
    room.remove_entity(second_id).unwrap();
    let ids: Vec<u64> = room.info().entities.iter().map(|(id, _)| *id).collect();
    assert_eq!(ids, vec![first_id]);
    assert_eq!(room.is_entity_owner(first_id, host_id).unwrap(), true);
    assert!(matches!(room.is_entity_owner(second_id, host_id), Err(RoomError::EntityNotFound { .. })));
}

#[test]
fn same_name_cannot_be_announced_twice() {
    let mut rpc = RoomRpc::new(config());
    let host = rpc.create(RoomOptions::default(), NOW);
    assert_eq!(host.exp, None);
    let id = rpc.announce_entity(&host, meta("song.mp3")).unwrap();
    let again = rpc.announce_entity(&host, meta("song.mp3"));
    assert!(matches!(again, Err(RoomError::EntityAlreadyExists { entity_id, .. }) if entity_id == id));
}

#[test]
fn closed_room_is_not_found() {
    let mut rpc = RoomRpc::new(config());
    let host = rpc.create(RoomOptions::default(), NOW);
    let next = rpc.create(RoomOptions::default(), NOW);
    assert_eq!(next.room_id, host.room_id + 1);
    assert!(rpc.close_room(host.room_id).is_some());
    assert!(rpc.room_info(host.room_id).is_none());
    assert!(matches!(rpc.invite(&host, NOW), Err(RoomError::RoomNotFound { room_id }) if room_id == host.room_id));
    assert!(matches!(rpc.kick(&host, 1), Err(RoomError::RoomNotFound { .. })));
    assert!(rpc.room_info(next.room_id).is_some());
}

#[test]
fn leaving_guest_takes_its_entities() {
    let mut rpc = RoomRpc::new(config());
    let host = rpc.create(RoomOptions { encryption: false, capacity: 4 }, NOW);
    let invite = loop {
        if let Some(i) = rpc.invite(&host, NOW).unwrap() {
            break i;
        }
    };
    let guest = rpc.connect(host.room_id, invite.password, NOW).unwrap();
    rpc.announce_entity(&guest, meta("g")).unwrap();
    rpc.announce_entity(&host, meta("h")).unwrap();
    rpc.leave(host.room_id, guest.client_id);
    let info = rpc.room_info(host.room_id).unwrap();
    assert_eq!(info.clients, vec![host.client_id]);
    assert_eq!(info.entities.len(), 1);
    assert_eq!(info.entities[0].1.name, "h");
}

#[test]
fn expired_token_is_refused() {
    let tok = AccessToken { client_id: 5, room_id: 9, role: ClientRole::Guest, exp: Some(NOW) };
    assert!(matches!(
        check_token(&tok, NOW),
        Err(RoomError::PermissionDenied { details: Some(PermissionDetails::TokenExpired), .. })
    ));
    assert!(check_token(&tok, NOW - 1).is_ok());
    let forever = AccessToken { exp: None, ..tok };
    assert!(check_token(&forever, i64::MAX).is_ok());
}

#[test]
fn refresh_token_base64_roundtrip() {
    let json = br#"{"token":1}"#;
    let text = RefreshToken::encode(json);
    assert_eq!(text, "eyJ0b2tlbiI6MX0=");
    assert_eq!(RefreshToken::decode(&text).unwrap(), json.to_vec());
    assert!(RefreshToken::decode("not base64!").is_err());
}

#[test]
fn stored_invites_expire_after_an_hour() {
    let invite = Invite { passphrase: "abc234".to_string(), create_at: NOW, peer_id: 1 };
    assert!(!invite.is_expired(NOW + 3600));
    assert!(invite.is_expired(NOW + 3601));
    assert_eq!(invite_slot(&None, NOW), InviteSlot::Free);
    assert_eq!(invite_slot(&Some(invite), NOW + 3601), InviteSlot::Expired);
    let live = Invite { passphrase: "abc234".to_string(), create_at: NOW, peer_id: 1 };
    assert_eq!(invite_slot(&Some(live), NOW), InviteSlot::Taken);
}

#[test]
fn passphrases_use_the_charset() {
    for _ in 0..20 {
        let p = generate_invite_passphrase();
        assert_eq!(p.chars().count(), 6);
        assert!(p.chars().all(|c| "23456789abcdefghjkmnpqrstuvwxyz".contains(c)));
    }
}

#[test]
fn labels_and_styles() {
    assert_eq!(FileKind::Img.as_str(), "img");
    assert_eq!(FileKind::Unknown.as_str(), "unknown");
    assert_eq!(AlertKind::Warn.header_text(), "Warning");
    assert_eq!(AlertKind::Error.color_class(), "toast-danger");
    assert_eq!(NotifyKind::Success.color_class(), "notify-success");
    assert_eq!(NotifyKind::Info.progress_bar_color_class(), "bg-info");
    assert_eq!(MenuState::default(), MenuState::Expanded);
    assert_eq!(MenuState::Expanded.toggle(), MenuState::Minimized);
    assert_eq!(MenuState::Minimized.toggle(), MenuState::Expanded);
    let form = CreateRoomFormState::default();
    assert_eq!((form.capacity, form.encryption, form.is_loading), (2, false, false));
}

#[test]
fn invite_links() {
    assert_eq!(format_invite_link("https://x.io", 1207, "ab3k"), "https://x.io/room/connect/1207/ab3k");
    assert_eq!(format_invite_link("", 0, "p"), "/room/connect/0/p");
    assert_eq!(
        format_invite_query_link("https://x.io", u64::MAX, "q"),
        "https://x.io/room?action=connect&room_id=18446744073709551615&invite_password=q"
    );
}

#[test]
fn short_client_ids() {
    let id = 0x67e5_5044_10b1_426f_9247_bb68_0e5f_e0c8_u128;
    assert_eq!(format_short_client_id(id), "67e55044...bb680e5fe0c8");
}

#[test]
fn context_reducer() {
    assert!(reduce_room(ContextAction::DisconnectRoom).is_none());
}

#[test]
fn inspect_fail_calls_back_on_failure_only() {
    let mut seen = 0;
    let r: Result<u8, u8> = Err(4);
    let r = r.inspect_fail(|e| seen += *e as i32);
    assert_eq!(r, Err(4));
    let ok: Result<u8, u8> = Ok(1);
    assert_eq!(ok.inspect_fail(|_| panic!("no failure")), Ok(1));
    let none: Option<u8> = None;
    let mut calls = 0;
    assert_eq!(none.inspect_fail(|_| calls += 1), None);
    assert_eq!(calls, 1);
    assert_eq!(seen, 4);
}

#[test]
fn a_guest_is_admitted_only_by_a_valid_invite() {
    let host = Client::new(ClientRole::Host);
    let host_id = host.id();
    let mut room = Room::new(4, RoomOptions::default(), host, &config());
    let guest = Client::new(ClientRole::Guest);
    let refused = room.admit_client(guest, None, "gone1234".to_string());
    assert!(matches!(
        refused,
        Err(RoomError::InviteNotFound { room_id: 4, ref invite_password }) if invite_password == "gone1234"
    ));
    assert_eq!(room.info().clients, vec![host_id]);
    let guest = Client::new(ClientRole::Guest);
    let guest_id = guest.id();
    let used = drophub_back::types::Invite { room_id: 4, password: "abcd2345".to_string(), exp: NOW };
    assert!(room.admit_client(guest, Some(used), "abcd2345".to_string()).is_ok());
    assert_eq!(room.info().clients, vec![host_id, guest_id]);
}
