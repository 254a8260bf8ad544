use drophub_back::input::{parse_capacity, parse_room_id};
use drophub_back::token::{Base64Error, JwtError, RefreshToken};
use drophub_back::types::{ClientRole, RoomError};
use drophub_back::ui::{
    client_icon_class, display_mode_choice, display_mode_from_switch, format_count_of,
    invite_buttons, is_kick_enabled, notify_timeouts, qr_code_colors, DisplayMode,
};

#[test]
fn room_ids_parse_as_unsigned_decimals() {
    assert_eq!(parse_room_id("123456"), Some(123456));
    assert_eq!(parse_room_id("+7"), Some(7));
    assert_eq!(parse_room_id("007"), Some(7));
    assert_eq!(parse_room_id("18446744073709551615"), Some(u64::MAX));
    assert_eq!(parse_room_id("18446744073709551616"), None);
    assert_eq!(parse_room_id(""), None);
    assert_eq!(parse_room_id("+"), None);
    assert_eq!(parse_room_id("-1"), None);
    assert_eq!(parse_room_id(" 1"), None);
    assert_eq!(parse_room_id("12a"), None);
    assert_eq!(parse_room_id("٣"), None);
}

#[test]
fn room_id_parsing_agrees_with_std() {
    for text in ["0", "42", "+42", "", "+", "-0", "1_000", "99999999999999999999", "4 2"] {
        assert_eq!(parse_room_id(text), text.parse::<u64>().ok(), "{text:?}");
        assert_eq!(parse_capacity(text), text.parse::<usize>().ok(), "{text:?}");
    }
}

#[test]
fn capacities_parse() {
    assert_eq!(parse_capacity("10"), Some(10));
    assert_eq!(parse_capacity("2"), Some(2));
    assert_eq!(parse_capacity("ten"), None);
}

#[test]
fn client_icons() {
    assert_eq!(client_icon_class(true, ClientRole::Host), "bi-person-fill-gear");
    assert_eq!(client_icon_class(true, ClientRole::Guest), "bi-person-fill");
    assert_eq!(client_icon_class(false, ClientRole::Host), "bi-person-gear");
    assert_eq!(client_icon_class(false, ClientRole::Guest), "bi-person");
}

#[test]
fn counts_read_n_of_m() {
    assert_eq!(format_count_of(2, 10), "2 / 10");
    assert_eq!(format_count_of(0, 0), "0 / 0");
}

#[test]
fn invite_buttons_fill_the_free_seats() {
    assert_eq!(invite_buttons(5, 2, 1), (2, false));
    assert_eq!(invite_buttons(3, 2, 1), (1, true));
    assert_eq!(invite_buttons(2, 1, 0), (1, false));
}

#[test]
fn notifications_fade_then_hide() {
    assert_eq!(notify_timeouts(5000, 1200), (3800, 4800));
    assert_eq!(notify_timeouts(5000, 7000), (0, 1000));
    assert_eq!(notify_timeouts(0, 0), (0, 1000));
}

#[test]
fn token_errors_become_room_errors() {
    let e = JwtError::Jsonwebtoken { message: "InvalidSignature".to_string() }.into_room_error();
    assert!(matches!(e, RoomError::Other { ref message } if message == "InvalidSignature"));
    let e = JwtError::Base64(Base64Error::InvalidPadding).into_room_error();
    assert!(matches!(e, RoomError::Other { ref message } if message == "Invalid padding"));
    let e = JwtError::Base64(Base64Error::InvalidByte(2, b'$')).into_room_error();
    assert!(matches!(e, RoomError::Other { ref message } if message == "Invalid byte 36, offset 2."));
    assert_eq!(
        Base64Error::InvalidLastSymbol(11, 66).message(),
        "Invalid last symbol 66, offset 11."
    );
    assert_eq!(Base64Error::InvalidLength.message(), "Encoded text cannot have a 6-bit remainder.");
}

#[test]
fn refresh_token_framing_errors_name_their_cause() {
    assert!(matches!(
        RefreshToken::decode("ab$d"),
        Err(JwtError::Base64(Base64Error::InvalidByte(2, b'$')))
    ));
    assert!(matches!(RefreshToken::decode("abc"), Err(JwtError::Base64(Base64Error::InvalidPadding))));
    assert!(matches!(RefreshToken::decode("abcde"), Err(JwtError::Base64(Base64Error::InvalidLength))));
    assert_eq!(RefreshToken::decode("YWI=").unwrap(), b"ab".to_vec());
}

#[test]
fn only_the_host_may_kick_others() {
    assert!(is_kick_enabled(1, ClientRole::Host, 2));
    assert!(!is_kick_enabled(1, ClientRole::Host, 1));
    assert!(!is_kick_enabled(1, ClientRole::Guest, 2));
}

#[test]
fn display_modes() {
    assert_eq!(display_mode_choice(Some(DisplayMode::Light), true), DisplayMode::Light);
    assert_eq!(display_mode_choice(None, true), DisplayMode::Dark);
    assert_eq!(display_mode_choice(None, false), DisplayMode::Light);
    assert_eq!(display_mode_from_switch(true), DisplayMode::Dark);
    assert_eq!(display_mode_from_switch(false), DisplayMode::Light);
    assert_eq!(qr_code_colors(Some(DisplayMode::Dark)), ("#FFFFFC", "#212121"));
    assert_eq!(qr_code_colors(None), ("#212121", "#FFFFFC"));
    assert_eq!(qr_code_colors(Some(DisplayMode::Light)), ("#212121", "#FFFFFC"));
}
