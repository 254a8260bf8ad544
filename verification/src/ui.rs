//! The logic behind the web front end: labels and styles of notifications,
//! the menu and form state, invite links, and short client ids.

use vstd::prelude::*;
use crate::ext::string_push;
use crate::types::{ClientId, ClientRole, RoomId, RoomInfo};

verus! {

/// Kind of a shared file, as the file cards show it.
#[derive(Clone, Copy, Debug, PartialEq, Eq, Structural)]
pub enum FileKind {
    Img,
    Txt,
    Doc,
    Audio,
    Video,
    Unknown,
}

impl FileKind {
    pub fn as_str(&self) -> (r: &'static str)
        ensures
            r@ == match *self {
                FileKind::Img => "img"@,
                FileKind::Txt => "txt"@,
                FileKind::Doc => "doc"@,
                FileKind::Audio => "audio"@,
                FileKind::Video => "video"@,
                FileKind::Unknown => "unknown"@,
            },
    {
        match self {
            FileKind::Img => "img",
            FileKind::Txt => "txt",
            FileKind::Doc => "doc",
            FileKind::Audio => "audio",
            FileKind::Video => "video",
            FileKind::Unknown => "unknown",
        }
    }
}

/// Kind of an alert.
#[derive(Clone, Copy, Debug, PartialEq, Eq, Structural)]
pub enum AlertKind {
    Info,
    Success,
    Warn,
    Error,
}

impl AlertKind {
    /// The heading of an alert of this kind.
    pub fn header_text(&self) -> (r: &'static str)
        ensures
            r@ == match *self {
                AlertKind::Info => "Info"@,
                AlertKind::Success => "Success"@,
                AlertKind::Warn => "Warning"@,
                AlertKind::Error => "Error"@,
            },
    {
        match self {
            AlertKind::Info => "Info",
            AlertKind::Success => "Success",
            AlertKind::Warn => "Warning",
            AlertKind::Error => "Error",
        }
    }

    /// The style class of an alert of this kind.
    pub fn color_class(&self) -> (r: &'static str)
        ensures
            r@ == match *self {
                AlertKind::Info => "toast-info"@,
                AlertKind::Success => "toast-success"@,
                AlertKind::Warn => "toast-warning"@,
                AlertKind::Error => "toast-danger"@,
            },
    {
        match self {
            AlertKind::Info => "toast-info",
            AlertKind::Success => "toast-success",
            AlertKind::Warn => "toast-warning",
            AlertKind::Error => "toast-danger",
        }
    }
}

/// Kind of a notification.
#[derive(Clone, Copy, Debug, PartialEq, Eq, Structural)]
pub enum NotifyKind {
    Info,
    Success,
    Warn,
    Error,
}

impl NotifyKind {
    /// The heading of a notification of this kind.
    pub fn header_text(&self) -> (r: &'static str)
        ensures
            r@ == match *self {
                NotifyKind::Info => "Info"@,
                NotifyKind::Success => "Success"@,
                NotifyKind::Warn => "Warning"@,
                NotifyKind::Error => "Error"@,
            },
    {
        match self {
            NotifyKind::Info => "Info",
            NotifyKind::Success => "Success",
            NotifyKind::Warn => "Warning",
            NotifyKind::Error => "Error",
        }
    }

    /// The style class of a notification of this kind.
    pub fn color_class(&self) -> (r: &'static str)
        ensures
            r@ == match *self {
                NotifyKind::Info => "notify-info"@,
                NotifyKind::Success => "notify-success"@,
                NotifyKind::Warn => "notify-warning"@,
                NotifyKind::Error => "notify-danger"@,
            },
    {
        match self {
            NotifyKind::Info => "notify-info",
            NotifyKind::Success => "notify-success",
            NotifyKind::Warn => "notify-warning",
            NotifyKind::Error => "notify-danger",
        }
    }

    /// The style class of the progress bar of a notification of this kind.
    pub fn progress_bar_color_class(&self) -> (r: &'static str)
        ensures
            r@ == match *self {
                NotifyKind::Info => "bg-info"@,
                NotifyKind::Success => "bg-success"@,
                NotifyKind::Warn => "bg-warning"@,
                NotifyKind::Error => "bg-danger"@,
            },
    {
        match self {
            NotifyKind::Info => "bg-info",
            NotifyKind::Success => "bg-success",
            NotifyKind::Warn => "bg-warning",
            NotifyKind::Error => "bg-danger",
        }
    }
}

/// Whether the room control menu is open.
#[derive(Clone, Copy, Debug, PartialEq, Eq, Structural)]
pub enum MenuState {
    Expanded,
    Minimized,
}

impl Default for MenuState {
    fn default() -> (r: Self)
        ensures
            r == MenuState::Expanded,
    {
        MenuState::Expanded
    }
}

impl MenuState {
    /// The other state.
    pub fn toggle(&self) -> (r: Self)
        ensures
            r != *self,
    {
        match self {
            MenuState::Expanded => MenuState::Minimized,
            MenuState::Minimized => MenuState::Expanded,
        }
    }
}

/// Smallest capacity the room creation form offers.
pub const MIN_CAPACITY: usize = 2;

/// Largest capacity the room creation form offers.
pub const MAX_CAPACITY: usize = 10;

/// The state of the room creation form.
#[derive(Clone, Copy, Debug, PartialEq, Eq, Structural)]
pub struct CreateRoomFormState {
    pub capacity: usize,
    pub encryption: bool,
    pub is_loading: bool,
}

impl Default for CreateRoomFormState {
    fn default() -> (r: Self)
        ensures
            r.capacity == MIN_CAPACITY,
            !r.encryption,
            !r.is_loading,
    {
        CreateRoomFormState { capacity: MIN_CAPACITY, encryption: false, is_loading: false }
    }
}

/// The decimal digit of `d`.
pub open spec fn digit_char(d: nat) -> char {
    seq!['0', '1', '2', '3', '4', '5', '6', '7', '8', '9'][d as int]
}

/// The decimal text of `n`.
pub open spec fn decimal(n: nat) -> Seq<char>
    decreases n,
{
    if n < 10 {
        seq![digit_char(n)]
    } else {
        decimal(n / 10).push(digit_char(n % 10))
    }
}

fn push_digit(s: &mut String, d: u64)
    requires
        d < 10,
    ensures
        final(s)@ == old(s)@.push(digit_char(d as nat)),
{
    let digits = vec!['0', '1', '2', '3', '4', '5', '6', '7', '8', '9'];
    assert(digits@ =~= seq!['0', '1', '2', '3', '4', '5', '6', '7', '8', '9']);
    string_push(s, digits[d as usize]);
}

/// Appends the decimal text of `n`.
pub(crate) fn push_decimal(s: &mut String, n: u64)
    ensures
        final(s)@ == old(s)@ + decimal(n as nat),
    decreases n,
{
    if n >= 10 {
        push_decimal(s, n / 10);
    }
    push_digit(s, n % 10);
    assert(old(s)@ + decimal(n as nat) =~= if n >= 10 {
        (old(s)@ + decimal((n / 10) as nat)).push(digit_char((n % 10) as nat))
    } else {
        old(s)@.push(digit_char(n as nat))
    });
}

/// The link by which a guest connects: `{base_url}/room/connect/{room_id}/{password}`.
pub fn format_invite_link(base_url: &str, room_id: RoomId, invite_password: &str) -> (r: String)
    ensures
        r@ == base_url@ + "/room/connect/"@ + decimal(room_id as nat) + "/"@ + invite_password@,
{
    let mut link = String::from_str(base_url);
    link.append("/room/connect/");
    push_decimal(&mut link, room_id);
    link.append("/");
    link.append(invite_password);
    link
}

/// The link by which a guest connects, as a query:
/// `{base_url}/room?action=connect&room_id={room_id}&invite_password={password}`.
pub fn format_invite_query_link(base_url: &str, room_id: RoomId, invite_password: &str) -> (r: String)
    ensures
        r@ == base_url@ + "/room?action=connect&room_id="@ + decimal(room_id as nat)
            + "&invite_password="@ + invite_password@,
{
    let mut link = String::from_str(base_url);
    link.append("/room?action=connect&room_id=");
    push_decimal(&mut link, room_id);
    link.append("&invite_password=");
    link.append(invite_password);
    link
}

/// The icon class of a client in the client list: filled for the client
/// looking at the list, with a gear for the host.
pub fn client_icon_class(is_current: bool, role: ClientRole) -> (r: &'static str)
    ensures
        r@ == if is_current {
            match role {
                ClientRole::Host => "bi-person-fill-gear"@,
                ClientRole::Guest => "bi-person-fill"@,
            }
        } else {
            match role {
                ClientRole::Host => "bi-person-gear"@,
                ClientRole::Guest => "bi-person"@,
            }
        },
{
    if is_current {
        match role {
            ClientRole::Host => "bi-person-fill-gear",
            ClientRole::Guest => "bi-person-fill",
        }
    } else {
        match role {
            ClientRole::Host => "bi-person-gear",
            ClientRole::Guest => "bi-person",
        }
    }
}

/// `"{n} / {of}"`, as the room controls show how many clients or invites a
/// room has out of how many it may have.
pub fn format_count_of(n: usize, of: usize) -> (r: String)
    ensures
        r@ == decimal(n as nat) + " / "@ + decimal(of as nat),
{
    let mut text = String::new();
    push_decimal(&mut text, n as u64);
    text.append(" / ");
    push_decimal(&mut text, of as u64);
    text
}

/// The "new invite" buttons under the invites of a room with `capacity`,
/// `clients` clients and `invites` pending invites: one enabled button for
/// each invite that can still be made, or a single disabled one when none
/// can. Returns how many buttons, and whether they are disabled.
pub fn invite_buttons(capacity: usize, clients: usize, invites: usize) -> (r: (usize, bool))
    requires
        clients + invites <= capacity,
    ensures
        capacity - clients - invites == 0 ==> r == (1usize, true),
        capacity - clients - invites > 0 ==> r == ((capacity - clients - invites) as usize, false),
{
    let rest = capacity - clients - invites;
    if rest == 0 {
        (1, true)
    } else {
        (rest, false)
    }
}

/// How long a notification shown `elapsed_ms` ago with a lifetime of
/// `delay_ms` waits before it fades (what is left of its lifetime, never
/// below zero), and before it is hidden (a second after it fades), in
/// milliseconds.
pub fn notify_timeouts(delay_ms: i64, elapsed_ms: i64) -> (r: (i64, i64))
    requires
        i64::MIN <= delay_ms - elapsed_ms <= i64::MAX - 1000,
    ensures
        r.0 == if delay_ms - elapsed_ms < 0 { 0 } else { delay_ms - elapsed_ms },
        r.1 == r.0 + 1000,
{
    let left = delay_ms - elapsed_ms;
    let fade = if left < 0 { 0 } else { left };
    (fade, fade + 1000)
}

/// Whether a client may kick the client it selected in the client list: only
/// the host may, and not itself.
pub fn is_kick_enabled(cur_client: ClientId, cur_role: ClientRole, selected: ClientId) -> (r: bool)
    ensures
        r == (cur_role == ClientRole::Host && cur_client != selected),
{
    match cur_role {
        ClientRole::Host => cur_client != selected,
        ClientRole::Guest => false,
    }
}

/// The colour scheme of the page.
#[derive(Clone, Copy, Debug, PartialEq, Eq, Structural)]
pub enum DisplayMode {
    Light,
    Dark,
}

/// The colour scheme the page starts in: the one the user chose before, if
/// any, else dark when the system prefers dark and light otherwise.
pub fn display_mode_choice(stored: Option<DisplayMode>, prefers_dark: bool) -> (r: DisplayMode)
    ensures
        r == match stored {
            Some(m) => m,
            None => if prefers_dark {
                DisplayMode::Dark
            } else {
                DisplayMode::Light
            },
        },
{
    match stored {
        Some(m) => m,
        None => if prefers_dark {
            DisplayMode::Dark
        } else {
            DisplayMode::Light
        },
    }
}

/// The colour scheme that the display-mode switch selects: dark when it is on.
pub fn display_mode_from_switch(checked: bool) -> (r: DisplayMode)
    ensures
        r == if checked {
            DisplayMode::Dark
        } else {
            DisplayMode::Light
        },
{
    if checked {
        DisplayMode::Dark
    } else {
        DisplayMode::Light
    }
}

/// The foreground and background colours of an invite's QR code: light on
/// dark in dark mode, dark on light otherwise.
pub fn qr_code_colors(mode: Option<DisplayMode>) -> (r: (&'static str, &'static str))
    ensures
        mode == Some(DisplayMode::Dark) ==> r.0@ == "#FFFFFC"@ && r.1@ == "#212121"@,
        mode != Some(DisplayMode::Dark) ==> r.0@ == "#212121"@ && r.1@ == "#FFFFFC"@,
{
    match mode {
        Some(DisplayMode::Dark) => ("#FFFFFC", "#212121"),
        _ => ("#212121", "#FFFFFC"),
    }
}

/// The lowercase hexadecimal digits.
pub open spec fn hex_digits() -> Seq<char> {
    seq!['0', '1', '2', '3', '4', '5', '6', '7', '8', '9', 'a', 'b', 'c', 'd', 'e', 'f']
}

/// The 32 lowercase hexadecimal digits of `id`, most significant first.
pub open spec fn uuid_hex(id: u128) -> Seq<char> {
    Seq::new(32, |i: int| hex_digits()[((id >> ((124 - 4 * i) as u128)) & 0xf) as int])
}

/// The hyphenated text of a UUID: its hex digits grouped 8-4-4-4-12.
pub open spec fn uuid_hyphenated(id: u128) -> Seq<char> {
    let h = uuid_hex(id);
    h.subrange(0, 8) + seq!['-'] + h.subrange(8, 12) + seq!['-'] + h.subrange(12, 16) + seq!['-']
        + h.subrange(16, 20) + seq!['-'] + h.subrange(20, 32)
}

/// `Uuid::to_string`: the hyphenated lowercase text of the UUID with value `id`.
#[verifier::external_body]
fn uuid_text(id: u128) -> (r: String)
    ensures
        r@ == uuid_hyphenated(id),
{
    uuid::Uuid::from_u128(id).to_string()
}

/// A short form of a client id for display: the first eight and the last
/// twelve characters of its text, joined by `...`.
pub fn format_short_client_id(client_id: ClientId) -> (r: String)
    ensures
        r@ == uuid_hyphenated(client_id).subrange(0, 8) + "..."@ + uuid_hyphenated(
            client_id,
        ).subrange(24, 36),
{
    let text = uuid_text(client_id);
    let ghost t = text@;
    assert(t.len() == 36);
    let mut short = String::new();
    let mut i: usize = 0;
    while i < 8
        invariant
            i <= 8,
            text@ == t,
            t.len() == 36,
            short@ == t.subrange(0, i as int),
        decreases 8 - i,
    {
        let c = text.as_str().get_char(i);
        string_push(&mut short, c);
        assert(short@ =~= t.subrange(0, i + 1));
        i += 1;
    }
    short.append("...");
    let ghost head = short@;
    let mut j: usize = 24;
    while j < 36
        invariant
            24 <= j <= 36,
            text@ == t,
            t.len() == 36,
            short@ == head + t.subrange(24, j as int),
        decreases 36 - j,
    {
        let c = text.as_str().get_char(j);
        string_push(&mut short, c);
        assert(short@ =~= head + t.subrange(24, j + 1));
        j += 1;
    }
    short
}

/// A pair of encoded tokens, as the server hands them out.
#[derive(Debug)]
pub struct JwtEncoded {
    pub access_token: String,
    pub refresh_token: String,
}

/// The room a front end is connected to.
#[derive(Debug)]
pub struct ConnectedRoom {
    pub jwt: JwtEncoded,
    pub info: RoomInfo,
}

/// What changes the front end's room state.
#[derive(Debug)]
pub enum ContextAction {
    ConnectRoom { jwt: JwtEncoded, info: RoomInfo },
    DisconnectRoom,
}

/// The room state after `action`: connecting replaces it, disconnecting
/// clears it.
pub fn reduce_room(action: ContextAction) -> (r: Option<ConnectedRoom>)
    ensures
        match action {
            ContextAction::ConnectRoom { jwt, info } => r == Some(ConnectedRoom { jwt, info }),
            ContextAction::DisconnectRoom => r is None,
        },
{
    match action {
        ContextAction::ConnectRoom { jwt, info } => Some(ConnectedRoom { jwt, info }),
        ContextAction::DisconnectRoom => None,
    }
}

} // verus!
