//! Refresh tokens travel as the URL-safe base64 text of their JSON form; the
//! library does the base64 framing, and the JSON form is made and read by the
//! caller. Access tokens are checked for expiry here.

use base64::engine::general_purpose::URL_SAFE;
use base64::{DecodeError, Engine};
use vstd::prelude::*;
use crate::types::{AccessToken, PermissionDetails, RoomError};
use crate::ui::{decimal, push_decimal};

verus! {

#[verifier::external_type_specification]
#[verifier::external_body]
pub struct ExDecodeError(DecodeError);

/// What decoding a base64 text gives.
pub type Base64Decoded = Result<Vec<u8>, DecodeError>;

/// The URL-safe, padded base64 text of `bytes`.
pub uninterp spec fn base64_url_safe(bytes: Seq<u8>) -> Seq<char>;

/// The bytes whose URL-safe, padded base64 text is `text`, if `text` is such a text.
pub uninterp spec fn base64_url_safe_decoded(text: Seq<char>) -> Option<Seq<u8>>;

/// Why a base64 text was refused (the variants of `base64::DecodeError`).
#[derive(Clone, Copy, Debug, PartialEq, Eq, Structural)]
pub enum Base64Error {
    InvalidByte(usize, u8),
    InvalidLength,
    InvalidLastSymbol(usize, u8),
    InvalidPadding,
}

/// The text that describes a base64 decoding error.
pub open spec fn base64_error_text(e: Base64Error) -> Seq<char> {
    match e {
        Base64Error::InvalidByte(i, b) => "Invalid byte "@ + decimal(b as nat) + ", offset "@
            + decimal(i as nat) + "."@,
        Base64Error::InvalidLength => "Encoded text cannot have a 6-bit remainder."@,
        Base64Error::InvalidLastSymbol(i, b) => "Invalid last symbol "@ + decimal(b as nat)
            + ", offset "@ + decimal(i as nat) + "."@,
        Base64Error::InvalidPadding => "Invalid padding"@,
    }
}

impl Base64Error {
    /// The text that describes this error.
    pub fn message(&self) -> (r: String)
        ensures
            r@ == base64_error_text(*self),
    {
        match *self {
            Base64Error::InvalidByte(i, b) => {
                let mut text = String::from_str("Invalid byte ");
                push_decimal(&mut text, b as u64);
                text.append(", offset ");
                push_decimal(&mut text, i as u64);
                text.append(".");
                text
            },
            Base64Error::InvalidLength => String::from_str("Encoded text cannot have a 6-bit remainder."),
            Base64Error::InvalidLastSymbol(i, b) => {
                let mut text = String::from_str("Invalid last symbol ");
                push_decimal(&mut text, b as u64);
                text.append(", offset ");
                push_decimal(&mut text, i as u64);
                text.append(".");
                text
            },
            Base64Error::InvalidPadding => String::from_str("Invalid padding"),
        }
    }
}

/// Errors of token encoding and decoding.
#[derive(Debug)]
pub enum JwtError {
    /// The JSON form could not be made or read.
    SerdeJson { message: String },
    Base64(Base64Error),
    /// Signing or verifying the access token failed.
    Jsonwebtoken { message: String },
}

impl JwtError {
    /// The room error that reports this token error.
    pub fn into_room_error(self) -> (r: RoomError)
        ensures
            match self {
                JwtError::SerdeJson { message } => r == RoomError::Other { message },
                JwtError::Base64(e) => r is Other && r->Other_message@ == base64_error_text(e),
                JwtError::Jsonwebtoken { message } => r == RoomError::Other { message },
            },
    {
        let message = match self {
            JwtError::SerdeJson { message } => message,
            JwtError::Base64(e) => e.message(),
            JwtError::Jsonwebtoken { message } => message,
        };
        RoomError::Other { message }
    }
}

/// `URL_SAFE.encode`: the URL-safe, padded base64 text of `bytes`, which
/// decodes back to `bytes`.
#[verifier::external_body]
fn base64_encode(bytes: &[u8]) -> (r: String)
    ensures
        r@ == base64_url_safe(bytes@),
        base64_url_safe_decoded(r@) == Some(bytes@),
{
    URL_SAFE.encode(bytes)
}

/// `URL_SAFE.decode`: the bytes of a URL-safe, padded base64 text. The engine
/// accepts only canonical texts, so the bytes encode back to the text.
#[verifier::external_body]
fn base64_decode(text: &str) -> (r: Base64Decoded)
    ensures
        r is Ok == base64_url_safe_decoded(text@) is Some,
        r matches Ok(v) ==> v@ == base64_url_safe_decoded(text@)->Some_0,
        r matches Ok(v) ==> base64_url_safe(v@) == text@,
{
    URL_SAFE.decode(text)
}

/// The library's form of a base64 decoding error.
#[verifier::external_body]
fn base64_error(e: DecodeError) -> (r: Base64Error) {
    match e {
        DecodeError::InvalidByte(i, b) => Base64Error::InvalidByte(i, b),
        DecodeError::InvalidLength => Base64Error::InvalidLength,
        DecodeError::InvalidLastSymbol(i, b) => Base64Error::InvalidLastSymbol(i, b),
        DecodeError::InvalidPadding => Base64Error::InvalidPadding,
    }
}

/// A token with which a client renews its access token.
#[derive(Clone, Copy, Debug, PartialEq, Eq, Structural)]
pub struct RefreshToken {
    /// The 128-bit value of a random UUID.
    pub token: u128,
    /// Expiry, in seconds since the Unix epoch.
    pub exp: i64,
}

impl RefreshToken {
    /// The transport text of a refresh token whose JSON form is `json`: its
    /// URL-safe base64 text.
    pub fn encode(json: &[u8]) -> (r: String)
        ensures
            r@ == base64_url_safe(json@),
            base64_url_safe_decoded(r@) == Some(json@),
    {
        base64_encode(json)
    }

    /// The JSON form of the refresh token whose transport text is `token`.
    pub fn decode(token: &str) -> (r: Result<Vec<u8>, JwtError>)
        ensures
            r is Ok == base64_url_safe_decoded(token@) is Some,
            r matches Ok(v) ==> v@ == base64_url_safe_decoded(token@)->Some_0,
            r matches Ok(v) ==> base64_url_safe(v@) == token@,
            r is Err ==> r->Err_0 is Base64,
    {
        match base64_decode(token) {
            Ok(v) => Ok(v),
            Err(e) => Err(JwtError::Base64(base64_error(e))),
        }
    }
}

/// An access token made at `now` has expired when its expiry is at or before
/// `now`; a token without expiry never does.
pub open spec fn token_expired(tok: AccessToken, now: i64) -> bool {
    match tok.exp {
        Some(exp) => exp <= now,
        None => false,
    }
}

/// Refuses an expired access token.
pub fn check_token(tok: &AccessToken, now: i64) -> (r: Result<(), RoomError>)
    ensures
        token_expired(*tok, now) ==> r == Err::<(), RoomError>(
            RoomError::PermissionDenied {
                client_id: tok.client_id,
                room_id: tok.room_id,
                details: Some(PermissionDetails::TokenExpired),
            },
        ),
        !token_expired(*tok, now) ==> r is Ok,
{
    let expired = match tok.exp {
        Some(exp) => exp <= now,
        None => false,
    };
    if expired {
        return Err(
            RoomError::PermissionDenied {
                client_id: tok.client_id,
                room_id: tok.room_id,
                details: Some(PermissionDetails::TokenExpired),
            },
        );
    }
    Ok(())
}

} // verus!
