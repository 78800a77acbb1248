//! Secrets of the authentication stores: random tokens and API keys, what is stored of
//! an API key, and the decisions on revoking keys and on expired sessions.
use vstd::prelude::*;

use chrono::DateTime;
use rand::rngs::OsRng;
use rand::RngCore;

use crate::auth::Session;
use crate::digest::{lower_hex, sha256, sha256_hex, to_lower_hex};
use crate::error::AuthError;
use crate::text::{chars_of, push_char};

verus! {

broadcast use vstd::string::group_string_axioms;

/// `n` bytes from the operating system's random source (`OsRng::try_fill_bytes` of
/// `rand`). The bytes are left unstated: only their number is claimed; the error is
/// the source's message.
#[verifier::external_body]
pub(crate) fn os_random_bytes(n: usize) -> (r: Result<Vec<u8>, String>)
    ensures
        r matches Ok(b) ==> b@.len() == n,
{
    let mut b = vec![0u8; n];
    match OsRng.try_fill_bytes(&mut b) {
        Ok(()) => Ok(b),
        Err(e) => Err(e.to_string()),
    }
}

/// Whether `s` is the lowercase hex text of 32 bytes.
pub open spec fn is_secret_text(s: Seq<char>) -> bool {
    exists|b: Seq<u8>| b.len() == 32 && s == #[trigger] lower_hex(b)
}

/// A fresh secret (a session token or a raw API key): 32 random bytes from the
/// operating system, as 64 lowercase hex digits.
pub fn new_secret() -> (r: Result<String, AuthError>)
    ensures
        r matches Ok(s) ==> is_secret_text(s@),
        r matches Err(e) ==> e is InternalError,
{
    match os_random_bytes(32) {
        Ok(b) => {
            let s = to_lower_hex(b.as_slice());
            assert(s@ == lower_hex(b@));
            Ok(s)
        },
        Err(m) => Err(AuthError::InternalError(m)),
    }
}

/// The hint shown for an API key: its first 8 characters (all of a shorter key).
pub open spec fn key_hint(raw: Seq<char>) -> Seq<char> {
    if raw.len() <= 8 {
        raw
    } else {
        raw.take(8)
    }
}

/// What is stored of an API key: the SHA-256 digest of its text, as lowercase hex.
pub open spec fn key_digest(raw: Seq<char>) -> Seq<char> {
    lower_hex(sha256(vstd::utf8::encode_utf8(raw)))
}

/// The stored digest of a raw API key (see [`key_digest`]).
pub fn api_key_hash(raw_key: &str) -> (r: String)
    ensures
        r@ == key_digest(raw_key@),
{
    sha256_hex(raw_key)
}

/// The hint of a raw API key (see [`key_hint`]).
pub fn key_prefix(raw_key: &str) -> (r: String)
    ensures
        r@ == key_hint(raw_key@),
{
    let cs = chars_of(raw_key);
    let n: usize = if cs.len() < 8 {
        cs.len()
    } else {
        8
    };
    let mut r = String::new();
    for k in 0..n
        invariant
            n <= cs.len(),
            r@ == cs@.take(k as int),
    {
        push_char(&mut r, cs[k]);
        assert(cs@.take(k + 1) == cs@.take(k as int).push(cs@[k as int]));
    }
    assert(cs@.take(cs@.len() as int) == cs@);
    r
}

/// A new API key: the raw key handed to the user once, its stored digest and its hint.
pub struct ApiKeySecret {
    pub raw_key: String,
    pub key_hash: String,
    pub key_prefix: String,
}

/// Makes a new API key from a fresh secret.
pub fn new_api_key() -> (r: Result<ApiKeySecret, AuthError>)
    ensures
        r matches Ok(k) ==> is_secret_text(k.raw_key@) && k.key_hash@ == key_digest(k.raw_key@)
            && k.key_prefix@ == key_hint(k.raw_key@),
        r matches Err(e) ==> e is InternalError,
{
    let raw_key = new_secret()?;
    let key_hash = api_key_hash(raw_key.as_str());
    let key_prefix = key_prefix(raw_key.as_str());
    Ok(ApiKeySecret { raw_key, key_hash, key_prefix })
}

/// The answer to revoking a key, given how many rows the delete removed: none means
/// that no key with that id belongs to the user.
pub fn revoke_result(rows_deleted: usize) -> (r: Result<(), AuthError>)
    ensures
        rows_deleted == 0 <==> r matches Err(AuthError::InvalidApiKey),
        rows_deleted > 0 <==> r is Ok,
{
    if rows_deleted == 0 {
        Err(AuthError::InvalidApiKey)
    } else {
        Ok(())
    }
}

/// The instant that an RFC 3339 text denotes, as seconds since the Unix epoch and
/// nanoseconds, when `chrono` parses it.
pub uninterp spec fn rfc3339_instant(s: Seq<char>) -> Option<(i64, u32)>;

/// `DateTime::parse_from_rfc3339` of `chrono`, giving the parsed instant's
/// `timestamp()` and `timestamp_subsec_nanos()`. The result is named.
#[verifier::external_body]
fn parse_rfc3339(s: &str) -> (r: Option<(i64, u32)>)
    ensures
        r == rfc3339_instant(s@),
{
    match DateTime::parse_from_rfc3339(s) {
        Ok(t) => Some((t.timestamp(), t.timestamp_subsec_nanos())),
        Err(_) => None,
    }
}

/// The current time (`chrono::Utc::now()`), as seconds since the Unix epoch and
/// nanoseconds. Nothing is claimed of it.
#[verifier::external_body]
fn utc_now() -> (r: (i64, u32)) {
    let t = chrono::Utc::now();
    (t.timestamp(), t.timestamp_subsec_nanos())
}

/// Whether the instant `a` comes after the instant `b`.
pub open spec fn instant_after(a: (i64, u32), b: (i64, u32)) -> bool {
    a.0 > b.0 || (a.0 == b.0 && a.1 > b.1)
}

/// The verdict on a session's expiry.
#[derive(Debug, Clone, Copy, PartialEq, Eq, Structural)]
pub enum ExpiryVerdict {
    /// The expiry has not passed.
    Valid,
    /// The expiry has passed.
    Expired,
    /// The expiry is not an RFC 3339 text.
    Unreadable,
}

/// The verdict on a session whose expiry is `expires_at`, at the instant `now`.
pub open spec fn expiry_verdict(expires_at: Seq<char>, now: (i64, u32)) -> ExpiryVerdict {
    match rfc3339_instant(expires_at) {
        None => ExpiryVerdict::Unreadable,
        Some(t) => if instant_after(now, t) {
            ExpiryVerdict::Expired
        } else {
            ExpiryVerdict::Valid
        },
    }
}

/// Decides whether a session with expiry `expires_at` is still valid at `now`: an
/// unreadable expiry is an internal error, a passed one makes the session invalid.
pub fn session_expiry_check(expires_at: &str, now_secs: i64, now_nanos: u32) -> (r: Result<
    (),
    AuthError,
>)
    ensures
        expiry_verdict(expires_at@, (now_secs, now_nanos)) == ExpiryVerdict::Valid <==> r is Ok,
        expiry_verdict(expires_at@, (now_secs, now_nanos)) == ExpiryVerdict::Expired <==> r matches Err(
            AuthError::InvalidSession,
        ),
        expiry_verdict(expires_at@, (now_secs, now_nanos)) == ExpiryVerdict::Unreadable <==> (r matches Err(
            AuthError::InternalError(m),
        ) && m@ == "Invalid timestamp in DB"@),
{
    match parse_rfc3339(expires_at) {
        None => Err(AuthError::InternalError(String::from_str("Invalid timestamp in DB"))),
        Some((s, n)) => if now_secs > s || (now_secs == s && now_nanos > n) {
            Err(AuthError::InvalidSession)
        } else {
            Ok(())
        },
    }
}

/// Checks a stored session against the current time: it is handed back while its
/// expiry has not passed, refused as invalid once it has, and an expiry that does not
/// parse is an internal error (and only such an expiry is).
pub fn check_session_expiry(session: Session) -> (r: Result<Session, AuthError>)
    ensures
        r matches Ok(s) ==> s.token@ == session.token@ && s.user_id == session.user_id
            && s.expires_at@ == session.expires_at@ && rfc3339_instant(session.expires_at@)
            is Some,
        rfc3339_instant(session.expires_at@) is None ==> (r matches Err(
            AuthError::InternalError(m),
        ) && m@ == "Invalid timestamp in DB"@),
        r matches Err(AuthError::InternalError(_)) ==> rfc3339_instant(session.expires_at@)
            is None,
        r matches Err(e) ==> e is InvalidSession || e is InternalError,
        exists|now: (i64, u32)|
            match #[trigger] expiry_verdict(session.expires_at@, now) {
                ExpiryVerdict::Valid => r is Ok,
                ExpiryVerdict::Expired => r matches Err(AuthError::InvalidSession),
                ExpiryVerdict::Unreadable => r matches Err(AuthError::InternalError(_)),
            },
{
    let (now_secs, now_nanos) = utc_now();
    let checked = session_expiry_check(session.expires_at.as_str(), now_secs, now_nanos);
    assert(match expiry_verdict(session.expires_at@, (now_secs, now_nanos)) {
        ExpiryVerdict::Valid => checked is Ok,
        ExpiryVerdict::Expired => checked matches Err(AuthError::InvalidSession),
        ExpiryVerdict::Unreadable => checked matches Err(AuthError::InternalError(_)),
    });
    match checked {
        Ok(()) => Ok(session),
        Err(e) => Err(e),
    }
}

} // verus!
