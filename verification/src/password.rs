//! Password hashing and verification with Argon2id.
use vstd::prelude::*;

use argon2::password_hash::{PasswordHash, PasswordHasher, PasswordVerifier, SaltString};
use argon2::Argon2;

use crate::credentials::os_random_bytes;
use crate::error::AuthError;

verus! {

/// Whether a text is a hash in the PHC string format that `argon2` accepts
/// (`PasswordHash::new` succeeds on it).
pub uninterp spec fn phc_hash_parses(hash: Seq<char>) -> bool;

/// Whether Argon2, run with the algorithm, version, parameters and salt that the PHC
/// string `hash` records, gives the output that it records for `password`.
pub uninterp spec fn argon2_matches(password: Seq<char>, hash: Seq<char>) -> bool;

/// Whether the UTF-8 bytes of a password are few enough for Argon2 (at most
/// `u32::MAX`).
pub open spec fn password_fits(password: Seq<char>) -> bool {
    vstd::utf8::encode_utf8(password).len() <= 0xFFFF_FFFF
}

/// What `Argon2::default()` gives for `password` and the salt `salt`, rendered as a
/// PHC string.
pub uninterp spec fn argon2id_phc(password: Seq<char>, salt: Seq<u8>) -> Seq<char>;

/// Encodes `salt` with `SaltString::encode_b64` and hashes `password` with
/// `Argon2::default()` (Argon2id, version 0x13, default parameters), rendering the
/// result as a PHC string with `PasswordHash`'s `Display`. The result depends on the
/// password and the salt alone, and is named; the contract claims that a produced
/// string parses back and verifies the password it was made from, as the round trip of
/// `PasswordHash` and the recomputation in `verify_password` show. A salt of fewer
/// than 3 bytes encodes to fewer than the 4 characters that `Salt` accepts, and the
/// conversion of the `SaltString` panics; it is left out. The hash is made when the
/// salt has 8 to 48 bytes (`argon2` refuses shorter salts, `encode_b64` longer ones)
/// and the password at most `u32::MAX` bytes (`argon2`'s `MAX_PWD_LEN`). The error
/// text is `argon2`'s and is not stated.
#[verifier::external_body]
fn argon2_hash_with_salt(password: &str, salt: &[u8]) -> (r: Result<String, String>)
    requires
        3 <= salt@.len(),
    ensures
        r matches Ok(h) ==> h@ == argon2id_phc(password@, salt@) && phc_hash_parses(h@)
            && argon2_matches(password@, h@),
        8 <= salt@.len() <= 48 && password_fits(password@) ==> r is Ok,
{
    let salt = SaltString::encode_b64(salt).map_err(|e| e.to_string())?;
    match Argon2::default().hash_password(password.as_bytes(), &salt) {
        Ok(h) => Ok(h.to_string()),
        Err(e) => Err(e.to_string()),
    }
}

/// Parses `hash` with `PasswordHash::new`; on success runs
/// `Argon2::default().verify_password` on it. Gives `Err` with `argon2`'s message when
/// the hash does not parse, otherwise whether the password matches.
#[verifier::external_body]
fn argon2_check(password: &str, hash: &str) -> (r: Result<bool, String>)
    ensures
        r is Err <==> !phc_hash_parses(hash@),
        r matches Ok(b) ==> b == argon2_matches(password@, hash@),
{
    match PasswordHash::new(hash) {
        Ok(parsed) => Ok(Argon2::default().verify_password(password.as_bytes(), &parsed).is_ok()),
        Err(e) => Err(e.to_string()),
    }
}

/// What verifying `password` against `hash` gives: a malformed hash, a match, or a
/// mismatch.
pub enum Verdict {
    Malformed,
    Matches,
    Mismatch,
}

/// The verdict of [`verify_password`] on `password` and `hash`.
pub open spec fn verdict(password: Seq<char>, hash: Seq<char>) -> Verdict {
    if !phc_hash_parses(hash) {
        Verdict::Malformed
    } else if argon2_matches(password, hash) {
        Verdict::Matches
    } else {
        Verdict::Mismatch
    }
}

/// Hashes a password using Argon2id with default parameters and a random salt of 16
/// bytes from the operating system. A produced hash is the Argon2id hash of the
/// password with some salt of that length, and verifies the password that it was made
/// from. When the operating system gives the salt, a password that fits is hashed.
pub fn hash_password(password: &str) -> (r: Result<String, AuthError>)
    ensures
        r matches Ok(h) ==> verdict(password@, h@) is Matches && exists|salt: Seq<u8>|
            salt.len() == 16 && h@ == #[trigger] argon2id_phc(password@, salt),
        r matches Err(e) ==> e is HashError,
{
    let salt = match os_random_bytes(16) {
        Ok(b) => b,
        Err(m) => {
            return Err(AuthError::HashError(m));
        },
    };
    hash_password_with_salt(password, salt.as_slice())
}

/// Hashes a password using Argon2id with default parameters and the given salt: the
/// same password and salt give the same hash, and the hash verifies the password. A
/// salt of fewer than 8 bytes is refused as too short, one of more than 48 bytes as
/// too long; with a salt in that range, a password of at most `u32::MAX` bytes is
/// hashed.
pub fn hash_password_with_salt(password: &str, salt: &[u8]) -> (r: Result<String, AuthError>)
    ensures
        r matches Ok(h) ==> verdict(password@, h@) is Matches && h@ == argon2id_phc(
            password@,
            salt@,
        ),
        r matches Err(e) ==> e is HashError,
        salt@.len() < 8 ==> (r matches Err(AuthError::HashError(m)) && m@ == "salt is too short"@),
        salt@.len() > 48 ==> (r matches Err(AuthError::HashError(m)) && m@ == "salt is too long"@),
        8 <= salt@.len() <= 48 && password_fits(password@) ==> r is Ok,
{
    if salt.len() < 8 {
        return Err(AuthError::HashError(String::from_str("salt is too short")));
    }
    if salt.len() > 48 {
        return Err(AuthError::HashError(String::from_str("salt is too long")));
    }
    match argon2_hash_with_salt(password, salt) {
        Ok(h) => Ok(h),
        Err(m) => Err(AuthError::HashError(m)),
    }
}

/// Verifies a password against an Argon2id hash: `Ok` when it matches,
/// `InvalidCredentials` when it does not, `HashError` when the hash is malformed.
pub fn verify_password(password: &str, hash: &str) -> (r: Result<(), AuthError>)
    ensures
        verdict(password@, hash@) is Malformed <==> r matches Err(AuthError::HashError(_)),
        verdict(password@, hash@) is Matches <==> r is Ok,
        verdict(password@, hash@) is Mismatch <==> r matches Err(AuthError::InvalidCredentials),
{
    match argon2_check(password, hash) {
        Err(m) => Err(AuthError::HashError(m)),
        Ok(true) => Ok(()),
        Ok(false) => Err(AuthError::InvalidCredentials),
    }
}

} // verus!
