use std::sync::atomic::{AtomicU32, Ordering};

use brom::auth::{
    evaluate_policy, store_for, ApiKeyRecord, ApiKeyStore, Permission, Session, SessionStore, Store,
};
use brom::entity::AuthPolicy;
use brom::error::AuthError;
use brom::credentials::{
    api_key_hash, check_session_expiry, key_prefix, new_api_key, new_secret, revoke_result,
    session_expiry_check,
};
use brom::password::{hash_password, hash_password_with_salt, verify_password};

/// A session store that accepts exactly one token and counts its calls.
struct OneSessionStore {
    token: &'static str,
    calls: AtomicU32,
}

impl SessionStore for OneSessionStore {
    fn create(&self, _user_id: i64) -> Result<Session, AuthError> {
        Err(AuthError::InvalidSession)
    }

    fn validate(&self, token: &str) -> Result<Session, AuthError> {
        self.calls.fetch_add(1, Ordering::SeqCst);
        if token == self.token {
            Ok(Session {
                token: token.to_string(),
                user_id: 1,
                expires_at: "2026-04-04T12:00:00Z".to_string(),
            })
        } else {
            Err(AuthError::InvalidSession)
        }
    }

    fn destroy(&self, _token: &str) -> Result<(), AuthError> {
        Ok(())
    }

    fn cleanup_expired(&self) -> Result<u64, AuthError> {
        Ok(0)
    }

    fn destroy_all_for_user(&self, _user_id: i64) -> Result<(), AuthError> {
        Ok(())
    }
}

/// An API key store that accepts exactly one key.
struct OneKeyStore {
    key: &'static str,
}

impl ApiKeyStore for OneKeyStore {
    fn create(
        &self,
        _user_id: i64,
        _name: &str,
        _permissions: Permission,
    ) -> Result<(String, ApiKeyRecord), AuthError> {
        Err(AuthError::InvalidApiKey)
    }

    fn validate(&self, raw_key: &str) -> Result<ApiKeyRecord, AuthError> {
        if raw_key == self.key {
            Ok(ApiKeyRecord {
                id: 1,
                name: "test-key".to_string(),
                key_prefix: "brom_abc".to_string(),
                permissions: Permission::ReadWrite,
                user_id: 1,
                created_at: "2026-01-01T00:00:00Z".to_string(),
                last_used_at: None,
            })
        } else {
            Err(AuthError::InvalidApiKey)
        }
    }

    fn revoke(&self, _id: i64, _user_id: i64) -> Result<(), AuthError> {
        Ok(())
    }

    fn list_for_user(&self, _user_id: i64) -> Result<Vec<ApiKeyRecord>, AuthError> {
        Ok(vec![])
    }
}

fn session_store(token: &'static str) -> OneSessionStore {
    OneSessionStore { token, calls: AtomicU32::new(0) }
}

#[test]
fn test_permission_display_and_parse() {
    // Display
    assert_eq!(Permission::Read.to_string(), "read");
    assert_eq!(Permission::ReadWrite.to_string(), "read_write");

    // FromStr
    assert_eq!(Permission::from_str("read").unwrap(), Permission::Read);
    assert_eq!(Permission::from_str("read_write").unwrap(), Permission::ReadWrite);

    // Invalid
    assert!(Permission::from_str("admin").is_err());
    assert!(Permission::from_str("").is_err());
    assert!(Permission::from_str("READ").is_err());
}

#[test]
fn permission_parses_through_from_str_trait() {
    let p: Permission = "read_write".parse().unwrap();
    assert_eq!(p, Permission::ReadWrite);
    match "write".parse::<Permission>() {
        Err(AuthError::InternalError(m)) => assert_eq!(m, "invalid permission value: write"),
        other => panic!("unexpected {other:?}"),
    }
}

#[test]
fn permission_text_roundtrip() {
    for p in [Permission::Read, Permission::ReadWrite] {
        assert_eq!(Permission::from_str(&p.to_string()).unwrap(), p);
    }
}

#[test]
fn test_evaluate_policy_public() {
    let sessions = session_store("never");
    let keys = OneKeyStore { key: "never" };

    let result = evaluate_policy(&AuthPolicy::Public, None, &sessions, &keys);
    assert!(result.is_ok());
    assert_eq!(sessions.calls.load(Ordering::SeqCst), 0);
}

#[test]
fn test_evaluate_policy_admin_only() {
    let sessions = session_store("valid-session");
    let keys = OneKeyStore { key: "never" };

    // Success case
    let result = evaluate_policy(&AuthPolicy::AdminOnly, Some("valid-session"), &sessions, &keys);
    assert!(result.is_ok());

    // Failure case: missing token
    let result = evaluate_policy(&AuthPolicy::AdminOnly, None, &sessions, &keys);
    assert!(matches!(result, Err(AuthError::InvalidCredentials)));

    // Failure case: invalid token
    let result = evaluate_policy(&AuthPolicy::AdminOnly, Some("invalid"), &sessions, &keys);
    assert!(matches!(result, Err(AuthError::InvalidSession)));
}

#[test]
fn evaluate_policy_api_key() {
    let sessions = session_store("valid-session");
    let keys = OneKeyStore { key: "brom_good" };

    assert!(evaluate_policy(&AuthPolicy::ApiKey, Some("brom_good"), &sessions, &keys).is_ok());
    assert!(matches!(
        evaluate_policy(&AuthPolicy::ApiKey, Some("valid-session"), &sessions, &keys),
        Err(AuthError::InvalidApiKey)
    ));
    assert!(matches!(
        evaluate_policy(&AuthPolicy::ApiKey, None, &sessions, &keys),
        Err(AuthError::InvalidCredentials)
    ));
    // An API-key policy never consults the session store.
    assert_eq!(sessions.calls.load(Ordering::SeqCst), 0);
}

#[test]
fn test_password_hashing_and_verification() {
    let password = "my_secure_password";
    let hash = hash_password(password).expect("Failed to hash password");

    // Should verify correctly
    assert!(verify_password(password, &hash).is_ok());

    // Should fail with wrong password
    assert!(matches!(verify_password("wrong_password", &hash), Err(AuthError::InvalidCredentials)));
}

#[test]
fn test_invalid_hash_format() {
    let result = verify_password("password", "not_a_valid_hash");
    assert!(matches!(result, Err(AuthError::HashError(_))));
}

#[test]
fn password_hashes_are_salted() {
    let a = hash_password("same").unwrap();
    let b = hash_password("same").unwrap();
    assert_ne!(a, b);
    assert!(a.starts_with("$argon2id$"));
    assert!(verify_password("same", &a).is_ok());
    assert!(verify_password("same", &b).is_ok());
}

#[test]
fn auth_error_messages() {
    assert_eq!(AuthError::InvalidCredentials.to_string(), "invalid credentials");
    assert_eq!(AuthError::HashError("bad".to_string()).to_string(), "password hash error: bad");
}

#[test]
fn secrets_and_api_keys() {
    let s = new_secret().unwrap();
    assert_eq!(s.len(), 64);
    assert!(s.chars().all(|c| c.is_ascii_hexdigit() && !c.is_ascii_uppercase()));
    assert_ne!(s, new_secret().unwrap());
    let k = new_api_key().unwrap();
    assert_eq!(k.key_prefix, &k.raw_key[..8]);
    assert_eq!(k.key_hash, api_key_hash(&k.raw_key));
    assert_eq!(
        api_key_hash("abc"),
        "ba7816bf8f01cfea414140de5dae2223b00361a396177a9cb410ff61f20015ad"
    );
    assert_eq!(key_prefix("abc"), "abc");
    assert_eq!(key_prefix("0123456789"), "01234567");
    assert!(matches!(revoke_result(0), Err(AuthError::InvalidApiKey)));
    assert!(revoke_result(1).is_ok());
}

#[test]
fn session_expiry_decisions() {
    // 2026-04-04T12:00:00Z is 1775304000 seconds after the epoch.
    let exp = "2026-04-04T12:00:00Z";
    assert!(session_expiry_check(exp, 1775304000, 0).is_ok());
    assert!(session_expiry_check(exp, 1775303999, 999_999_999).is_ok());
    assert!(matches!(session_expiry_check(exp, 1775304000, 1), Err(AuthError::InvalidSession)));
    assert!(matches!(session_expiry_check("2026-04-04T14:00:00+02:00", 1775304001, 0), Err(AuthError::InvalidSession)));
    match session_expiry_check("yesterday", 0, 0) {
        Err(AuthError::InternalError(m)) => assert_eq!(m, "Invalid timestamp in DB"),
        other => panic!("unexpected {other:?}"),
    }
    let old = Session { token: "expired-token".into(), user_id: 1, expires_at: "2000-01-01T00:00:00Z".into() };
    assert!(matches!(check_session_expiry(old), Err(AuthError::InvalidSession)));
    let live = Session { token: "t".into(), user_id: 7, expires_at: "2999-01-01T00:00:00Z".into() };
    assert_eq!(check_session_expiry(live).unwrap().user_id, 7);
}

#[test]
fn password_hash_with_fixed_salt_is_deterministic() {
    let salt = [7u8; 16];
    let a = hash_password_with_salt("pw", &salt).unwrap();
    let b = hash_password_with_salt("pw", &salt).unwrap();
    assert_eq!(a, b);
    assert_ne!(a, "pw");
    assert!(verify_password("pw", &a).is_ok());
}

#[test]
fn salts_outside_the_accepted_range_are_refused() {
    match hash_password_with_salt("pw", &[]) {
        Err(AuthError::HashError(m)) => assert_eq!(m, "salt is too short"),
        other => panic!("unexpected {other:?}"),
    }
    match hash_password_with_salt("pw", &[1u8; 7]) {
        Err(AuthError::HashError(m)) => assert_eq!(m, "salt is too short"),
        other => panic!("unexpected {other:?}"),
    }
    match hash_password_with_salt("pw", &[1u8; 49]) {
        Err(AuthError::HashError(m)) => assert_eq!(m, "salt is too long"),
        other => panic!("unexpected {other:?}"),
    }
    assert!(hash_password_with_salt("pw", &[1u8; 8]).is_ok());
    assert!(hash_password_with_salt("pw", &[1u8; 48]).is_ok());
}

#[test]
fn policies_choose_their_store() {
    assert_eq!(store_for(&AuthPolicy::AdminOnly, true), Some(Store::Sessions));
    assert_eq!(store_for(&AuthPolicy::ApiKey, true), Some(Store::ApiKeys));
    assert_eq!(store_for(&AuthPolicy::Public, true), None);
    assert_eq!(store_for(&AuthPolicy::AdminOnly, false), None);
}
