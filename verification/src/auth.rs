//! Authentication and authorization: API key permissions, the stores of sessions and
//! API keys, access-policy evaluation, and password hashing.
use vstd::prelude::*;

use crate::entity::AuthPolicy;
use crate::error::AuthError;
use crate::text::{concat2, str_eq};

verus! {

/// Access control level for API keys.
#[derive(Debug, Clone, Copy, PartialEq, Eq, Structural)]
pub enum Permission {
    /// Read-only access to entity endpoints.
    Read,
    /// Full read and write access to entity endpoints.
    ReadWrite,
}

/// The text form of a permission.
pub open spec fn permission_text(p: Permission) -> Seq<char> {
    match p {
        Permission::Read => "read"@,
        Permission::ReadWrite => "read_write"@,
    }
}

/// The permission that a text names, if any: exactly "read" or "read_write".
pub open spec fn parse_permission(s: Seq<char>) -> Option<Permission> {
    if s == "read"@ {
        Some(Permission::Read)
    } else if s == "read_write"@ {
        Some(Permission::ReadWrite)
    } else {
        None
    }
}

impl Permission {
    /// The text form of the permission (its `Display` form).
    pub fn to_string(&self) -> (s: String)
        ensures
            s@ == permission_text(*self),
    {
        match self {
            Permission::Read => String::from_str("read"),
            Permission::ReadWrite => String::from_str("read_write"),
        }
    }

    /// Parses the text form of a permission. Any other text, in any other case, is
    /// refused with an internal error that quotes it.
    pub fn from_str(s: &str) -> (r: Result<Permission, AuthError>)
        ensures
            parse_permission(s@) matches Some(p) ==> r == Ok::<Permission, AuthError>(p),
            parse_permission(s@) is None ==> (r matches Err(AuthError::InternalError(m))
                && m@ == "invalid permission value: "@ + s@),
    {
        if str_eq(s, "read") {
            Ok(Permission::Read)
        } else if str_eq(s, "read_write") {
            Ok(Permission::ReadWrite)
        } else {
            Err(AuthError::InternalError(concat2("invalid permission value: ", s)))
        }
    }
}

impl std::str::FromStr for Permission {
    type Err = AuthError;

    fn from_str(s: &str) -> (r: Result<Permission, AuthError>)
        ensures
            parse_permission(s@) matches Some(p) ==> r == Ok::<Permission, AuthError>(p),
            parse_permission(s@) is None ==> (r matches Err(AuthError::InternalError(m))
                && m@ == "invalid permission value: "@ + s@),
    {
        Permission::from_str(s)
    }
}

/// Parsing the text form of a permission gives the permission back.
pub proof fn law_permission_text_roundtrip(p: Permission)
    ensures
        parse_permission(permission_text(p)) == Some(p),
{
    reveal_strlit("read");
    reveal_strlit("read_write");
    assert("read_write"@.len() != "read"@.len());
}

/// Stored metadata for an API key. The raw key is never persisted; only its hash.
#[derive(Debug, Clone)]
pub struct ApiKeyRecord {
    pub id: i64,
    pub name: String,
    pub key_prefix: String,
    pub permissions: Permission,
    pub user_id: i64,
    pub created_at: String,
    pub last_used_at: Option<String>,
}

/// Represents an active admin session.
#[derive(Debug, Clone)]
pub struct Session {
    /// The unique session token (usually a secure random string).
    pub token: String,
    /// The ID of the authenticated user.
    pub user_id: i64,
    /// The expiration timestamp in ISO 8601 format.
    pub expires_at: String,
}

/// Manages the lifecycle and validation of API keys. Implementations keep the keys in
/// a store of their own; what they answer depends on that store.
pub trait ApiKeyStore: Send + Sync {
    /// Creates a new API key for a user. Returns the raw key string (only shown once)
    /// and the record.
    fn create(&self, user_id: i64, name: &str, permissions: Permission) -> Result<
        (String, ApiKeyRecord),
        AuthError,
    >;

    /// Whether `answer` is what this store answers to validating `raw_key`. An
    /// implementation may say it of its own store; by default any answer may come.
    closed spec fn key_answer(&self, raw_key: Seq<char>, answer: Result<ApiKeyRecord, AuthError>) -> bool {
        true
    }

    /// Validates a raw API key, returning the associated record if valid
    /// (`AuthError::InvalidApiKey` if the key is invalid or revoked).
    fn validate(&self, raw_key: &str) -> (r: Result<ApiKeyRecord, AuthError>)
        ensures
            self.key_answer(raw_key@, r),
    ;

    /// Revokes an API key by ID, scoped to the owning user.
    fn revoke(&self, id: i64, user_id: i64) -> Result<(), AuthError>;

    /// Lists all API keys for a specific user.
    fn list_for_user(&self, user_id: i64) -> Result<Vec<ApiKeyRecord>, AuthError>;
}

/// Manages the lifecycle of admin UI sessions. Implementations keep the sessions in
/// a store of their own; what they answer depends on that store and on the time.
pub trait SessionStore: Send + Sync {
    /// Creates a new session for the given user.
    fn create(&self, user_id: i64) -> Result<Session, AuthError>;

    /// Whether `answer` is what this store answers to validating `token`. An
    /// implementation may say it of its own store; by default any answer may come.
    closed spec fn session_answer(&self, token: Seq<char>, answer: Result<Session, AuthError>) -> bool {
        true
    }

    /// Validates a session token (`AuthError::InvalidSession` if the token is not
    /// found or has expired).
    fn validate(&self, token: &str) -> (r: Result<Session, AuthError>)
        ensures
            self.session_answer(token@, r),
    ;

    /// Destroys a session (logout).
    fn destroy(&self, token: &str) -> Result<(), AuthError>;

    /// Removes all expired sessions from the store, returning how many were removed.
    fn cleanup_expired(&self) -> Result<u64, AuthError>;

    /// Destroys all sessions for a specific user (mass invalidation).
    fn destroy_all_for_user(&self, user_id: i64) -> Result<(), AuthError>;
}

/// The outcome of a policy check, given whether a token was presented and, for a
/// protected policy, what the store answered for that token.
pub open spec fn policy_outcome_spec(
    policy: AuthPolicy,
    has_token: bool,
    check: Result<(), AuthError>,
) -> Result<(), AuthError> {
    match policy {
        AuthPolicy::Public => Ok(()),
        _ => if !has_token {
            Err(AuthError::InvalidCredentials)
        } else {
            check
        },
    }
}

/// Decides a policy check: public policies always pass; protected ones need a token,
/// and then pass exactly when the store accepted it, failing with the store's error.
pub fn policy_outcome(policy: &AuthPolicy, has_token: bool, check: Result<(), AuthError>) -> (r:
    Result<(), AuthError>)
    ensures
        r == policy_outcome_spec(*policy, has_token, check),
{
    match policy {
        AuthPolicy::Public => Ok(()),
        _ => if !has_token {
            Err(AuthError::InvalidCredentials)
        } else {
            check
        },
    }
}

/// The store that checks a token.
#[derive(Debug, Clone, Copy, PartialEq, Eq, Structural)]
pub enum Store {
    /// The session store.
    Sessions,
    /// The API key store.
    ApiKeys,
}

/// The store that a policy check asks, if any: a token under `AdminOnly` is a session
/// token, under `ApiKey` an API key; `Public`, and a protected policy without a token,
/// ask no store.
pub open spec fn store_for_spec(policy: AuthPolicy, has_token: bool) -> Option<Store> {
    if !has_token {
        None
    } else {
        match policy {
            AuthPolicy::Public => None,
            AuthPolicy::AdminOnly => Some(Store::Sessions),
            AuthPolicy::ApiKey => Some(Store::ApiKeys),
        }
    }
}

/// Chooses the store that a policy check asks (see [`store_for_spec`]).
pub fn store_for(policy: &AuthPolicy, has_token: bool) -> (r: Option<Store>)
    ensures
        r == store_for_spec(*policy, has_token),
{
    if !has_token {
        return None;
    }
    match policy {
        AuthPolicy::Public => None,
        AuthPolicy::AdminOnly => Some(Store::Sessions),
        AuthPolicy::ApiKey => Some(Store::ApiKeys),
    }
}

/// What a store's answer means for a policy check: a record passes, an error fails
/// with that error.
pub open spec fn answer_outcome<T>(a: Result<T, AuthError>) -> Result<(), AuthError> {
    match a {
        Ok(_) => Ok(()),
        Err(e) => Err(e),
    }
}

/// Evaluates if a given token meets the requirements of an `AuthPolicy`: `Public`
/// passes; `AdminOnly` validates the token as a session, `ApiKey` as an API key; a
/// protected policy without a token fails with `InvalidCredentials`. The store's
/// answer is passed on (`Ok` for a valid token, its error otherwise).
pub fn evaluate_policy<S: SessionStore + ?Sized, K: ApiKeyStore + ?Sized>(
    policy: &AuthPolicy,
    token: Option<&str>,
    session_store: &S,
    api_key_store: &K,
) -> (r: Result<(), AuthError>)
    ensures
        store_for_spec(*policy, token is Some) is None ==> r == policy_outcome_spec(
            *policy,
            token is Some,
            Ok(()),
        ),
        store_for_spec(*policy, token is Some) == Some(Store::Sessions) ==> exists|
            a: Result<Session, AuthError>,
        |
            #[trigger] session_store.session_answer(token.unwrap()@, a) && r == answer_outcome(a),
        store_for_spec(*policy, token is Some) == Some(Store::ApiKeys) ==> exists|
            a: Result<ApiKeyRecord, AuthError>,
        |
            #[trigger] api_key_store.key_answer(token.unwrap()@, a) && r == answer_outcome(a),
        *policy == AuthPolicy::Public ==> r is Ok,
        *policy != AuthPolicy::Public && token is None ==> r == Err::<(), AuthError>(
            AuthError::InvalidCredentials,
        ),
{
    let check: Result<(), AuthError> = match (store_for(policy, token.is_some()), token) {
        (Some(Store::Sessions), Some(t)) => {
            let a = session_store.validate(t);
            match a {
                Ok(_) => Ok(()),
                Err(e) => Err(e),
            }
        },
        (Some(Store::ApiKeys), Some(t)) => {
            let a = api_key_store.validate(t);
            match a {
                Ok(_) => Ok(()),
                Err(e) => Err(e),
            }
        },
        _ => Ok(()),
    };
    policy_outcome(policy, token.is_some(), check)
}

} // verus!
