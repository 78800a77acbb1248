//! Error types of the framework's domain, database and authentication layers,
//! each with the message that its `Display` form carries.
use vstd::prelude::*;

use crate::text::{concat2, decimal_int, i64_to_decimal};

verus! {

/// Core domain errors for the brom framework.
#[derive(Debug)]
#[non_exhaustive]
#[allow(inconsistent_fields)]
pub enum Error {
    SchemaError(String),
    ValidationError { field: String, message: String },
    RelationError(String),
    NotFound { entity: &'static str, id: i64 },
    Database(String),
    UniqueViolation { entity: String, field: String, value: String },
    Serde(String),
}

/// The message of a core [`Error`].
pub open spec fn error_message(e: Error) -> Seq<char> {
    match e {
        Error::SchemaError(s) => "schema error: "@ + s@,
        Error::ValidationError { field, message } =>
            "validation error for field '"@ + field@ + "': "@ + message@,
        Error::RelationError(s) => "relation error: "@ + s@,
        Error::NotFound { entity, id } =>
            "not found: entity "@ + entity@ + " with id "@ + decimal_int(id as int),
        Error::Database(s) => "database error: "@ + s@,
        Error::UniqueViolation { entity, field, value } =>
            "unique constraint violation: "@ + entity@ + " with "@ + field@ + "='"@ + value@
                + "' already exists"@,
        Error::Serde(s) => "serialization error: "@ + s@,
    }
}

impl Error {
    /// Renders the error message (the `Display` form of the error).
    pub fn to_string(&self) -> (s: String)
        ensures
            s@ == error_message(*self),
    {
        match self {
            Error::SchemaError(m) => concat2("schema error: ", m.as_str()),
            Error::ValidationError { field, message } => {
                let mut s = concat2("validation error for field '", field.as_str());
                s.append("': ");
                s.append(message.as_str());
                s
            },
            Error::RelationError(m) => concat2("relation error: ", m.as_str()),
            Error::NotFound { entity, id } => {
                let mut s = concat2("not found: entity ", entity);
                s.append(" with id ");
                let d = i64_to_decimal(*id);
                s.append(d.as_str());
                s
            },
            Error::Database(m) => concat2("database error: ", m.as_str()),
            Error::UniqueViolation { entity, field, value } => {
                let mut s = concat2("unique constraint violation: ", entity.as_str());
                s.append(" with ");
                s.append(field.as_str());
                s.append("='");
                s.append(value.as_str());
                s.append("' already exists");
                s
            },
            Error::Serde(m) => concat2("serialization error: ", m.as_str()),
        }
    }
}

/// Authentication errors for the brom framework.
#[derive(Debug)]
pub enum AuthError {
    InvalidCredentials,
    InvalidSession,
    InvalidApiKey,
    InsufficientPermissions(String),
    InternalError(String),
    HashError(String),
}

/// The message of an [`AuthError`].
pub open spec fn auth_error_message(e: AuthError) -> Seq<char> {
    match e {
        AuthError::InvalidCredentials => "invalid credentials"@,
        AuthError::InvalidSession => "session expired or invalid"@,
        AuthError::InvalidApiKey => "invalid api key"@,
        AuthError::InsufficientPermissions(s) => "insufficient permissions: "@ + s@,
        AuthError::InternalError(s) => "internal auth error: "@ + s@,
        AuthError::HashError(s) => "password hash error: "@ + s@,
    }
}

impl AuthError {
    /// Renders the error message (the `Display` form of the error).
    pub fn to_string(&self) -> (s: String)
        ensures
            s@ == auth_error_message(*self),
    {
        match self {
            AuthError::InvalidCredentials => String::from_str("invalid credentials"),
            AuthError::InvalidSession => String::from_str("session expired or invalid"),
            AuthError::InvalidApiKey => String::from_str("invalid api key"),
            AuthError::InsufficientPermissions(m) => concat2(
                "insufficient permissions: ",
                m.as_str(),
            ),
            AuthError::InternalError(m) => concat2("internal auth error: ", m.as_str()),
            AuthError::HashError(m) => concat2("password hash error: ", m.as_str()),
        }
    }
}

#[verifier::external_type_specification]
#[verifier::external_body]
pub struct ExIoError(std::io::Error);

/// Database and persistence errors for the brom framework.
#[derive(Debug)]
pub enum DbError {
    /// Failure initializing or maintaining database connection.
    ConnectionError(String),
    /// Query syntax error or execution failure.
    QueryError(String),
    /// Errors encountered running schema migrations.
    MigrationError(String),
    /// Pool exhaustions or configuration failures.
    PoolError(String),
    /// General underlying IO failure.
    IoError(std::io::Error),
}

/// The message of a [`DbError`] other than an I/O failure, whose text comes from the
/// operating system's error.
pub open spec fn db_error_message(e: DbError) -> Seq<char> {
    match e {
        DbError::ConnectionError(s) => "connection error: "@ + s@,
        DbError::QueryError(s) => "query error: "@ + s@,
        DbError::MigrationError(s) => "migration error: "@ + s@,
        DbError::PoolError(s) => "pool error: "@ + s@,
        DbError::IoError(_) => "io error: "@,
    }
}

impl DbError {
    /// Renders the error message (the `Display` form of the error). For an I/O
    /// failure the message is "io error: " followed by the I/O error's own text.
    pub fn to_string(&self) -> (s: String)
        ensures
            self is IoError ==> db_error_message(*self).is_prefix_of(s@),
            !(self is IoError) ==> s@ == db_error_message(*self),
    {
        match self {
            DbError::ConnectionError(m) => concat2("connection error: ", m.as_str()),
            DbError::QueryError(m) => concat2("query error: ", m.as_str()),
            DbError::MigrationError(m) => concat2("migration error: ", m.as_str()),
            DbError::PoolError(m) => concat2("pool error: ", m.as_str()),
            DbError::IoError(e) => {
                let t = e.to_string();
                let s = concat2("io error: ", t.as_str());
                assert("io error: "@ == s@.subrange(0, "io error: "@.len() as int));
                s
            },
        }
    }
}

} // verus!
