//! Verified core of the brom headless CMS framework: the schema model and the
//! entity attributes, the routes generated for an entity, the schema diff engine and
//! its SQL generator, migration file handling, SQL statement construction, the
//! authentication rules and secrets, and the decisions of the admin interface.

pub mod admin;
pub mod attrs;
pub mod auth;
pub mod config;
pub mod credentials;
pub mod derive;
pub mod diff;
pub mod digest;
pub mod entity;
pub mod error;
pub mod introspect;
pub mod migration;
pub mod password;
pub mod relation;
pub mod routes;
pub mod schema;
pub mod sql;
pub mod text;
