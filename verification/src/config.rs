//! Configuration of the command-line tool.
use vstd::prelude::*;

verus! {

broadcast use vstd::string::group_string_axioms;

/// The database file used when `DATABASE_URL` is not set.
pub open spec fn default_db_path() -> Seq<char> {
    "brom.db"@
}

/// Application configuration derived from the environment.
pub struct AppConfig {
    /// Path to the SQLite database file.
    pub db_path: String,
}

impl AppConfig {
    /// Builds the configuration from the value of `DATABASE_URL`, if it is set:
    /// that value is the database path, and `brom.db` is the default.
    pub fn from_database_url(database_url: Option<String>) -> (c: Self)
        ensures
            c.db_path@ == match database_url {
                Some(u) => u@,
                None => default_db_path(),
            },
    {
        match database_url {
            Some(u) => AppConfig { db_path: u },
            None => AppConfig { db_path: String::from_str("brom.db") },
        }
    }
}

} // verus!
