//! The shape of a live database schema, as read from `SQLite`'s PRAGMAs.
use vstd::prelude::*;

verus! {

/// A table as read from the live `SQLite` database via PRAGMAs.
#[derive(Debug, Clone, PartialEq)]
pub struct IntrospectedTable {
    pub name: String,
    pub columns: Vec<IntrospectedColumn>,
    pub foreign_keys: Vec<IntrospectedForeignKey>,
}

/// A column as read from `PRAGMA table_info`.
#[derive(Debug, Clone, PartialEq)]
pub struct IntrospectedColumn {
    pub name: String,
    /// Normalized to uppercase ("TEXT", "INTEGER", etc).
    pub col_type: String,
    pub not_null: bool,
    pub default_value: Option<String>,
    pub is_pk: bool,
}

/// A foreign key as read from `PRAGMA foreign_key_list`.
#[derive(Debug, Clone, PartialEq)]
pub struct IntrospectedForeignKey {
    pub from_column: String,
    pub to_table: String,
    pub to_column: String,
}

} // verus!
