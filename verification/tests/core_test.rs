use brom::entity::{
    validate_sql_identifier, AuthPolicy, Constraint, EntitySchema, FieldInfo, FieldType,
    Pagination, SchemaInfo,
};
use brom::error::{DbError, Error};
use brom::relation::{Link, ManyToMany};
use brom::schema::SchemaRegistry;

struct Dummy;

#[derive(Debug, PartialEq)]
struct EqDummy;

fn sample_schema(name: &str) -> SchemaInfo {
    SchemaInfo {
        table_name: name.to_string(),
        fields: vec![FieldInfo {
            name: "id".to_string(),
            field_type: FieldType::Integer,
            constraints: vec![],
            ui_widget: None,
            hidden: false,
        }],
        auth_policy: AuthPolicy::Public,
    }
}

pub struct Post {
    pub id: i64,
    pub title: String,
    pub body: String,
}

fn plain_field(name: &str, field_type: FieldType) -> FieldInfo {
    FieldInfo {
        name: name.into(),
        field_type,
        constraints: vec![],
        ui_widget: None,
        hidden: false,
    }
}

impl EntitySchema for Post {
    fn table_name() -> &'static str {
        "test_posts"
    }
    fn fields() -> Vec<FieldInfo> {
        vec![
            plain_field("id", FieldType::Integer),
            plain_field("title", FieldType::String),
            plain_field("body", FieldType::String),
        ]
    }
    fn schema_info() -> SchemaInfo {
        SchemaInfo {
            table_name: "test_posts".into(),
            fields: Self::fields(),
            auth_policy: AuthPolicy::Public,
        }
    }
}

#[test]
fn test_unique_violation_display() {
    let err = Error::UniqueViolation {
        entity: "Post".to_string(),
        field: "slug".to_string(),
        value: "hello-world".to_string(),
    };
    assert_eq!(
        err.to_string(),
        "unique constraint violation: Post with slug='hello-world' already exists"
    );
}

#[test]
fn error_messages() {
    assert_eq!(Error::SchemaError("x".into()).to_string(), "schema error: x");
    assert_eq!(
        Error::ValidationError { field: "title".into(), message: "too long".into() }.to_string(),
        "validation error for field 'title': too long"
    );
    assert_eq!(Error::NotFound { entity: "Post", id: -42 }.to_string(), "not found: entity Post with id -42");
    assert_eq!(
        Error::NotFound { entity: "Post", id: i64::MIN }.to_string(),
        "not found: entity Post with id -9223372036854775808"
    );
    assert_eq!(Error::Database("locked".into()).to_string(), "database error: locked");
    assert_eq!(Error::Serde("bad".into()).to_string(), "serialization error: bad");
    assert_eq!(DbError::MigrationError("m".into()).to_string(), "migration error: m");
    assert_eq!(DbError::PoolError("p".into()).to_string(), "pool error: p");
    let io = DbError::IoError(std::io::Error::new(std::io::ErrorKind::Other, "disk"));
    assert_eq!(io.to_string(), "io error: disk");
}

#[test]
fn link_roundtrip() {
    let link: Link<Dummy> = Link::new(42);
    assert_eq!(link.id(), 42);
}

#[test]
fn many_to_many_constructors() {
    let m1: ManyToMany<EqDummy> = ManyToMany::new();
    let m2: ManyToMany<EqDummy> = ManyToMany::default();
    assert_eq!(m1, m2);
}

#[test]
fn register_and_retrieve() {
    let mut reg = SchemaRegistry::new();
    reg.register(sample_schema("post"));
    reg.register(sample_schema("tag"));
    let schemas = reg.all_schemas();
    assert_eq!(schemas.len(), 2);
}

#[test]
fn register_duplicate_is_idempotent() {
    let mut reg = SchemaRegistry::new();
    reg.register(sample_schema("post"));
    reg.register(sample_schema("post"));
    assert_eq!(reg.all_schemas().len(), 1);
}

#[test]
fn empty_registry_returns_empty_vec() {
    let reg = SchemaRegistry::new();
    assert!(reg.all_schemas().is_empty());
}

#[test]
fn register_keeps_first_schema_of_a_table() {
    let mut reg = SchemaRegistry::default();
    reg.register(sample_schema("post"));
    let mut other = sample_schema("post");
    other.auth_policy = AuthPolicy::AdminOnly;
    reg.register(other);
    reg.register(sample_schema("tag"));
    let all = reg.all_schemas();
    assert_eq!(all.len(), 2);
    assert_eq!(all[0].table_name, "post");
    assert_eq!(all[0].auth_policy, AuthPolicy::Public);
    assert_eq!(all[1].table_name, "tag");
}

#[test]
fn existing_schema_uses_valid_identifiers() {
    // Verify that all field names in the test Post schema are valid identifiers
    for field in Post::fields() {
        validate_sql_identifier(&field.name).expect("field name should be valid");
    }
    validate_sql_identifier(Post::table_name()).expect("table name should be valid");
    let _ = Post::schema_info();
    let _ = Post { id: 0, title: String::new(), body: String::new() };
}

#[test]
fn sql_identifier_rule() {
    assert!(validate_sql_identifier("_brom_user").is_ok());
    assert!(validate_sql_identifier("a1").is_ok());
    assert!(validate_sql_identifier("").is_err());
    assert!(validate_sql_identifier("1a").is_err());
    assert!(validate_sql_identifier("posts; DROP TABLE x").is_err());
    match validate_sql_identifier("bad-name") {
        Err(Error::SchemaError(m)) => assert_eq!(m, "invalid SQL identifier: bad-name"),
        _ => panic!("expected a schema error"),
    }
}

#[test]
fn pagination_defaults() {
    let p = Pagination::default();
    assert_eq!((p.page, p.per_page), (1, 25));
    let q = Pagination::new(3, 10);
    assert_eq!((q.page, q.per_page), (3, 10));
    let _ = Constraint::NotNull;
}
