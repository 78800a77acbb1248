use brom::entity::{AuthPolicy, FieldInfo, FieldType, Pagination};
use brom::error::Error;
use brom::sql::{
    count_statement, delete_statement, insert_failure_error, insert_statement, join_strings,
    select_by_id_statement, select_page_statement, update_statement, validate_identifiers,
    ParamSource,
};

fn field(name: &str) -> FieldInfo {
    FieldInfo {
        name: name.to_string(),
        field_type: FieldType::String,
        constraints: vec![],
        ui_widget: None,
        hidden: false,
    }
}

fn sources(ps: &[ParamSource]) -> Vec<String> {
    ps.iter()
        .map(|p| match p {
            ParamSource::Now => "now".to_string(),
            ParamSource::Field(f) => format!("field:{f}"),
            ParamSource::Id => "id".to_string(),
        })
        .collect()
}

fn strings(v: &[&str]) -> Vec<String> {
    v.iter().map(|s| s.to_string()).collect()
}

#[test]
fn insert_statement_skips_id() {
    let fields = vec![field("id"), field("title"), field("body"), field("created_at")];
    let st = insert_statement("test_posts", &fields).unwrap();
    assert_eq!(st.sql, "INSERT INTO test_posts (title, body, created_at) VALUES (?, ?, ?)");
    assert_eq!(sources(&st.params), vec!["field:title", "field:body", "now"]);
    assert_eq!(st.columns, vec!["title", "body", "created_at"]);
}

#[test]
fn update_statement_assigns_every_field() {
    let fields = vec![field("id"), field("title"), field("updated_at")];
    let st = update_statement("test_posts", &fields).unwrap();
    assert_eq!(st.sql, "UPDATE test_posts SET id = ?, title = ?, updated_at = ? WHERE id = ?");
    assert_eq!(sources(&st.params), vec!["field:id", "field:title", "now", "id"]);
    assert_eq!(st.columns, vec!["id", "title", "updated_at"]);
}

#[test]
fn statements_refuse_unsafe_names() {
    match insert_statement("posts;", &vec![field("title")]) {
        Err(Error::SchemaError(m)) => assert_eq!(m, "invalid SQL identifier: posts;"),
        _ => panic!("expected a schema error"),
    }
    match update_statement("posts", &vec![field("ok"), field("bad name"), field("x-y")]) {
        Err(Error::SchemaError(m)) => assert_eq!(m, "invalid SQL identifier: bad name"),
        _ => panic!("expected a schema error"),
    }
    assert!(validate_identifiers(&strings(&["a", "b_2"])).is_ok());
    assert!(select_by_id_statement("1x").is_err());
    assert!(delete_statement("").is_err());
    assert!(count_statement("a b").is_err());
}

#[test]
fn simple_statements() {
    assert_eq!(select_by_id_statement("posts").unwrap(), "SELECT * FROM posts WHERE id = ?");
    assert_eq!(delete_statement("posts").unwrap(), "DELETE FROM posts WHERE id = ?");
    assert_eq!(count_statement("posts").unwrap(), "SELECT COUNT(*) FROM posts");
    let (sql, limit, offset) = select_page_statement("posts", &Pagination::new(3, 10)).unwrap();
    assert_eq!(sql, "SELECT * FROM posts LIMIT ? OFFSET ?");
    assert_eq!((limit, offset), (10, 20));
    let (_, limit, offset) = select_page_statement("posts", &Pagination::new(0, 25)).unwrap();
    assert_eq!((limit, offset), (25, 0));
    assert_eq!(join_strings(&strings(&["a", "b", "c"]), ", "), "a, b, c");
    assert_eq!(join_strings(&vec![], ", "), "");
    let _ = AuthPolicy::Public;
}

#[test]
fn unique_failures_name_the_column_and_value() {
    let cols = strings(&["slug", "title"]);
    let vals = strings(&["hello-world", "Hello"]);
    let e = insert_failure_error(
        "posts",
        &cols,
        &vals,
        true,
        Some("UNIQUE constraint failed: posts.slug"),
        "UNIQUE constraint failed: posts.slug",
    );
    assert_eq!(
        e.to_string(),
        "unique constraint violation: posts with slug='hello-world' already exists"
    );
    // A column that was not written has an unknown value.
    let e = insert_failure_error(
        "posts",
        &cols,
        &vals,
        true,
        Some("UNIQUE constraint failed: posts.email"),
        "x",
    );
    match e {
        Error::UniqueViolation { entity, field, value } => {
            assert_eq!((entity.as_str(), field.as_str(), value.as_str()), ("posts", "email", "unknown"))
        }
        other => panic!("unexpected {other:?}"),
    }
    // Without a dot the detail is the column; with several dots its first part.
    let e = insert_failure_error("t", &cols, &vals, true, Some("UNIQUE constraint failed: title"), "x");
    assert!(matches!(e, Error::UniqueViolation { ref field, ref value, .. } if field == "title" && value == "Hello"));
    let e = insert_failure_error("t", &cols, &vals, true, Some("UNIQUE constraint failed: a.b.c"), "x");
    assert!(matches!(e, Error::UniqueViolation { ref field, .. } if field == "a"));
}

#[test]
fn other_failures_are_database_errors() {
    let cols = strings(&["slug"]);
    let vals = strings(&["v"]);
    let e = insert_failure_error("posts", &cols, &vals, false, Some("UNIQUE constraint failed: posts.slug"), "boom");
    assert!(matches!(e, Error::Database(ref m) if m == "boom"));
    let e = insert_failure_error("posts", &cols, &vals, true, Some("NOT NULL constraint failed: posts.slug"), "nn");
    assert!(matches!(e, Error::Database(ref m) if m == "nn"));
    let e = insert_failure_error("posts", &cols, &vals, true, None, "none");
    assert!(matches!(e, Error::Database(ref m) if m == "none"));
    let e = insert_failure_error("posts", &cols, &vals, true, Some("UNIQUE constraint failed"), "nosep");
    assert!(matches!(e, Error::Database(ref m) if m == "nosep"));
}
