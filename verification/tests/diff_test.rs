use brom::diff::{generate_migration_sql, DiffEngine, MigrationOp};
use brom::entity::{AuthPolicy, Constraint, FieldInfo, FieldType, SchemaInfo};
use brom::introspect::{IntrospectedColumn, IntrospectedForeignKey, IntrospectedTable};

fn field(name: &str, field_type: FieldType, constraints: Vec<Constraint>) -> FieldInfo {
    FieldInfo { name: name.to_string(), field_type, constraints, ui_widget: None, hidden: false }
}

fn schema(name: &str, fields: Vec<FieldInfo>) -> SchemaInfo {
    SchemaInfo { table_name: name.to_string(), fields, auth_policy: AuthPolicy::Public }
}

fn column(name: &str, col_type: &str, is_pk: bool) -> IntrospectedColumn {
    IntrospectedColumn {
        name: name.to_string(),
        col_type: col_type.to_string(),
        not_null: false,
        default_value: None,
        is_pk,
    }
}

/// The table that `CREATE TABLE <name> (id TEXT PRIMARY KEY, <extra> TEXT...)` leaves.
fn live_table(name: &str, extra: &[&str]) -> IntrospectedTable {
    let mut columns = vec![column("id", "TEXT", true)];
    for c in extra {
        columns.push(column(c, "TEXT", false));
    }
    IntrospectedTable { name: name.to_string(), columns, foreign_keys: vec![] }
}

#[test]
fn test_generate_migration_sql_snapshots() {
    let ops = vec![
        MigrationOp::CreateTable {
            name: "posts".into(),
            columns: vec![
                field("title", FieldType::String, vec![]),
                field("author_id", FieldType::Link { target: "users".into() }, vec![]),
            ],
        },
        MigrationOp::AlterTableAddColumn {
            table_name: "users".into(),
            column: field("bio", FieldType::String, vec![]),
        },
        MigrationOp::DropColumn { table_name: "users".into(), column_name: "old_field".into() },
        MigrationOp::DropTable { name: "obsolete_table".into() },
    ];

    let (up, down) = generate_migration_sql(&ops);
    assert_eq!(
        up,
        "CREATE TABLE posts (\n    id TEXT PRIMARY KEY,\n    title TEXT,\n    author_id TEXT REFERENCES users(id),\n    created_at TEXT DEFAULT (datetime('now')),\n    updated_at TEXT DEFAULT (datetime('now'))\n);\nALTER TABLE users ADD COLUMN bio TEXT;\nALTER TABLE users DROP COLUMN old_field;\nDROP TABLE obsolete_table;\n"
    );
    assert_eq!(
        down,
        "DROP TABLE posts;\nALTER TABLE users DROP COLUMN bio;\n-- TODO: Manual rollback needed for DropColumn old_field on users\n-- TODO: Manual rollback needed for DropTable obsolete_table\n"
    );
}

#[test]
fn column_definitions_carry_types_and_constraints() {
    let ops = vec![MigrationOp::CreateTable {
        name: "items".into(),
        columns: vec![
            field("count", FieldType::Integer, vec![Constraint::NotNull, Constraint::Unique]),
            field("price", FieldType::Float, vec![Constraint::Default("0".into())]),
            field("done", FieldType::Boolean, vec![]),
            field("due", FieldType::DateTime, vec![]),
            field(
                "tags",
                FieldType::ManyToMany { target: "tag".into(), junction_table: "item_tag".into() },
                vec![],
            ),
        ],
    }];
    let (up, down) = generate_migration_sql(&ops);
    assert_eq!(
        up,
        "CREATE TABLE items (\n    id TEXT PRIMARY KEY,\n    count INTEGER NOT NULL UNIQUE,\n    price REAL DEFAULT '0',\n    done INTEGER,\n    due TEXT,\n    created_at TEXT DEFAULT (datetime('now')),\n    updated_at TEXT DEFAULT (datetime('now'))\n);\n"
    );
    assert_eq!(down, "DROP TABLE items;\n");
    assert_eq!(generate_migration_sql(&[]), (String::new(), String::new()));
}

#[test]
fn test_diff_new_table() {
    let expected =
        vec![schema("posts", vec![field("title", FieldType::String, vec![Constraint::NotNull])])];
    // actual db is empty
    let actual = vec![];
    let engine = DiffEngine::new(expected, actual);
    let ops = engine.diff();

    assert_eq!(ops.len(), 1);
    match &ops[0] {
        MigrationOp::CreateTable { name, .. } => assert_eq!(name, "posts"),
        other => panic!("Expected CreateTable, found {:?}", other),
    }
}

#[test]
fn test_diff_add_column() {
    let expected =
        vec![schema("posts", vec![field("title", FieldType::String, vec![Constraint::NotNull])])];
    let actual = vec![live_table("posts", &[])];
    let engine = DiffEngine::new(expected, actual);
    let ops = engine.diff();

    assert_eq!(ops.len(), 1);
    match &ops[0] {
        MigrationOp::AlterTableAddColumn { table_name, column } => {
            assert_eq!(table_name, "posts");
            assert_eq!(column.name, "title");
        }
        _ => panic!("Expected AlterTableAddColumn"),
    }
}

#[test]
fn test_diff_drop_column() {
    let expected = vec![schema("posts", vec![])];
    let actual = vec![live_table("posts", &["obsolete"])];
    let engine = DiffEngine::new(expected, actual);
    let ops = engine.diff();

    // Should drop 'obsolete', but NOT 'id'
    assert_eq!(ops.len(), 1);
    match &ops[0] {
        MigrationOp::DropColumn { table_name, column_name } => {
            assert_eq!(table_name, "posts");
            assert_eq!(column_name, "obsolete");
        }
        _ => panic!("Expected DropColumn"),
    }
}

#[test]
fn test_diff_topological_sort() {
    // authors must be created before posts because posts links to authors
    let expected = vec![
        schema(
            "posts",
            vec![field("author_id", FieldType::Link { target: "authors".to_string() }, vec![])],
        ),
        schema("authors", vec![]),
    ];

    let actual = vec![]; // empty db
    let engine = DiffEngine::new(expected, actual);
    let ops = engine.diff();

    assert_eq!(ops.len(), 2);
    // authors should be first
    match (&ops[0], &ops[1]) {
        (MigrationOp::CreateTable { name: n1, .. }, MigrationOp::CreateTable { name: n2, .. }) => {
            assert_eq!(n1, "authors");
            assert_eq!(n2, "posts");
        }
        _ => panic!("Expected two CreateTable ops ordered by dependency"),
    }
}

#[test]
fn diff_orders_creates_adds_drops() {
    let expected = vec![
        schema("posts", vec![field("title", FieldType::String, vec![])]),
        schema("comments", vec![field("post_id", FieldType::Link { target: "posts".into() }, vec![])]),
    ];
    let actual = vec![
        live_table("posts", &["legacy"]),
        live_table("old_stuff", &[]),
    ];
    let ops = DiffEngine::new(expected, actual).diff();
    let kinds: Vec<String> = ops
        .iter()
        .map(|op| match op {
            MigrationOp::CreateTable { name, .. } => format!("create {name}"),
            MigrationOp::AlterTableAddColumn { table_name, column } => {
                format!("add {table_name}.{}", column.name)
            }
            MigrationOp::DropColumn { table_name, column_name } => {
                format!("dropcol {table_name}.{column_name}")
            }
            MigrationOp::DropTable { name } => format!("drop {name}"),
        })
        .collect();
    assert_eq!(
        kinds,
        vec!["drop old_stuff", "create comments", "add posts.title", "dropcol posts.legacy"]
    );
    assert_eq!(ops[1].table_name(), "comments");
}

#[test]
fn in_sync_schema_needs_no_migration() {
    let expected = vec![schema(
        "posts",
        vec![
            field("title", FieldType::String, vec![]),
            field("author_id", FieldType::Link { target: "users".into() }, vec![]),
        ],
    )];
    let mut table = live_table("posts", &["title", "author_id", "created_at", "updated_at"]);
    table.foreign_keys.push(IntrospectedForeignKey {
        from_column: "author_id".into(),
        to_table: "users".into(),
        to_column: "id".into(),
    });
    let ops = DiffEngine::new(expected, vec![table]).diff();
    assert!(ops.is_empty());
}

#[test]
fn dependency_chain_and_cycle() {
    let link = |t: &str| vec![field("ref_id", FieldType::Link { target: t.into() }, vec![])];
    // c -> b -> a: created a, b, c.
    let ops = DiffEngine::new(
        vec![schema("c", link("b")), schema("b", link("a")), schema("a", vec![])],
        vec![],
    )
    .diff();
    let names: Vec<&str> = ops.iter().map(|o| o.table_name()).collect();
    assert_eq!(names, vec!["a", "b", "c"]);
    // x <-> y: a cycle keeps its declaration order, and every table is still created.
    let ops = DiffEngine::new(vec![schema("x", link("y")), schema("y", link("x"))], vec![]).diff();
    let names: Vec<&str> = ops.iter().map(|o| o.table_name()).collect();
    assert_eq!(names, vec!["x", "y"]);
}

#[test]
fn create_table_declares_each_column_once() {
    let ops = vec![MigrationOp::CreateTable {
        name: "posts".into(),
        columns: vec![
            field("id", FieldType::Integer, vec![]),
            field("title", FieldType::String, vec![]),
            field("created_at", FieldType::DateTime, vec![]),
            field("updated_at", FieldType::DateTime, vec![]),
        ],
    }];
    let (up, _) = generate_migration_sql(&ops);
    assert_eq!(
        up,
        "CREATE TABLE posts (\n    id TEXT PRIMARY KEY,\n    title TEXT,\n    created_at TEXT DEFAULT (datetime('now')),\n    updated_at TEXT DEFAULT (datetime('now'))\n);\n"
    );
}

#[test]
fn default_values_are_quoted_literals() {
    let ops = vec![MigrationOp::AlterTableAddColumn {
        table_name: "posts".into(),
        column: field("title", FieldType::String, vec![Constraint::Default("it's".into())]),
    }];
    let (up, _) = generate_migration_sql(&ops);
    assert_eq!(up, "ALTER TABLE posts ADD COLUMN title TEXT DEFAULT 'it''s';\n");
}

#[test]
fn migration_sql_concatenates_per_operation() {
    let a = vec![MigrationOp::DropTable { name: "a".into() }];
    let b = vec![MigrationOp::DropColumn { table_name: "b".into(), column_name: "c".into() }];
    let (ua, da) = generate_migration_sql(&a);
    let (ub, db) = generate_migration_sql(&b);
    let both = vec![a[0].clone(), b[0].clone()];
    assert_eq!(generate_migration_sql(&both), (ua + &ub, da + &db));
}
