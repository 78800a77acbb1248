use brom::attrs::{InnerItem, InnerValue};
use brom::derive::{expand_entity, DeclShape, DeriveError};
use brom::attrs::{
    AttrErrorKind, Attribute, BromFieldAttrs, BromStructAttrs, MetaItem, MetaValue,
};
use brom::config::AppConfig;
use brom::derive::{entity_schema, field_info, map_type_to_field_type, policy_of, FieldDecl};
use brom::entity::{AuthPolicy, Constraint, FieldType, SchemaInfo};

fn flag(name: &str) -> MetaItem {
    MetaItem { name: name.to_string(), value: MetaValue::Absent }
}

fn text(name: &str, v: &str) -> MetaItem {
    MetaItem { name: name.to_string(), value: MetaValue::Text(v.to_string()) }
}

fn brom(items: Vec<MetaItem>) -> Attribute {
    Attribute { path: "brom".to_string(), items }
}

fn decl(name: &str, ty: &str, attrs: Vec<Attribute>) -> FieldDecl {
    FieldDecl { name: name.to_string(), ty_name: ty.to_string(), attrs }
}

fn schema(name: &str, attrs: Vec<Attribute>, fields: Vec<FieldDecl>) -> SchemaInfo {
    match entity_schema(name, &attrs, &fields) {
        Ok(s) => s,
        Err(e) => panic!("unexpected errors: {}", e.len()),
    }
}

#[test]
fn snapshot_basic_struct() {
    let s = schema(
        "Post",
        vec![],
        vec![
            decl("title", "String", vec![]),
            decl("body", "String", vec![]),
            decl("published", "bool", vec![]),
        ],
    );
    assert_eq!(s.table_name, "post");
    assert_eq!(s.auth_policy, AuthPolicy::Public);
    let names: Vec<&str> = s.fields.iter().map(|f| f.name.as_str()).collect();
    assert_eq!(names, vec!["title", "body", "published"]);
    assert!(matches!(s.fields[0].field_type, FieldType::String));
    assert!(matches!(s.fields[2].field_type, FieldType::Boolean));
    assert!(s.fields.iter().all(|f| f.constraints.is_empty() && !f.hidden && f.ui_widget.is_none()));
}

#[test]
fn snapshot_custom_table_name() {
    let s = schema("Post", vec![brom(vec![text("table", "blog_posts")])], vec![decl("title", "String", vec![])]);
    assert_eq!(s.table_name, "blog_posts");
    assert_eq!(s.fields.len(), 1);
}

#[test]
fn snapshot_field_constraints() {
    let s = schema(
        "User",
        vec![],
        vec![
            decl("email", "String", vec![brom(vec![flag("unique")])]),
            decl("display_name", "String", vec![brom(vec![flag("not_null"), text("default", "Anonymous")])]),
            decl("password_hash", "String", vec![brom(vec![flag("hidden")])]),
        ],
    );
    assert_eq!(s.table_name, "user");
    assert!(matches!(s.fields[0].constraints.as_slice(), [Constraint::Unique]));
    match s.fields[1].constraints.as_slice() {
        [Constraint::NotNull, Constraint::Default(d)] => assert_eq!(d, "Anonymous"),
        other => panic!("unexpected {other:?}"),
    }
    assert!(s.fields[2].hidden);
    assert!(!s.fields[0].hidden);
}

#[test]
fn snapshot_link_relationship() {
    let s = schema(
        "Comment",
        vec![],
        vec![decl("body", "String", vec![]), decl("post_id", "i64", vec![brom(vec![text("link", "post")])])],
    );
    match &s.fields[1].field_type {
        FieldType::Link { target } => assert_eq!(target, "post"),
        other => panic!("unexpected {other:?}"),
    }
}

#[test]
fn snapshot_many_to_many_relationship() {
    let s = schema(
        "Article",
        vec![],
        vec![
            decl("title", "String", vec![]),
            decl("tags", "String", vec![brom(vec![text("many_many", "tag"), text("junction", "article_tag")])]),
        ],
    );
    match &s.fields[1].field_type {
        FieldType::ManyToMany { target, junction_table } => {
            assert_eq!(target, "tag");
            assert_eq!(junction_table, "article_tag");
        }
        other => panic!("unexpected {other:?}"),
    }
}

#[test]
fn bad_attributes_are_all_reported() {
    let attrs = vec![brom(vec![text("unknown_struct_attr", "oops")])];
    let fields = vec![
        decl("field", "String", vec![brom(vec![flag("invalid_field_attr")])]),
        decl("bad_type", "String", vec![brom(vec![MetaItem { name: "table".into(), value: MetaValue::Other }])]),
    ];
    let errs = entity_schema("Broken", &attrs, &fields).err().unwrap();
    let got: Vec<(&str, AttrErrorKind)> = errs.iter().map(|e| (e.name.as_str(), e.kind)).collect();
    assert_eq!(
        got,
        vec![
            ("unknown_struct_attr", AttrErrorKind::Unrecognized),
            ("invalid_field_attr", AttrErrorKind::Unrecognized),
            ("table", AttrErrorKind::Unrecognized),
        ]
    );
    assert_eq!(errs[0].message(), "unrecognized brom attribute");
}

#[test]
fn attribute_parsing_rules() {
    // Later items override earlier ones; other attributes are ignored.
    let attrs = vec![
        Attribute { path: "serde".into(), items: vec![flag("rename_all")] },
        brom(vec![text("table", "a"), text("auth_policy", "ApiKey")]),
        brom(vec![text("table", "b")]),
    ];
    let a = BromStructAttrs::parse(&attrs).ok().unwrap();
    assert_eq!(a.table_name.as_deref(), Some("b"));
    assert_eq!(a.auth_policy.as_deref(), Some("ApiKey"));
    // A valued name without a value, a flag with one, a non-string value.
    let errs = BromFieldAttrs::parse(&vec![
        brom(vec![flag("default"), flag("unique")]),
        brom(vec![text("hidden", "yes")]),
        brom(vec![flag("unique"), MetaItem { name: "widget".into(), value: MetaValue::Other }]),
    ])
    .err()
    .unwrap();
    let kinds: Vec<AttrErrorKind> = errs.iter().map(|e| e.kind).collect();
    assert_eq!(
        kinds,
        vec![AttrErrorKind::MissingValue, AttrErrorKind::UnexpectedValue, AttrErrorKind::NotAString]
    );
    assert_eq!(errs[0].message(), "expected `=`");
    let f = BromFieldAttrs::parse(&vec![brom(vec![flag("unique"), text("widget", "textarea")])]).ok().unwrap();
    assert!(f.unique && !f.not_null && !f.hidden);
    assert_eq!(f.ui_widget.as_deref(), Some("textarea"));
}

#[test]
fn type_mapping_and_policies() {
    let none = BromFieldAttrs::parse(&vec![]).ok().unwrap();
    assert!(matches!(map_type_to_field_type("u32", &none), FieldType::Integer));
    assert!(matches!(map_type_to_field_type("f64", &none), FieldType::Float));
    assert!(matches!(map_type_to_field_type("NaiveDate", &none), FieldType::DateTime));
    assert!(matches!(map_type_to_field_type("Option", &none), FieldType::String));
    let link = BromFieldAttrs::parse(&vec![brom(vec![text("link", "users"), text("many_many", "tags")])]).ok().unwrap();
    match map_type_to_field_type("i64", &link) {
        FieldType::ManyToMany { target, junction_table } => {
            assert_eq!(target, "tags");
            assert_eq!(junction_table, "");
        }
        other => panic!("unexpected {other:?}"),
    }
    let f = field_info("n", "i32", &none);
    assert!(matches!(f.field_type, FieldType::Integer));
    assert_eq!(policy_of(&Some("AdminOnly".into())), AuthPolicy::AdminOnly);
    assert_eq!(policy_of(&Some("ApiKey".into())), AuthPolicy::ApiKey);
    assert_eq!(policy_of(&Some("adminonly".into())), AuthPolicy::Public);
    assert_eq!(policy_of(&None), AuthPolicy::Public);
    let s = schema("BlogPost", vec![brom(vec![text("auth_policy", "AdminOnly")])], vec![]);
    assert_eq!(s.table_name, "blogpost");
    assert_eq!(s.auth_policy, AuthPolicy::AdminOnly);
}

#[test]
fn config_defaults_database_path() {
    assert_eq!(AppConfig::from_database_url(None).db_path, "brom.db");
    assert_eq!(AppConfig::from_database_url(Some("x.db".into())).db_path, "x.db");
}

#[test]
fn ui_group_sets_the_widget() {
    let ui = |items: Vec<InnerItem>| MetaItem { name: "ui".into(), value: MetaValue::List(items) };
    let inner = |n: &str, v: InnerValue| InnerItem { name: n.into(), value: v };
    let f = BromFieldAttrs::parse(&vec![brom(vec![ui(vec![inner("widget", InnerValue::Text("markdown".into()))])])])
        .ok()
        .unwrap();
    assert_eq!(f.ui_widget.as_deref(), Some("markdown"));
    assert!(!f.unique && !f.not_null && !f.hidden);
    assert!(f.default.is_none() && f.link_target.is_none() && f.many_many_target.is_none());
    let errs = BromFieldAttrs::parse(&vec![
        brom(vec![ui(vec![inner("color", InnerValue::Text("red".into()))])]),
        brom(vec![flag("ui")]),
        brom(vec![ui(vec![inner("widget", InnerValue::Other)])]),
    ])
    .err()
    .unwrap();
    let got: Vec<(&str, AttrErrorKind)> = errs.iter().map(|e| (e.name.as_str(), e.kind)).collect();
    assert_eq!(
        got,
        vec![
            ("color", AttrErrorKind::Unrecognized),
            ("ui", AttrErrorKind::ExpectedList),
            ("widget", AttrErrorKind::NotAString),
        ]
    );
    assert_eq!(errs[1].message(), "expected parentheses");
}

#[test]
fn expansion_splits_public_and_admin_copies() {
    let fields = vec![
        decl("email", "String", vec![]),
        decl("password_hash", "String", vec![brom(vec![flag("hidden")])]),
        decl("name", "String", vec![]),
    ];
    let x = match expand_entity("User", DeclShape::NamedStruct, &vec![], &fields) {
        Ok(x) => x,
        Err(_) => panic!("expected an expansion"),
    };
    assert_eq!(x.public_fields, vec!["email", "name"]);
    assert_eq!(x.admin_fields, vec!["email", "password_hash", "name"]);
    assert_eq!(x.schema.fields.len(), 3);
    assert!(x.schema.fields[1].hidden);
    match expand_entity("User", DeclShape::Other, &vec![], &fields) {
        Err(DeriveError::Shape(m)) => {
            assert_eq!(m, "BromEntity can only be derived on structs with named fields")
        }
        _ => panic!("expected a shape error"),
    }
}
