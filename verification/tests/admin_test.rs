use brom::admin::{link_choice_value, ChoiceValue};
use brom::text::parse_i64;
use brom::admin::{
    breadcrumbs, cell_text, collection_href, dashboard_stats, edit_href, editable_fields,
    editor_title, http_method, login_failure_message, nav_active, new_key_request,
    new_record_href, option_label, revoke_key_url, save_request, table_footer, visible_columns,
    widget_for, HttpMethod, Widget,
};
use brom::entity::{AuthPolicy, FieldInfo, FieldType, SchemaInfo};

fn field(name: &str, field_type: FieldType, ui_widget: Option<&str>, hidden: bool) -> FieldInfo {
    FieldInfo {
        name: name.to_string(),
        field_type,
        constraints: vec![],
        ui_widget: ui_widget.map(|s| s.to_string()),
        hidden,
    }
}

fn crumbs(path: &str) -> Vec<(String, String)> {
    breadcrumbs(path).into_iter().map(|c| (c.label, c.href)).collect()
}

fn pair(a: &str, b: &str) -> (String, String) {
    (a.to_string(), b.to_string())
}

#[test]
fn breadcrumbs_follow_the_path() {
    assert_eq!(crumbs("/admin"), vec![pair("Dashboard", "/admin")]);
    assert_eq!(
        crumbs("/admin/collection/blog-posts"),
        vec![
            pair("Dashboard", "/admin"),
            pair("Collection", "/admin/collection"),
            pair("Blog Posts", "/admin/collection/blog-posts"),
        ]
    );
    assert_eq!(
        crumbs("//admin//api_keys/"),
        vec![pair("Dashboard", "/admin"), pair("Api Keys", "/admin/api_keys")]
    );
    assert_eq!(crumbs("/admin/x--y"), vec![pair("Dashboard", "/admin"), pair("X Y", "/admin/x--y")]);
    assert_eq!(crumbs("/admin/élan"), vec![pair("Dashboard", "/admin"), pair("Élan", "/admin/élan")]);
}

#[test]
fn widgets_of_fields() {
    assert!(matches!(widget_for(&field("a", FieldType::Boolean, Some("textarea"), false)), Widget::Checkbox));
    assert!(matches!(widget_for(&field("b", FieldType::String, Some("textarea"), false)), Widget::Textarea));
    match widget_for(&field("c", FieldType::Link { target: "users".into() }, None, false)) {
        Widget::LinkSelect { target } => assert_eq!(target, "users"),
        other => panic!("unexpected {other:?}"),
    }
    let input = |t: FieldType| match widget_for(&field("d", t, None, false)) {
        Widget::Input { input_type } => input_type,
        other => panic!("unexpected {other:?}"),
    };
    assert_eq!(input(FieldType::Integer), "number");
    assert_eq!(input(FieldType::Float), "number");
    assert_eq!(input(FieldType::DateTime), "datetime-local");
    assert_eq!(input(FieldType::String), "text");
}

#[test]
fn editor_and_collection_pages() {
    let fields = vec![
        field("id", FieldType::Integer, None, false),
        field("title", FieldType::String, None, false),
        field("secret", FieldType::String, None, true),
    ];
    let names: Vec<String> = editable_fields(&fields).into_iter().map(|f| f.name).collect();
    assert_eq!(names, vec!["title"]);
    assert_eq!(visible_columns(&fields), vec!["id", "title"]);
    assert_eq!(editor_title("posts", "new"), "Create New posts");
    assert_eq!(editor_title("posts", "7"), "Edit posts");
    assert_eq!(save_request("posts", "new"), ("POST".to_string(), "/api/v1/posts".to_string()));
    assert_eq!(save_request("posts", "7"), ("PUT".to_string(), "/api/v1/posts/7".to_string()));
    assert_eq!(collection_href("posts"), "/admin/collection/posts");
    assert_eq!(new_record_href("posts"), "/admin/posts/new");
    assert_eq!(edit_href("posts", &vec!["3".to_string(), "x".to_string()]), "/admin/collection/posts/3");
    assert_eq!(edit_href("posts", &vec![]), "#");
    assert_eq!(cell_text("\"hello\""), "hello");
    assert_eq!(cell_text("42"), "42");
    assert_eq!(table_footer(3, None), "1–3 of 3 items");
    assert_eq!(table_footer(3, Some(120)), "1–3 of 120 items");
    assert!(nav_active("/admin/collection/posts/3", "/admin/collection/posts"));
    assert!(!nav_active("/admin", "/admin/api-keys"));
}

#[test]
fn dashboard_and_requests() {
    let s = |n: &str, k: usize| SchemaInfo {
        table_name: n.to_string(),
        fields: (0..k).map(|i| field(&format!("f{i}"), FieldType::String, None, false)).collect(),
        auth_policy: AuthPolicy::Public,
    };
    assert_eq!(dashboard_stats(&vec![s("a", 2), s("b", 3)]), (2, 5));
    assert_eq!(dashboard_stats(&vec![]), (0, 0));
    assert_eq!(http_method("PUT"), Ok(HttpMethod::Put));
    assert_eq!(http_method("get"), Err("Unsupported method: get".to_string()));
    assert_eq!(option_label("5", Some(Some("Alice")), Some(Some("T"))), "Alice");
    assert_eq!(option_label("5", None, Some(Some("T"))), "T");
    assert_eq!(option_label("5", Some(None), Some(Some("T"))), "5");
    assert_eq!(option_label("5", None, None), "5");
    assert_eq!(new_key_request(""), None);
    assert_eq!(new_key_request("CI"), Some(("CI".to_string(), "read_write".to_string())));
    assert_eq!(revoke_key_url("ab12cd34"), "/admin/api/keys/ab12cd34");
    assert_eq!(login_failure_message(401), "Login failed: 401");
}

#[test]
fn integers_parse_as_std_does() {
    for s in ["0", "42", "-7", "+8", "007", "9223372036854775807", "-9223372036854775808", "", "-", "+", "1a", " 1", "9223372036854775808", "-9223372036854775809", "99999999999999999999999"] {
        assert_eq!(parse_i64(s), s.parse::<i64>().ok(), "{s}");
    }
    assert_eq!(link_choice_value("12"), ChoiceValue::Number(12));
    assert_eq!(link_choice_value("abc"), ChoiceValue::Text("abc".to_string()));
}
