use brom::error::Error;
use brom::routes::{
    found_or_not_found, generated_names, public_access, requested_page, route_plan, total_pages,
    PublicAccess,
};

#[test]
fn route_paths_and_tags() {
    let r = route_plan("BlogPost", Some("ApiKey"));
    assert_eq!(r.admin_base, "/admin/api/entities/blogpost");
    assert_eq!(r.admin_item, "/admin/api/entities/blogpost/{id}");
    assert_eq!(r.public_base, "/api/v1/entities/blogpost");
    assert_eq!(r.public_item, "/api/v1/entities/blogpost/{id}");
    assert_eq!(r.admin_tag, "Admin BlogPost");
    assert_eq!(r.public_tag, "Public BlogPost");
    assert_eq!(r.access, PublicAccess::ApiKey);
}

#[test]
fn public_access_by_policy() {
    assert_eq!(public_access(Some("AdminOnly")), PublicAccess::Closed);
    assert_eq!(public_access(Some("ApiKey")), PublicAccess::ApiKey);
    assert_eq!(public_access(Some("Public")), PublicAccess::Open);
    assert_eq!(public_access(None), PublicAccess::Open);
}

#[test]
fn generated_item_names() {
    let n = generated_names("Post");
    assert_eq!(n.public_struct, "PostPublic");
    assert_eq!(n.admin_struct, "PostAdmin");
    assert_eq!(n.admin_module, "post_admin_api");
    assert_eq!(n.public_module, "post_public_api");
    assert_eq!(n.openapi_module, "post_openapi_inner");
    assert_eq!(n.api_doc, "PostApi");
    assert_eq!(n.hygiene_module, "__brom_hygiene_post");
}

#[test]
fn list_requests_and_page_counts() {
    let p = requested_page(None, None);
    assert_eq!((p.page, p.per_page), (1, 25));
    let p = requested_page(Some(4), Some(10));
    assert_eq!((p.page, p.per_page), (4, 10));
    assert_eq!(total_pages(0, 25), 0);
    assert_eq!(total_pages(1, 25), 1);
    assert_eq!(total_pages(25, 25), 1);
    assert_eq!(total_pages(26, 25), 2);
    // The page size is the low 32 bits of `per_page`, read as signed.
    assert_eq!(total_pages(10, (1u64 << 32) + 5), 2);
    assert_eq!(total_pages(10, 0xFFFF_FFFF), -8);
}

#[test]
fn missing_records_are_not_found() {
    assert_eq!(found_or_not_found(Some(3), "post", 1).unwrap(), 3);
    match found_or_not_found::<i32>(None, "post", 9) {
        Err(Error::NotFound { entity, id }) => assert_eq!((entity, id), ("post", 9)),
        other => panic!("unexpected {other:?}"),
    }
}

fn table(name: &str, policy: Option<&str>) -> Vec<(String, String, String, String, String)> {
    brom::routes::route_table(name, policy)
        .into_iter()
        .map(|r| {
            (
                format!("{:?}", r.router),
                format!("{:?}", r.method),
                r.path,
                format!("{}::{:?}", r.module, r.handler),
                format!("{:?}", r.guard),
            )
        })
        .collect()
}

fn row(a: &str, b: &str, c: &str, d: &str, e: &str) -> (String, String, String, String, String) {
    (a.into(), b.into(), c.into(), d.into(), e.into())
}

#[test]
fn route_table_by_policy() {
    let admin = vec![
        row("Admin", "Get", "/admin/api/entities/post", "post_admin_api::List", "Admin"),
        row("Admin", "Post", "/admin/api/entities/post", "post_admin_api::Create", "Unguarded"),
        row("Admin", "Get", "/admin/api/entities/post/{id}", "post_admin_api::Get", "Unguarded"),
        row("Admin", "Put", "/admin/api/entities/post/{id}", "post_admin_api::Update", "Unguarded"),
        row("Admin", "Delete", "/admin/api/entities/post/{id}", "post_admin_api::Delete", "Unguarded"),
    ];
    assert_eq!(table("Post", Some("AdminOnly")), admin);
    let mut keyed = admin.clone();
    keyed.push(row("Public", "Get", "/api/v1/entities/post", "post_public_api::List", "ApiKey"));
    keyed.push(row("Public", "Get", "/api/v1/entities/post/{id}", "post_public_api::Get", "ApiKey"));
    assert_eq!(table("Post", Some("ApiKey")), keyed);
    let mut open = admin.clone();
    open.push(row("Public", "Get", "/api/v1/entities/post", "post_public_api::List", "Unguarded"));
    open.push(row("Public", "Get", "/api/v1/entities/post/{id}", "post_public_api::Get", "Unguarded"));
    assert_eq!(table("Post", None), open);
}
