//! The HTTP interface that the entity derive generates for an entity: the names of
//! the generated items, the paths and tags of its routes, which public routes exist
//! under its access policy, and the rules of its handlers.
use vstd::prelude::*;

use crate::admin::HttpMethod;
use crate::derive::{lowercase, to_lowercase};
use crate::entity::Pagination;
use crate::error::Error;
use crate::text::{concat2, str_eq};

verus! {

broadcast use vstd::string::group_string_axioms;

/// How the public routes of an entity may be used.
#[derive(Debug, Clone, Copy, PartialEq, Eq, Structural)]
pub enum PublicAccess {
    /// There are no public routes (`AdminOnly`).
    Closed,
    /// The public routes need an API key (`ApiKey`).
    ApiKey,
    /// The public routes are open (any other policy, or none).
    Open,
}

/// The public access that an entity's `auth_policy` text gives.
pub open spec fn public_access_for(policy: Option<Seq<char>>) -> PublicAccess {
    match policy {
        Some(p) => if p == "AdminOnly"@ {
            PublicAccess::Closed
        } else if p == "ApiKey"@ {
            PublicAccess::ApiKey
        } else {
            PublicAccess::Open
        },
        None => PublicAccess::Open,
    }
}

/// The public access of an entity (see [`public_access_for`]).
pub fn public_access(policy: Option<&str>) -> (r: PublicAccess)
    ensures
        r == public_access_for(
            match policy {
                Some(p) => Some(p@),
                None => None,
            },
        ),
{
    match policy {
        Some(p) => if str_eq(p, "AdminOnly") {
            PublicAccess::Closed
        } else if str_eq(p, "ApiKey") {
            PublicAccess::ApiKey
        } else {
            PublicAccess::Open
        },
        None => PublicAccess::Open,
    }
}

/// The paths, tags and access of an entity's routes.
pub struct RoutePlan {
    /// The admin collection path, `/admin/api/entities/<lower>`.
    pub admin_base: String,
    /// The admin record path, the collection path followed by `/{id}`.
    pub admin_item: String,
    /// The public collection path, `/api/v1/entities/<lower>`.
    pub public_base: String,
    /// The public record path, the collection path followed by `/{id}`.
    pub public_item: String,
    /// The documentation tag of the admin routes, `Admin <Name>`.
    pub admin_tag: String,
    /// The documentation tag of the public routes, `Public <Name>`.
    pub public_tag: String,
    /// How the public routes may be used.
    pub access: PublicAccess,
}

/// The routes of the entity `name` under the policy `policy`; `<lower>` stands for the
/// entity's name in lower case.
pub fn route_plan(name: &str, policy: Option<&str>) -> (r: RoutePlan)
    ensures
        r.admin_base@ == "/admin/api/entities/"@ + lowercase(name@),
        r.admin_item@ == "/admin/api/entities/"@ + lowercase(name@) + "/{id}"@,
        r.public_base@ == "/api/v1/entities/"@ + lowercase(name@),
        r.public_item@ == "/api/v1/entities/"@ + lowercase(name@) + "/{id}"@,
        r.admin_tag@ == "Admin "@ + name@,
        r.public_tag@ == "Public "@ + name@,
        r.access == public_access_for(
            match policy {
                Some(p) => Some(p@),
                None => None,
            },
        ),
{
    let lower = to_lowercase(name);
    let admin_base = concat2("/admin/api/entities/", lower.as_str());
    let admin_item = concat2(admin_base.as_str(), "/{id}");
    let public_base = concat2("/api/v1/entities/", lower.as_str());
    let public_item = concat2(public_base.as_str(), "/{id}");
    RoutePlan {
        admin_base,
        admin_item,
        public_base,
        public_item,
        admin_tag: concat2("Admin ", name),
        public_tag: concat2("Public ", name),
        access: public_access(policy),
    }
}

/// The router that mounts a route.
#[derive(Debug, Clone, Copy, PartialEq, Eq, Structural)]
pub enum RouterKind {
    /// `admin_router()`, mounted under `/admin/api/entities`.
    Admin,
    /// `public_router()`, mounted under `/api/v1/entities`.
    Public,
}

/// The handler that a route calls.
#[derive(Debug, Clone, Copy, PartialEq, Eq, Structural)]
pub enum Handler {
    List,
    Get,
    Create,
    Update,
    Delete,
}

/// The authentication extractor that a handler takes, if any.
#[derive(Debug, Clone, Copy, PartialEq, Eq, Structural)]
pub enum Guard {
    /// `RequireAdmin`: an admin session.
    Admin,
    /// `RequireApiKey`: an API key.
    ApiKey,
    /// No authentication extractor.
    Unguarded,
}

/// One generated route: the router that mounts it, its method and path, the module
/// and handler it calls, and the handler's authentication extractor.
pub struct Route {
    pub router: RouterKind,
    pub method: HttpMethod,
    pub path: String,
    pub module: String,
    pub handler: Handler,
    pub guard: Guard,
}

/// The mathematical value of a [`Route`].
pub struct RouteModel {
    pub router: RouterKind,
    pub method: HttpMethod,
    pub path: Seq<char>,
    pub module: Seq<char>,
    pub handler: Handler,
    pub guard: Guard,
}

impl View for Route {
    type V = RouteModel;

    open spec fn view(&self) -> RouteModel {
        RouteModel {
            router: self.router,
            method: self.method,
            path: self.path@,
            module: self.module@,
            handler: self.handler,
            guard: self.guard,
        }
    }
}

/// A route's value.
pub open spec fn route(
    router: RouterKind,
    method: HttpMethod,
    path: Seq<char>,
    module: Seq<char>,
    handler: Handler,
    guard: Guard,
) -> RouteModel {
    RouteModel { router, method, path, module, handler, guard }
}

/// The routes generated for the entity `name` under the policy `policy`, in order.
/// The admin router mounts, for every policy, the collection path (`GET` lists, `POST`
/// creates) and the record path (`GET`, `PUT`, `DELETE`) of `<lower>_admin_api`; its
/// list handler takes `RequireAdmin`, the others no extractor. The public router
/// mounts nothing under `AdminOnly`; otherwise `GET` on the collection path lists and
/// `GET` on the record path reads, through `<lower>_public_api`, both taking
/// `RequireApiKey` under `ApiKey` and no extractor otherwise.
pub open spec fn route_table_spec(name: Seq<char>, policy: Option<Seq<char>>) -> Seq<RouteModel> {
    let lower = lowercase(name);
    let admin_base = "/admin/api/entities/"@ + lower;
    let admin_item = admin_base + "/{id}"@;
    let public_base = "/api/v1/entities/"@ + lower;
    let public_item = public_base + "/{id}"@;
    let admin_mod = lower + "_admin_api"@;
    let public_mod = lower + "_public_api"@;
    let access = public_access_for(policy);
    let guard = if access == PublicAccess::ApiKey {
        Guard::ApiKey
    } else {
        Guard::Unguarded
    };
    seq![
        route(RouterKind::Admin, HttpMethod::Get, admin_base, admin_mod, Handler::List, Guard::Admin),
        route(RouterKind::Admin, HttpMethod::Post, admin_base, admin_mod, Handler::Create, Guard::Unguarded),
        route(RouterKind::Admin, HttpMethod::Get, admin_item, admin_mod, Handler::Get, Guard::Unguarded),
        route(RouterKind::Admin, HttpMethod::Put, admin_item, admin_mod, Handler::Update, Guard::Unguarded),
        route(RouterKind::Admin, HttpMethod::Delete, admin_item, admin_mod, Handler::Delete, Guard::Unguarded),
    ] + if access == PublicAccess::Closed {
        seq![]
    } else {
        seq![
            route(RouterKind::Public, HttpMethod::Get, public_base, public_mod, Handler::List, guard),
            route(RouterKind::Public, HttpMethod::Get, public_item, public_mod, Handler::Get, guard),
        ]
    }
}

fn make_route(
    router: RouterKind,
    method: HttpMethod,
    path: &String,
    module: &String,
    handler: Handler,
    guard: Guard,
) -> (r: Route)
    ensures
        r@ == route(router, method, path@, module@, handler, guard),
{
    Route { router, method, path: path.clone(), module: module.clone(), handler, guard }
}

/// The routes generated for an entity (see [`route_table_spec`]).
pub fn route_table(name: &str, policy: Option<&str>) -> (r: Vec<Route>)
    ensures
        r@.map_values(|x: Route| x@) == route_table_spec(
            name@,
            match policy {
                Some(p) => Some(p@),
                None => None,
            },
        ),
{
    let lower = to_lowercase(name);
    let admin_base = concat2("/admin/api/entities/", lower.as_str());
    let admin_item = concat2(admin_base.as_str(), "/{id}");
    let public_base = concat2("/api/v1/entities/", lower.as_str());
    let public_item = concat2(public_base.as_str(), "/{id}");
    let admin_mod = concat2(lower.as_str(), "_admin_api");
    let public_mod = concat2(lower.as_str(), "_public_api");
    let access = public_access(policy);
    let guard = if access == PublicAccess::ApiKey {
        Guard::ApiKey
    } else {
        Guard::Unguarded
    };
    let mut r: Vec<Route> = Vec::new();
    r.push(make_route(RouterKind::Admin, HttpMethod::Get, &admin_base, &admin_mod, Handler::List, Guard::Admin));
    r.push(make_route(RouterKind::Admin, HttpMethod::Post, &admin_base, &admin_mod, Handler::Create, Guard::Unguarded));
    r.push(make_route(RouterKind::Admin, HttpMethod::Get, &admin_item, &admin_mod, Handler::Get, Guard::Unguarded));
    r.push(make_route(RouterKind::Admin, HttpMethod::Put, &admin_item, &admin_mod, Handler::Update, Guard::Unguarded));
    r.push(make_route(RouterKind::Admin, HttpMethod::Delete, &admin_item, &admin_mod, Handler::Delete, Guard::Unguarded));
    if access != PublicAccess::Closed {
        r.push(make_route(RouterKind::Public, HttpMethod::Get, &public_base, &public_mod, Handler::List, guard));
        r.push(make_route(RouterKind::Public, HttpMethod::Get, &public_item, &public_mod, Handler::Get, guard));
    }
    let ghost spec = route_table_spec(
        name@,
        match policy {
            Some(p) => Some(p@),
            None => None,
        },
    );
    assert(r@.map_values(|x: Route| x@) =~= spec);
    r
}

/// The names of the items generated for an entity.
pub struct GeneratedNames {
    /// The copy without hidden fields, `<Name>Public`.
    pub public_struct: String,
    /// The copy with every field, `<Name>Admin`.
    pub admin_struct: String,
    /// The module of the admin handlers, `<lower>_admin_api`.
    pub admin_module: String,
    /// The module of the public handlers, `<lower>_public_api`.
    pub public_module: String,
    /// The module of the API documentation, `<lower>_openapi_inner`.
    pub openapi_module: String,
    /// The API documentation, `<Name>Api`.
    pub api_doc: String,
    /// The module that holds the two copies, `__brom_hygiene_<lower>`.
    pub hygiene_module: String,
}

/// The names of the items generated for the entity `name`.
pub fn generated_names(name: &str) -> (r: GeneratedNames)
    ensures
        r.public_struct@ == name@ + "Public"@,
        r.admin_struct@ == name@ + "Admin"@,
        r.admin_module@ == lowercase(name@) + "_admin_api"@,
        r.public_module@ == lowercase(name@) + "_public_api"@,
        r.openapi_module@ == lowercase(name@) + "_openapi_inner"@,
        r.api_doc@ == name@ + "Api"@,
        r.hygiene_module@ == "__brom_hygiene_"@ + lowercase(name@),
{
    let lower = to_lowercase(name);
    GeneratedNames {
        public_struct: concat2(name, "Public"),
        admin_struct: concat2(name, "Admin"),
        admin_module: concat2(lower.as_str(), "_admin_api"),
        public_module: concat2(lower.as_str(), "_public_api"),
        openapi_module: concat2(lower.as_str(), "_openapi_inner"),
        api_doc: concat2(name, "Api"),
        hygiene_module: concat2("__brom_hygiene_", lower.as_str()),
    }
}

/// The page that a list request asks for: page 1 and 25 items per page unless the
/// query says otherwise.
pub fn requested_page(page: Option<u64>, per_page: Option<u64>) -> (p: Pagination)
    ensures
        p.page == match page {
            Some(n) => n,
            None => 1,
        },
        p.per_page == match per_page {
            Some(n) => n,
            None => 25,
        },
{
    let page = match page {
        Some(n) => n,
        None => 1,
    };
    let per_page = match per_page {
        Some(n) => n,
        None => 25,
    };
    Pagination::new(page, per_page)
}

/// `a / b` rounded toward zero, as Rust divides integers.
pub open spec fn div_toward_zero(a: int, b: int) -> int {
    let q = (if a >= 0 {
        a
    } else {
        -a
    }) / (if b >= 0 {
        b
    } else {
        -b
    });
    if (a >= 0) == (b > 0) {
        q
    } else {
        -q
    }
}

/// The number of items per page as a list response counts it: the low 32 bits of
/// `per_page` read as a signed number.
pub open spec fn page_size(per_page: u64) -> int {
    (per_page as i32) as int
}

/// The number of pages of a list response: `(total + size - 1) / size`, rounded
/// toward zero, for the page size of [`page_size`]. A zero page size divides by zero,
/// a sum that does not fit in an `i64` overflows, and so does dividing `i64::MIN` by
/// -1; these are left out.
pub fn total_pages(total_items: i64, per_page: u64) -> (r: i64)
    requires
        page_size(per_page) != 0,
        i64::MIN <= total_items + page_size(per_page) <= i64::MAX,
        i64::MIN <= total_items + page_size(per_page) - 1,
        !(total_items + page_size(per_page) - 1 == i64::MIN && page_size(per_page) == -1),
    ensures
        r == div_toward_zero(total_items + page_size(per_page) - 1, page_size(per_page)),
{
    let size: i64 = (per_page as i32) as i64;
    let a: i64 = total_items + size - 1;
    let ua: u64 = if a >= 0 {
        a as u64
    } else if a == i64::MIN {
        9223372036854775808u64
    } else {
        (-a) as u64
    };
    let ub: u64 = if size >= 0 {
        size as u64
    } else {
        (-size) as u64
    };
    let q: u64 = ua / ub;
    assert(q <= ua);
    if (a >= 0) == (size > 0) {
        assert(q <= 9223372036854775807u64) by {
            if a == i64::MIN {
                assert(ub >= 2);
                assert(q <= ua / 2) by (nonlinear_arith)
                    requires
                        ub >= 2,
                        q == ua / ub,
                ;
            }
        }
        q as i64
    } else {
        assert(q <= 9223372036854775808u64);
        if q == 9223372036854775808u64 {
            i64::MIN
        } else {
            -(q as i64)
        }
    }
}

/// A looked-up record, or `NotFound` for the entity and id that were asked for.
pub fn found_or_not_found<T>(item: Option<T>, entity: &'static str, id: i64) -> (r: Result<
    T,
    Error,
>)
    ensures
        item matches Some(x) ==> r == Ok::<T, Error>(x),
        item is None ==> (r matches Err(Error::NotFound { entity: e, id: i }) && e@ == entity@
            && i == id),
{
    match item {
        Some(x) => Ok(x),
        None => Err(Error::NotFound { entity, id }),
    }
}

} // verus!
