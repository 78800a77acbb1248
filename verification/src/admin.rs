//! The decisions of the admin interface: breadcrumbs, the editing widget of each
//! field, the columns of a collection, the addresses and requests of its pages, and
//! its small texts.
use vstd::prelude::*;

use crate::entity::{FieldInfo, FieldInfoModel, FieldType, FieldTypeModel, SchemaInfo, fields_model};
use crate::migration::{is_white_space, white_space};
use crate::sql::{join_strings, join_with};
use crate::text::{chars_of, concat2, decimal_nat, parse_i64, parsed_i64, push_char, str_eq, u64_to_decimal};

verus! {

broadcast use vstd::string::group_string_axioms;

// ---------------------------------------------------------------------------
// Splitting text into runs
// ---------------------------------------------------------------------------

/// Whether `c` separates runs: `/` in a path, white space in a label.
pub open spec fn is_sep(c: char, slash: bool) -> bool {
    if slash {
        c == '/'
    } else {
        is_white_space(c)
    }
}

/// The runs finished so far and the run being read, after reading `s`.
pub open spec fn runs_acc(s: Seq<char>, slash: bool) -> (Seq<Seq<char>>, Seq<char>)
    decreases s.len(),
{
    if s.len() == 0 {
        (seq![], seq![])
    } else {
        let (d, cur) = runs_acc(s.drop_last(), slash);
        if is_sep(s.last(), slash) {
            if cur.len() > 0 {
                (d.push(cur), seq![])
            } else {
                (d, seq![])
            }
        } else {
            (d, cur.push(s.last()))
        }
    }
}

/// The maximal non-empty runs of `s` between separators, in order.
pub open spec fn runs(s: Seq<char>, slash: bool) -> Seq<Seq<char>> {
    let (d, cur) = runs_acc(s, slash);
    if cur.len() > 0 {
        d.push(cur)
    } else {
        d
    }
}

/// The values of a vector of character vectors.
pub open spec fn vecs_model(v: Seq<Vec<char>>) -> Seq<Seq<char>> {
    v.map_values(|w: Vec<char>| w@)
}

fn is_separator(c: char, slash: bool) -> (b: bool)
    ensures
        b == is_sep(c, slash),
{
    if slash {
        c == '/'
    } else {
        white_space(c)
    }
}

/// Splits `cs` into its runs (see [`runs`]).
fn split_runs(cs: &Vec<char>, slash: bool) -> (r: Vec<Vec<char>>)
    ensures
        vecs_model(r@) == runs(cs@, slash),
{
    let mut d: Vec<Vec<char>> = Vec::new();
    let mut cur: Vec<char> = Vec::new();
    for i in 0..cs.len()
        invariant
            (vecs_model(d@), cur@) == runs_acc(cs@.take(i as int), slash),
    {
        let c = cs[i];
        assert(cs@.take(i + 1).drop_last() == cs@.take(i as int));
        assert(cs@.take(i + 1).last() == c);
        let ghost d0 = d@;
        if is_separator(c, slash) {
            if cur.len() > 0 {
                let mut done: Vec<char> = Vec::new();
                std::mem::swap(&mut done, &mut cur);
                let ghost w = done@;
                d.push(done);
                assert(vecs_model(d@) =~= vecs_model(d0).push(w));
            }
        } else {
            cur.push(c);
        }
    }
    assert(cs@.take(cs.len() as int) == cs@);
    if cur.len() > 0 {
        let ghost d0 = d@;
        let ghost w = cur@;
        d.push(cur);
        assert(vecs_model(d@) =~= vecs_model(d0).push(w));
    }
    d
}

// ---------------------------------------------------------------------------
// Breadcrumbs
// ---------------------------------------------------------------------------

/// What `char::to_uppercase` gives for `c`.
pub uninterp spec fn uppercase_of(c: char) -> Seq<char>;

/// `char::to_uppercase`, collected into a string. Its result, by the Unicode rules of
/// std, is named.
#[verifier::external_body]
fn char_to_uppercase(c: char) -> (r: String)
    ensures
        r@ == uppercase_of(c),
{
    c.to_uppercase().collect()
}

/// A word with its first character in upper case.
pub open spec fn capitalized(w: Seq<char>) -> Seq<char> {
    if w.len() == 0 {
        w
    } else {
        uppercase_of(w[0]) + w.skip(1)
    }
}

/// `s` with `-` and `_` read as spaces.
pub open spec fn dashes_as_spaces(s: Seq<char>) -> Seq<char> {
    s.map_values(|c: char| if c == '-' || c == '_' { ' ' } else { c })
}

/// The label of a path segment: its words (dashes and underscores separate words
/// too), each capitalized, joined by single spaces.
pub open spec fn segment_label(seg: Seq<char>) -> Seq<char> {
    join_with(runs(dashes_as_spaces(seg), false).map_values(|w: Seq<char>| capitalized(w)), " "@)
}

/// The segments of a path that breadcrumbs show: its non-empty parts between `/`,
/// without `admin`.
pub open spec fn crumb_segments(segs: Seq<Seq<char>>) -> Seq<Seq<char>>
    decreases segs.len(),
{
    if segs.len() == 0 {
        seq![]
    } else if segs.last() == "admin"@ {
        crumb_segments(segs.drop_last())
    } else {
        crumb_segments(segs.drop_last()).push(segs.last())
    }
}

/// The address of the crumb after the first `n` segments.
pub open spec fn crumb_href(segs: Seq<Seq<char>>, n: int) -> Seq<char>
    decreases n,
{
    if n <= 0 {
        "/admin"@
    } else {
        crumb_href(segs, n - 1) + "/"@ + segs[n - 1]
    }
}

/// The breadcrumbs of a path, as (label, address) pairs: `Dashboard` at `/admin`,
/// then one crumb per shown segment, addressed by the path up to it.
pub open spec fn breadcrumbs_of(path: Seq<char>) -> Seq<(Seq<char>, Seq<char>)> {
    let segs = crumb_segments(runs(path, true));
    Seq::new(
        segs.len() + 1,
        |i: int|
            if i == 0 {
                ("Dashboard"@, "/admin"@)
            } else {
                (segment_label(segs[i - 1]), crumb_href(segs, i))
            },
    )
}

/// One breadcrumb.
pub struct Crumb {
    pub label: String,
    pub href: String,
}

/// The (label, address) pairs of breadcrumbs.
pub open spec fn crumbs_model(s: Seq<Crumb>) -> Seq<(Seq<char>, Seq<char>)> {
    s.map_values(|c: Crumb| (c.label@, c.href@))
}

fn capitalize(w: &Vec<char>) -> (r: String)
    ensures
        r@ == capitalized(w@),
{
    if w.len() == 0 {
        return String::new();
    }
    let mut r = char_to_uppercase(w[0]);
    for k in 1..w.len()
        invariant
            w.len() > 0,
            r@ == uppercase_of(w@[0]) + w@.subrange(1, k as int),
    {
        push_char(&mut r, w[k]);
        assert(w@.subrange(1, k + 1) == w@.subrange(1, k as int).push(w@[k as int]));
    }
    assert(w@.subrange(1, w.len() as int) == w@.skip(1));
    r
}

/// The label of a path segment (see [`segment_label`]).
fn label_of(seg: &Vec<char>) -> (r: String)
    ensures
        r@ == segment_label(seg@),
{
    let mut spaced: Vec<char> = Vec::new();
    for k in 0..seg.len()
        invariant
            spaced@ == dashes_as_spaces(seg@.take(k as int)),
    {
        let c = seg[k];
        spaced.push(if c == '-' || c == '_' { ' ' } else { c });
        assert(dashes_as_spaces(seg@.take(k + 1)) =~= dashes_as_spaces(seg@.take(k as int)).push(
            if c == '-' || c == '_' { ' ' } else { c },
        ));
    }
    assert(seg@.take(seg.len() as int) == seg@);
    let words = split_runs(&spaced, false);
    let ghost wm = vecs_model(words@);
    let mut caps: Vec<String> = Vec::new();
    for k in 0..words.len()
        invariant
            wm == vecs_model(words@),
            wm.len() == words.len(),
            caps@.map_values(|p: String| p@) == wm.take(k as int).map_values(
                |w: Seq<char>| capitalized(w),
            ),
    {
        let ghost c0 = caps@;
        let c = capitalize(&words[k]);
        caps.push(c);
        assert(wm[k as int] == words@[k as int]@);
        assert(caps@.map_values(|p: String| p@) =~= c0.map_values(|p: String| p@).push(c@));
        assert(wm.take(k + 1).map_values(|w: Seq<char>| capitalized(w)) =~= wm.take(
            k as int,
        ).map_values(|w: Seq<char>| capitalized(w)).push(capitalized(wm[k as int])));
    }
    assert(wm.take(words.len() as int) == wm);
    join_strings(&caps, " ")
}

fn chars_to_owned(v: &Vec<char>) -> (r: String)
    ensures
        r@ == v@,
{
    let mut r = String::new();
    for k in 0..v.len()
        invariant
            r@ == v@.take(k as int),
    {
        push_char(&mut r, v[k]);
        assert(v@.take(k + 1) == v@.take(k as int).push(v@[k as int]));
    }
    assert(v@.take(v.len() as int) == v@);
    r
}

/// The breadcrumbs of the page at `path` (see [`breadcrumbs_of`]).
pub fn breadcrumbs(path: &str) -> (r: Vec<Crumb>)
    ensures
        crumbs_model(r@) == breadcrumbs_of(path@),
{
    let cs = chars_of(path);
    let pieces = split_runs(&cs, true);
    let ghost pm = vecs_model(pieces@);
    let mut segs: Vec<Vec<char>> = Vec::new();
    let admin = chars_of("admin");
    for k in 0..pieces.len()
        invariant
            pm == vecs_model(pieces@),
            pm.len() == pieces.len(),
            admin@ == "admin"@,
            vecs_model(segs@) == crumb_segments(pm.take(k as int)),
    {
        assert(pm.take(k + 1).drop_last() == pm.take(k as int));
        assert(pm.take(k + 1).last() == pieces@[k as int]@);
        let p = &pieces[k];
        let mut same = p.len() == admin.len();
        if same {
            for j in 0..p.len()
                invariant
                    p.len() == admin.len(),
                    same <==> forall|x: int| 0 <= x < j ==> p@[x] == admin@[x],
            {
                if p[j] != admin[j] {
                    same = false;
                }
            }
        }
        assert(same <==> p@ == admin@) by {
            if p.len() == admin.len() && same {
                assert(p@ =~= admin@);
            }
        }
        if !same {
            let ghost s0 = segs@;
            let mut copy: Vec<char> = Vec::new();
            for j in 0..p.len()
                invariant
                    copy@ == p@.take(j as int),
            {
                copy.push(p[j]);
                assert(p@.take(j + 1) == p@.take(j as int).push(p@[j as int]));
            }
            assert(p@.take(p.len() as int) == p@);
            segs.push(copy);
            assert(vecs_model(segs@) =~= vecs_model(s0).push(p@));
        }
    }
    assert(pm.take(pieces.len() as int) == pm);
    let ghost sm = vecs_model(segs@);
    let mut crumbs: Vec<Crumb> = Vec::new();
    crumbs.push(Crumb { label: String::from_str("Dashboard"), href: String::from_str("/admin") });
    let mut href = String::from_str("/admin");
    for k in 0..segs.len()
        invariant
            sm == vecs_model(segs@),
            sm.len() == segs.len(),
            href@ == crumb_href(sm, k as int),
            crumbs@.len() == k + 1,
            forall|i: int|
                0 <= i <= k ==> #[trigger] crumbs_model(crumbs@)[i] == breadcrumbs_of(path@)[i],
            sm == crumb_segments(runs(path@, true)),
    {
        let ghost c0 = crumbs@;
        let seg = &segs[k];
        assert(sm[k as int] == seg@);
        href.append("/");
        let part = chars_to_owned(seg);
        href.append(part.as_str());
        assert(href@ == crumb_href(sm, k + 1));
        let label = label_of(seg);
        let hc = href.clone();
        crumbs.push(Crumb { label, href: hc });
        assert forall|i: int| 0 <= i <= k + 1 implies #[trigger] crumbs_model(crumbs@)[i]
            == breadcrumbs_of(path@)[i] by {
            if i <= k {
                assert(crumbs@[i] == c0[i]);
                assert(crumbs_model(c0)[i] == breadcrumbs_of(path@)[i]);
            }
        }
    }
    assert(crumbs_model(crumbs@) =~= breadcrumbs_of(path@));
    crumbs
}

// ---------------------------------------------------------------------------
// The record editor
// ---------------------------------------------------------------------------

/// The widget that edits a field.
#[derive(Debug)]
pub enum Widget {
    /// A checkbox, for a boolean.
    Checkbox,
    /// A multi-line text area.
    Textarea,
    /// A choice among the records of the linked entity.
    LinkSelect { target: String },
    /// A one-line input of the given HTML type.
    Input { input_type: String },
}

/// The mathematical value of a [`Widget`].
pub enum WidgetModel {
    Checkbox,
    Textarea,
    LinkSelect { target: Seq<char> },
    Input { input_type: Seq<char> },
}

impl View for Widget {
    type V = WidgetModel;

    open spec fn view(&self) -> WidgetModel {
        match self {
            Widget::Checkbox => WidgetModel::Checkbox,
            Widget::Textarea => WidgetModel::Textarea,
            Widget::LinkSelect { target } => WidgetModel::LinkSelect { target: target@ },
            Widget::Input { input_type } => WidgetModel::Input { input_type: input_type@ },
        }
    }
}

/// The widget of a field: a boolean gets a checkbox; a field that asks for the
/// `textarea` widget gets one; a link gets a choice of records; the rest get an input
/// of type `number` (integers and floats), `datetime-local` (date-times) or `text`.
pub open spec fn widget_of(f: FieldInfoModel) -> WidgetModel {
    if f.field_type is Boolean {
        WidgetModel::Checkbox
    } else if f.ui_widget == Some("textarea"@) {
        WidgetModel::Textarea
    } else {
        match f.field_type {
            FieldTypeModel::Link { target } => WidgetModel::LinkSelect { target },
            FieldTypeModel::Integer => WidgetModel::Input { input_type: "number"@ },
            FieldTypeModel::Float => WidgetModel::Input { input_type: "number"@ },
            FieldTypeModel::DateTime => WidgetModel::Input { input_type: "datetime-local"@ },
            _ => WidgetModel::Input { input_type: "text"@ },
        }
    }
}

/// The widget that edits `field` (see [`widget_of`]).
pub fn widget_for(field: &FieldInfo) -> (w: Widget)
    ensures
        w@ == widget_of(field@),
{
    if let FieldType::Boolean = field.field_type {
        return Widget::Checkbox;
    }
    if let Some(u) = &field.ui_widget {
        if str_eq(u.as_str(), "textarea") {
            return Widget::Textarea;
        }
    }
    match &field.field_type {
        FieldType::Link { target } => Widget::LinkSelect { target: target.clone() },
        FieldType::Integer | FieldType::Float => Widget::Input {
            input_type: String::from_str("number"),
        },
        FieldType::DateTime => Widget::Input { input_type: String::from_str("datetime-local") },
        _ => Widget::Input { input_type: String::from_str("text") },
    }
}

/// Whether the editor shows a field: hidden fields and `id` are not edited.
pub open spec fn is_editable(f: FieldInfoModel) -> bool {
    !f.hidden && f.name != "id"@
}

/// The fields that pass `keep`, in order.
pub open spec fn editable(fields: Seq<FieldInfoModel>) -> Seq<FieldInfoModel>
    decreases fields.len(),
{
    if fields.len() == 0 {
        seq![]
    } else if is_editable(fields.last()) {
        editable(fields.drop_last()).push(fields.last())
    } else {
        editable(fields.drop_last())
    }
}

/// The fields that the record editor shows, in order.
pub fn editable_fields(fields: &Vec<FieldInfo>) -> (r: Vec<FieldInfo>)
    ensures
        fields_model(r@) == editable(fields_model(fields@)),
{
    let ghost fm = fields_model(fields@);
    let mut r: Vec<FieldInfo> = Vec::new();
    for k in 0..fields.len()
        invariant
            fm == fields_model(fields@),
            fm.len() == fields.len(),
            fields_model(r@) == editable(fm.take(k as int)),
    {
        let f = &fields[k];
        assert(fm.take(k + 1).drop_last() == fm.take(k as int));
        assert(fm.take(k + 1).last() == f@);
        if !f.hidden && !str_eq(f.name.as_str(), "id") {
            let ghost r0 = r@;
            let c = f.clone();
            r.push(c);
            assert(fields_model(r@) =~= fields_model(r0).push(c@));
        }
    }
    assert(fm.take(fields.len() as int) == fm);
    r
}

/// The heading of the editor: `Create New <entity>` for a new record, `Edit <entity>`
/// otherwise.
pub open spec fn editor_heading(entity: Seq<char>, id: Seq<char>) -> Seq<char> {
    if id == "new"@ {
        "Create New "@ + entity
    } else {
        "Edit "@ + entity
    }
}

/// The heading of the record editor (see [`editor_heading`]).
pub fn editor_title(entity: &str, id: &str) -> (r: String)
    ensures
        r@ == editor_heading(entity@, id@),
{
    if str_eq(id, "new") {
        concat2("Create New ", entity)
    } else {
        concat2("Edit ", entity)
    }
}

/// The API address of a record.
pub open spec fn record_url(entity: Seq<char>, id: Seq<char>) -> Seq<char> {
    "/api/v1/"@ + entity + "/"@ + id
}

/// The API address of a collection.
pub open spec fn collection_url(entity: Seq<char>) -> Seq<char> {
    "/api/v1/"@ + entity
}

/// The API address of the record `id` of `entity`.
pub fn record_api_url(entity: &str, id: &str) -> (r: String)
    ensures
        r@ == record_url(entity@, id@),
{
    let mut r = concat2("/api/v1/", entity);
    r.append("/");
    r.append(id);
    r
}

/// The API address of the collection of `entity`.
pub fn collection_api_url(entity: &str) -> (r: String)
    ensures
        r@ == collection_url(entity@),
{
    concat2("/api/v1/", entity)
}

/// How the editor saves: a new record is posted to its collection, an existing one
/// is put at its own address. Gives the method and the address.
pub fn save_request(entity: &str, id: &str) -> (r: (String, String))
    ensures
        id@ == "new"@ ==> r.0@ == "POST"@ && r.1@ == collection_url(entity@),
        id@ != "new"@ ==> r.0@ == "PUT"@ && r.1@ == record_url(entity@, id@),
{
    if str_eq(id, "new") {
        (String::from_str("POST"), collection_api_url(entity))
    } else {
        (String::from_str("PUT"), record_api_url(entity, id))
    }
}

/// The admin page of a collection.
pub open spec fn collection_page(entity: Seq<char>) -> Seq<char> {
    "/admin/collection/"@ + entity
}

/// The admin page of the collection of `entity`, where the editor returns.
pub fn collection_href(entity: &str) -> (r: String)
    ensures
        r@ == collection_page(entity@),
{
    concat2("/admin/collection/", entity)
}

/// The link of a collection page's `Create New` button.
pub fn new_record_href(entity: &str) -> (r: String)
    ensures
        r@ == "/admin/"@ + entity@ + "/new"@,
{
    let mut r = concat2("/admin/", entity);
    r.append("/new");
    r
}

/// Whether the navigation entry at `url` is the active one on the page at `pathname`:
/// the page's path starts with it.
pub fn nav_active(pathname: &str, url: &str) -> (b: bool)
    ensures
        b == url@.is_prefix_of(pathname@),
{
    let p = chars_of(pathname);
    let u = chars_of(url);
    if u.len() > p.len() {
        return false;
    }
    for k in 0..u.len()
        invariant
            u.len() <= p.len(),
            p@ == pathname@,
            u@ == url@,
            forall|j: int| 0 <= j < k ==> u@[j] == p@[j],
    {
        if u[k] != p[k] {
            return false;
        }
    }
    assert(u@ =~= p@.subrange(0, u@.len() as int));
    true
}

/// The value that an edited field stores: a number or a text.
#[derive(Debug, PartialEq, Eq)]
pub enum ChoiceValue {
    Number(i64),
    Text(String),
}

/// The value that choosing a linked record stores: the choice's text as an integer
/// when it reads as one (see [`parsed_i64`]), otherwise the text itself. (An integer
/// input stores [`parse_i64`] of its text, and nothing when that fails.)
pub fn link_choice_value(v: &str) -> (r: ChoiceValue)
    ensures
        match parsed_i64(v@) {
            Some(n) => r == ChoiceValue::Number(n),
            None => r matches ChoiceValue::Text(t) && t@ == v@,
        },
{
    match parse_i64(v) {
        Some(n) => ChoiceValue::Number(n),
        None => ChoiceValue::Text(String::from_str(v)),
    }
}

// ---------------------------------------------------------------------------
// Collections and the dashboard
// ---------------------------------------------------------------------------

/// The names of the fields that are not hidden, in order: the columns of a collection.
pub open spec fn visible_names(fields: Seq<FieldInfoModel>) -> Seq<Seq<char>>
    decreases fields.len(),
{
    if fields.len() == 0 {
        seq![]
    } else if !fields.last().hidden {
        visible_names(fields.drop_last()).push(fields.last().name)
    } else {
        visible_names(fields.drop_last())
    }
}

/// The column headers of a collection.
pub fn visible_columns(fields: &Vec<FieldInfo>) -> (r: Vec<String>)
    ensures
        r@.map_values(|p: String| p@) == visible_names(fields_model(fields@)),
{
    let ghost fm = fields_model(fields@);
    let mut r: Vec<String> = Vec::new();
    for k in 0..fields.len()
        invariant
            fm == fields_model(fields@),
            fm.len() == fields.len(),
            r@.map_values(|p: String| p@) == visible_names(fm.take(k as int)),
    {
        let f = &fields[k];
        assert(fm.take(k + 1).drop_last() == fm.take(k as int));
        assert(fm.take(k + 1).last() == f@);
        if !f.hidden {
            let ghost r0 = r@;
            let n = f.name.clone();
            r.push(n);
            assert(r@.map_values(|p: String| p@) =~= r0.map_values(|p: String| p@).push(n@));
        }
    }
    assert(fm.take(fields.len() as int) == fm);
    r
}

/// A table cell's text: the JSON text of the value without its double quotes.
pub open spec fn without_quotes(s: Seq<char>) -> Seq<char>
    decreases s.len(),
{
    if s.len() == 0 {
        seq![]
    } else if s.last() == '"' {
        without_quotes(s.drop_last())
    } else {
        without_quotes(s.drop_last()).push(s.last())
    }
}

/// The text of a table cell from the JSON text of its value (see [`without_quotes`]).
pub fn cell_text(json_text: &str) -> (r: String)
    ensures
        r@ == without_quotes(json_text@),
{
    let cs = chars_of(json_text);
    let mut r = String::new();
    for k in 0..cs.len()
        invariant
            r@ == without_quotes(cs@.take(k as int)),
    {
        assert(cs@.take(k + 1).drop_last() == cs@.take(k as int));
        assert(cs@.take(k + 1).last() == cs@[k as int]);
        if cs[k] != '"' {
            push_char(&mut r, cs[k]);
        }
    }
    assert(cs@.take(cs.len() as int) == cs@);
    r
}

/// The edit link of a table row: the record named by the row's first cell, or `#` for
/// an empty row.
pub fn edit_href(entity: &str, row: &Vec<String>) -> (r: String)
    ensures
        row.len() == 0 ==> r@ == "#"@,
        row.len() > 0 ==> r@ == collection_page(entity@) + "/"@ + row@[0]@,
{
    if row.len() == 0 {
        return String::from_str("#");
    }
    let mut r = concat2("/admin/collection/", entity);
    r.append("/");
    r.append(row[0].as_str());
    r
}

/// The footer of a table: `1–<rows> of <total> items`, the total being the row count
/// when it is not given.
pub fn table_footer(row_count: usize, total_count: Option<usize>) -> (r: String)
    ensures
        r@ == "1–"@ + decimal_nat(row_count as nat) + " of "@ + decimal_nat(
            match total_count {
                Some(t) => t as nat,
                None => row_count as nat,
            },
        ) + " items"@,
{
    let total = match total_count {
        Some(t) => t,
        None => row_count,
    };
    let mut r = String::from_str("1–");
    let a = u64_to_decimal(row_count as u64);
    r.append(a.as_str());
    r.append(" of ");
    let b = u64_to_decimal(total as u64);
    r.append(b.as_str());
    r.append(" items");
    r
}

/// The number of fields of all schemas.
pub open spec fn total_fields(s: Seq<SchemaInfo>) -> int
    decreases s.len(),
{
    if s.len() == 0 {
        0
    } else {
        total_fields(s.drop_last()) + s.last().fields.len()
    }
}

/// The dashboard's figures: the number of collections and of their fields.
pub fn dashboard_stats(schemas: &Vec<SchemaInfo>) -> (r: (usize, usize))
    requires
        total_fields(schemas@) <= usize::MAX,
    ensures
        r.0 == schemas.len(),
        r.1 == total_fields(schemas@),
{
    let mut total: usize = 0;
    for k in 0..schemas.len()
        invariant
            total_fields(schemas@) <= usize::MAX,
            total == total_fields(schemas@.take(k as int)),
    {
        assert(schemas@.take(k + 1).drop_last() == schemas@.take(k as int));
        proof {
            lemma_total_fields_prefix(schemas@, k + 1);
        }
        total = total + schemas[k].fields.len();
    }
    assert(schemas@.take(schemas.len() as int) == schemas@);
    (schemas.len(), total)
}

proof fn lemma_total_fields_prefix(s: Seq<SchemaInfo>, n: int)
    requires
        0 <= n <= s.len(),
    ensures
        total_fields(s.take(n)) <= total_fields(s),
    decreases s.len(),
{
    if n < s.len() {
        assert(s.drop_last().take(n) == s.take(n));
        lemma_total_fields_prefix(s.drop_last(), n);
    } else {
        assert(s.take(n) == s);
    }
}

// ---------------------------------------------------------------------------
// Requests
// ---------------------------------------------------------------------------

/// The HTTP methods that the admin interface sends.
#[derive(Debug, Clone, Copy, PartialEq, Eq, Structural)]
pub enum HttpMethod {
    Get,
    Post,
    Put,
    Delete,
}

/// Reads a method name; any other than `GET`, `POST`, `PUT` and `DELETE` is refused
/// with `Unsupported method: <name>`.
pub fn http_method(method: &str) -> (r: Result<HttpMethod, String>)
    ensures
        method@ == "GET"@ ==> r == Ok::<HttpMethod, String>(HttpMethod::Get),
        method@ == "POST"@ ==> r == Ok::<HttpMethod, String>(HttpMethod::Post),
        method@ == "PUT"@ ==> r == Ok::<HttpMethod, String>(HttpMethod::Put),
        method@ == "DELETE"@ ==> r == Ok::<HttpMethod, String>(HttpMethod::Delete),
        method@ != "GET"@ && method@ != "POST"@ && method@ != "PUT"@ && method@ != "DELETE"@
            ==> (r matches Err(m) && m@ == "Unsupported method: "@ + method@),
{
    proof {
        reveal_strlit("GET");
        reveal_strlit("POST");
        reveal_strlit("PUT");
        reveal_strlit("DELETE");
        assert("POST"@[0] != "GET"@[0]);
        assert("PUT"@[0] != "GET"@[0]);
        assert("PUT"@[1] != "POST"@[1]);
        assert("DELETE"@[0] != "GET"@[0]);
        assert("DELETE"@[0] != "POST"@[0]);
        assert("DELETE"@[0] != "PUT"@[0]);
    }
    if str_eq(method, "GET") {
        Ok(HttpMethod::Get)
    } else if str_eq(method, "POST") {
        Ok(HttpMethod::Post)
    } else if str_eq(method, "PUT") {
        Ok(HttpMethod::Put)
    } else if str_eq(method, "DELETE") {
        Ok(HttpMethod::Delete)
    } else {
        Err(concat2("Unsupported method: ", method))
    }
}

/// The label of a linked record in a choice: the first of its `name` and `title`
/// entries that it has, when that entry is a text; otherwise the record's id. Each
/// entry is given as absent (`None`), present but not a text (`Some(None)`), or a text.
pub fn option_label(id: &str, name: Option<Option<&str>>, title: Option<Option<&str>>) -> (r:
    String)
    ensures
        r@ == match (name, title) {
            (Some(Some(n)), _) => n@,
            (None, Some(Some(t))) => t@,
            _ => id@,
        },
{
    match (name, title) {
        (Some(Some(n)), _) => String::from_str(n),
        (None, Some(Some(t))) => String::from_str(t),
        _ => String::from_str(id),
    }
}

/// The request that generates an API key named `name`, with read-write permissions;
/// none for an empty name.
pub fn new_key_request(name: &str) -> (r: Option<(String, String)>)
    ensures
        name@.len() == 0 <==> r is None,
        r matches Some((n, p)) ==> n@ == name@ && p@ == "read_write"@,
{
    let cs = chars_of(name);
    if cs.len() == 0 {
        None
    } else {
        Some((String::from_str(name), String::from_str("read_write")))
    }
}

/// The address that revokes the API key with hint `prefix`.
pub fn revoke_key_url(prefix: &str) -> (r: String)
    ensures
        r@ == "/admin/api/keys/"@ + prefix@,
{
    concat2("/admin/api/keys/", prefix)
}

/// The message shown when a login is refused with HTTP status `status`.
pub fn login_failure_message(status: u16) -> (r: String)
    ensures
        r@ == "Login failed: "@ + decimal_nat(status as nat),
{
    let d = u64_to_decimal(status as u64);
    concat2("Login failed: ", d.as_str())
}

} // verus!
