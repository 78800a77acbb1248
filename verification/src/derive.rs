//! The schema that the entity derive builds from an entity declaration: its table
//! name, its access policy, and one field description per field.
use vstd::prelude::*;

use crate::attrs::{
    AttrError, AttrErrorKind, AttrTarget, Attribute, AttributeModel, BromFieldAttrs,
    FieldAttrsModel, attribute_errors, attribute_errors_of, attributes_model, brom_items,
    errors_model, field_attrs_from, last_text, last_text_of, with_groups_opened,
};
use crate::entity::{
    AuthPolicy, Constraint, ConstraintModel, FieldInfo, FieldInfoModel, FieldType,
    FieldTypeModel, SchemaInfo, SchemaInfoModel, fields_model,
};
use crate::admin::{visible_columns, visible_names};
use crate::text::str_eq;

verus! {

broadcast use vstd::string::group_string_axioms;

/// What `str::to_lowercase` gives for `s`.
pub uninterp spec fn lowercase(s: Seq<char>) -> Seq<char>;

/// `str::to_lowercase`: the lowercase form of `s`, by the Unicode rules of std.
/// Its result is named, not stated.
#[verifier::external_body]
pub(crate) fn to_lowercase(s: &str) -> (r: String)
    ensures
        r@ == lowercase(s@),
{
    s.to_lowercase()
}

/// Whether a type name stands for an integer column.
pub open spec fn is_integer_type(t: Seq<char>) -> bool {
    t == "i32"@ || t == "i64"@ || t == "u32"@ || t == "u64"@
}

/// Whether a type name stands for a float column.
pub open spec fn is_float_type(t: Seq<char>) -> bool {
    t == "f32"@ || t == "f64"@
}

/// Whether a type name stands for a date-time column.
pub open spec fn is_datetime_type(t: Seq<char>) -> bool {
    t == "DateTime"@ || t == "NaiveDateTime"@ || t == "NaiveDate"@
}

/// The storage type of a field whose Rust type has `ty_name` as the last segment
/// of its path: a relation named in the attributes comes first (many-to-many before
/// link); otherwise integers, floats, `bool` and date-times map to their kind and
/// every other type is stored as a string.
pub open spec fn field_type_for(ty_name: Seq<char>, a: FieldAttrsModel) -> FieldTypeModel {
    match a.many_many_target {
        Some(t) => FieldTypeModel::ManyToMany {
            target: t,
            junction_table: match a.many_many_junction {
                Some(j) => j,
                None => seq![],
            },
        },
        None => match a.link_target {
            Some(t) => FieldTypeModel::Link { target: t },
            None => if is_integer_type(ty_name) {
                FieldTypeModel::Integer
            } else if is_float_type(ty_name) {
                FieldTypeModel::Float
            } else if ty_name == "bool"@ {
                FieldTypeModel::Boolean
            } else if is_datetime_type(ty_name) {
                FieldTypeModel::DateTime
            } else {
                FieldTypeModel::String
            },
        },
    }
}

/// Maps a field's type to its storage type (see [`field_type_for`]).
pub fn map_type_to_field_type(ty_name: &str, attrs: &BromFieldAttrs) -> (t: FieldType)
    ensures
        t@ == field_type_for(ty_name@, attrs@),
{
    if let Some(target) = &attrs.many_many_target {
        let junction = match &attrs.many_many_junction {
            Some(j) => j.clone(),
            None => String::new(),
        };
        return FieldType::ManyToMany { target: target.clone(), junction_table: junction };
    }
    if let Some(target) = &attrs.link_target {
        return FieldType::Link { target: target.clone() };
    }
    if str_eq(ty_name, "i32") || str_eq(ty_name, "i64") || str_eq(ty_name, "u32")
        || str_eq(ty_name, "u64") {
        FieldType::Integer
    } else if str_eq(ty_name, "f32") || str_eq(ty_name, "f64") {
        FieldType::Float
    } else if str_eq(ty_name, "bool") {
        FieldType::Boolean
    } else if str_eq(ty_name, "DateTime") || str_eq(ty_name, "NaiveDateTime") || str_eq(
        ty_name,
        "NaiveDate",
    ) {
        FieldType::DateTime
    } else {
        FieldType::String
    }
}

/// Without a relation attribute, the storage type follows the Rust type's name:
/// `i32`, `i64`, `u32` and `u64` are integers, `f32` and `f64` floats, `bool` a
/// boolean, `DateTime`, `NaiveDateTime` and `NaiveDate` date-times, and `String` a
/// string. A `many_many` attribute makes the field a many-to-many relation to its
/// target, and otherwise a `link` attribute makes it a link to its target, whatever
/// the type's name.
pub proof fn law_field_type_by_name(ty_name: Seq<char>, a: FieldAttrsModel)
    ensures
        a.many_many_target is None && a.link_target is None ==> {
            &&& field_type_for("i32"@, a) == FieldTypeModel::Integer
            &&& field_type_for("i64"@, a) == FieldTypeModel::Integer
            &&& field_type_for("u32"@, a) == FieldTypeModel::Integer
            &&& field_type_for("u64"@, a) == FieldTypeModel::Integer
            &&& field_type_for("f32"@, a) == FieldTypeModel::Float
            &&& field_type_for("f64"@, a) == FieldTypeModel::Float
            &&& field_type_for("bool"@, a) == FieldTypeModel::Boolean
            &&& field_type_for("DateTime"@, a) == FieldTypeModel::DateTime
            &&& field_type_for("NaiveDateTime"@, a) == FieldTypeModel::DateTime
            &&& field_type_for("NaiveDate"@, a) == FieldTypeModel::DateTime
            &&& field_type_for("String"@, a) == FieldTypeModel::String
        },
        forall|t: Seq<char>|
            a.many_many_target == Some(t) ==> (#[trigger] field_type_for(ty_name, a)
                is ManyToMany) && field_type_for(ty_name, a)->ManyToMany_target == t,
        forall|t: Seq<char>|
            a.many_many_target is None && a.link_target == Some(t) ==> #[trigger] field_type_for(
                ty_name,
                a,
            ) == (FieldTypeModel::Link { target: t }),
{
    reveal_strlit("i32");
    reveal_strlit("i64");
    reveal_strlit("u32");
    reveal_strlit("u64");
    reveal_strlit("f32");
    reveal_strlit("f64");
    reveal_strlit("bool");
    reveal_strlit("DateTime");
    reveal_strlit("NaiveDateTime");
    reveal_strlit("NaiveDate");
    reveal_strlit("String");
    assert("f32"@[0] != "i32"@[0]);
    assert("f32"@[0] != "i64"@[0]);
    assert("f32"@[0] != "u32"@[0]);
    assert("f32"@[0] != "u64"@[0]);
    assert("f64"@[0] != "i32"@[0]);
    assert("f64"@[0] != "i64"@[0]);
    assert("f64"@[0] != "u32"@[0]);
    assert("f64"@[0] != "u64"@[0]);
    assert("bool"@.len() != "i32"@.len());
    assert("bool"@.len() != "i64"@.len());
    assert("bool"@.len() != "u32"@.len());
    assert("bool"@.len() != "u64"@.len());
    assert("bool"@.len() != "f32"@.len());
    assert("bool"@.len() != "f64"@.len());
    assert("DateTime"@.len() != "i32"@.len());
    assert("DateTime"@.len() != "i64"@.len());
    assert("DateTime"@.len() != "u32"@.len());
    assert("DateTime"@.len() != "u64"@.len());
    assert("DateTime"@.len() != "f32"@.len());
    assert("DateTime"@.len() != "f64"@.len());
    assert("DateTime"@.len() != "bool"@.len());
    assert("NaiveDateTime"@.len() != "i32"@.len());
    assert("NaiveDateTime"@.len() != "i64"@.len());
    assert("NaiveDateTime"@.len() != "u32"@.len());
    assert("NaiveDateTime"@.len() != "u64"@.len());
    assert("NaiveDateTime"@.len() != "f32"@.len());
    assert("NaiveDateTime"@.len() != "f64"@.len());
    assert("NaiveDateTime"@.len() != "bool"@.len());
    assert("NaiveDate"@.len() != "i32"@.len());
    assert("NaiveDate"@.len() != "i64"@.len());
    assert("NaiveDate"@.len() != "u32"@.len());
    assert("NaiveDate"@.len() != "u64"@.len());
    assert("NaiveDate"@.len() != "f32"@.len());
    assert("NaiveDate"@.len() != "f64"@.len());
    assert("NaiveDate"@.len() != "bool"@.len());
    assert("String"@.len() != "i32"@.len());
    assert("String"@.len() != "i64"@.len());
    assert("String"@.len() != "u32"@.len());
    assert("String"@.len() != "u64"@.len());
    assert("String"@.len() != "f32"@.len());
    assert("String"@.len() != "f64"@.len());
    assert("String"@.len() != "bool"@.len());
    assert("String"@.len() != "DateTime"@.len());
    assert("String"@.len() != "NaiveDateTime"@.len());
    assert("String"@.len() != "NaiveDate"@.len());
}

/// The constraints that a field's attributes declare, in this order: `Unique`,
/// `NotNull`, then `Default` with the default's text.
pub open spec fn constraints_for(a: FieldAttrsModel) -> Seq<ConstraintModel> {
    (if a.unique {
        seq![ConstraintModel::Unique]
    } else {
        seq![]
    }) + (if a.not_null {
        seq![ConstraintModel::NotNull]
    } else {
        seq![]
    }) + match a.default {
        Some(d) => seq![ConstraintModel::Default(d)],
        None => seq![],
    }
}

/// The description of the field `name` of type `ty_name` with attributes `a`.
pub open spec fn field_info_for(name: Seq<char>, ty_name: Seq<char>, a: FieldAttrsModel)
    -> FieldInfoModel {
    FieldInfoModel {
        name,
        field_type: field_type_for(ty_name, a),
        constraints: constraints_for(a),
        ui_widget: a.ui_widget,
        hidden: a.hidden,
    }
}

/// Describes one field of an entity.
pub fn field_info(name: &str, ty_name: &str, attrs: &BromFieldAttrs) -> (f: FieldInfo)
    ensures
        f@ == field_info_for(name@, ty_name@, attrs@),
{
    let mut constraints: Vec<Constraint> = Vec::new();
    if attrs.unique {
        constraints.push(Constraint::Unique);
    }
    if attrs.not_null {
        constraints.push(Constraint::NotNull);
    }
    if let Some(d) = &attrs.default {
        constraints.push(Constraint::Default(d.clone()));
    }
    let ui_widget = match &attrs.ui_widget {
        Some(w) => Some(w.clone()),
        None => None,
    };
    let f = FieldInfo {
        name: String::from_str(name),
        field_type: map_type_to_field_type(ty_name, attrs),
        constraints,
        ui_widget,
        hidden: attrs.hidden,
    };
    assert(f@.constraints =~= constraints_for(attrs@));
    f
}

/// The access policy named by an entity's `auth_policy`: `AdminOnly` and `ApiKey`
/// name theirs, and anything else, or nothing, is `Public`.
pub open spec fn policy_for(p: Option<Seq<char>>) -> AuthPolicy {
    match p {
        Some(s) => if s == "AdminOnly"@ {
            AuthPolicy::AdminOnly
        } else if s == "ApiKey"@ {
            AuthPolicy::ApiKey
        } else {
            AuthPolicy::Public
        },
        None => AuthPolicy::Public,
    }
}

/// Reads an access policy (see [`policy_for`]).
pub fn policy_of(p: &Option<String>) -> (r: AuthPolicy)
    ensures
        r == policy_for(match p {
            Some(s) => Some(s@),
            None => None,
        }),
{
    match p {
        Some(s) => if str_eq(s.as_str(), "AdminOnly") {
            AuthPolicy::AdminOnly
        } else if str_eq(s.as_str(), "ApiKey") {
            AuthPolicy::ApiKey
        } else {
            AuthPolicy::Public
        },
        None => AuthPolicy::Public,
    }
}

/// One field of an entity declaration: its name, the last segment of its type's path,
/// and its attributes.
pub struct FieldDecl {
    pub name: String,
    pub ty_name: String,
    pub attrs: Vec<Attribute>,
}

/// The mathematical value of a [`FieldDecl`].
pub struct FieldDeclModel {
    pub name: Seq<char>,
    pub ty_name: Seq<char>,
    pub attrs: Seq<AttributeModel>,
}

impl View for FieldDecl {
    type V = FieldDeclModel;

    open spec fn view(&self) -> FieldDeclModel {
        FieldDeclModel {
            name: self.name@,
            ty_name: self.ty_name@,
            attrs: attributes_model(self.attrs@),
        }
    }
}

/// The values of a sequence of field declarations.
pub open spec fn decls_model(s: Seq<FieldDecl>) -> Seq<FieldDeclModel> {
    s.map_values(|d: FieldDecl| d@)
}

/// The attribute errors of the fields, field by field.
pub open spec fn field_errors(fs: Seq<FieldDeclModel>) -> Seq<(Seq<char>, AttrErrorKind)>
    decreases fs.len(),
{
    if fs.len() == 0 {
        seq![]
    } else {
        field_errors(fs.drop_last()) + attribute_errors(AttrTarget::Field, fs.last().attrs)
    }
}

/// The descriptions of the fields whose attributes are accepted, in order.
pub open spec fn field_infos(fs: Seq<FieldDeclModel>) -> Seq<FieldInfoModel>
    decreases fs.len(),
{
    if fs.len() == 0 {
        seq![]
    } else if attribute_errors(AttrTarget::Field, fs.last().attrs).len() == 0 {
        field_infos(fs.drop_last()).push(
            field_info_for(
                fs.last().name,
                fs.last().ty_name,
                field_attrs_from(with_groups_opened(brom_items(fs.last().attrs))),
            ),
        )
    } else {
        field_infos(fs.drop_last())
    }
}

/// The table of an entity: the name its attributes give, else its own name in lower
/// case.
pub open spec fn table_name_for(struct_name: Seq<char>, attrs: Seq<AttributeModel>) -> Seq<
    char,
> {
    match last_text(brom_items(attrs), "table"@) {
        Some(t) => t,
        None => lowercase(struct_name),
    }
}

/// All attribute errors of an entity declaration: the entity's, then each field's.
pub open spec fn entity_errors(attrs: Seq<AttributeModel>, fs: Seq<FieldDeclModel>) -> Seq<
    (Seq<char>, AttrErrorKind),
> {
    attribute_errors(AttrTarget::Struct, attrs) + field_errors(fs)
}

/// Builds the schema of the entity `struct_name` declared with the attributes `attrs`
/// and the fields `fields`. Every refused attribute item of the entity and of its
/// fields is reported, and any of them fails the whole.
pub fn entity_schema(struct_name: &str, attrs: &Vec<Attribute>, fields: &Vec<FieldDecl>) -> (r:
    Result<SchemaInfo, Vec<AttrError>>)
    ensures
        ({
            let m = attributes_model(attrs@);
            let fs = decls_model(fields@);
            let errs = entity_errors(m, fs);
            match r {
                Ok(s) => errs.len() == 0 && s@ == SchemaInfoModel {
                    table_name: table_name_for(struct_name@, m),
                    fields: field_infos(fs),
                    auth_policy: policy_for(last_text(brom_items(m), "auth_policy"@)),
                },
                Err(e) => errs.len() > 0 && errors_model(e@) == errs,
            }
        }),
{
    let ghost m = attributes_model(attrs@);
    let ghost fs = decls_model(fields@);
    let mut errors = attribute_errors_of(AttrTarget::Struct, attrs);
    let table_name = match last_text_of(attrs, "table") {
        Some(t) => t,
        None => to_lowercase(struct_name),
    };
    let auth_policy = policy_of(&last_text_of(attrs, "auth_policy"));
    let mut infos: Vec<FieldInfo> = Vec::new();
    assert(fs.take(0) =~= Seq::<FieldDeclModel>::empty());
    for i in 0..fields.len()
        invariant
            fs == decls_model(fields@),
            fs.len() == fields.len(),
            errors_model(errors@) == attribute_errors(AttrTarget::Struct, m) + field_errors(
                fs.take(i as int),
            ),
            fields_model(infos@) == field_infos(fs.take(i as int)),
    {
        let d = &fields[i];
        assert(fs.take(i + 1).drop_last() == fs.take(i as int));
        assert(fs.take(i + 1).last() == d@);
        let ghost before = errors@;
        let ghost infos_before = infos@;
        match BromFieldAttrs::parse(&d.attrs) {
            Ok(a) => {
                let f = field_info(d.name.as_str(), d.ty_name.as_str(), &a);
                infos.push(f);
                assert(fields_model(infos@) == fields_model(infos_before).push(f@));
            },
            Err(mut e) => {
                let ghost e0 = e@;
                errors.append(&mut e);
                assert(errors_model(errors@) == errors_model(before) + errors_model(e0));
            },
        }
    }
    assert(fs.take(fields.len() as int) == fs);
    if errors.len() > 0 {
        return Err(errors);
    }
    Ok(SchemaInfo { table_name, fields: infos, auth_policy })
}

/// The shape of the declaration that the entity derive is applied to.
#[derive(Debug, Clone, Copy, PartialEq, Eq, Structural)]
pub enum DeclShape {
    /// A struct with named fields.
    NamedStruct,
    /// An enum, a tuple struct or a unit struct.
    Other,
}

/// Why the entity derive refuses a declaration.
pub enum DeriveError {
    /// The declaration is not a struct with named fields.
    Shape(String),
    /// Attribute items were refused.
    Attributes(Vec<AttrError>),
}

/// What the entity derive makes of a declaration: the schema, the fields of the
/// `<Name>Public` copy (and of its `From<Name>` conversion), which leaves out the
/// hidden fields, and the fields of the `<Name>Admin` copy, which keeps them all; both
/// in declaration order.
pub struct EntityExpansion {
    pub schema: SchemaInfo,
    pub public_fields: Vec<String>,
    pub admin_fields: Vec<String>,
}

/// The names of the fields, in order.
pub open spec fn names_of(fields: Seq<FieldInfoModel>) -> Seq<Seq<char>> {
    fields.map_values(|f: FieldInfoModel| f.name)
}

fn all_names(fields: &Vec<FieldInfo>) -> (r: Vec<String>)
    ensures
        r@.map_values(|p: String| p@) == names_of(fields_model(fields@)),
{
    let ghost fm = fields_model(fields@);
    let mut r: Vec<String> = Vec::new();
    for k in 0..fields.len()
        invariant
            fm == fields_model(fields@),
            fm.len() == fields.len(),
            r@.map_values(|p: String| p@) == names_of(fm.take(k as int)),
    {
        let ghost r0 = r@;
        let n = fields[k].name.clone();
        r.push(n);
        assert(fm[k as int].name == n@);
        assert(r@.map_values(|p: String| p@) =~= r0.map_values(|p: String| p@).push(n@));
        assert(fm.take(k + 1) =~= fm.take(k as int).push(fm[k as int]));
        assert(names_of(fm.take(k + 1)) =~= names_of(fm.take(k as int)).push(n@));
    }
    assert(fm.take(fields.len() as int) == fm);
    r
}

/// Expands the entity derive on the declaration `name` of shape `shape`: anything but
/// a struct with named fields is refused with `BromEntity can only be derived on
/// structs with named fields`; otherwise the schema is built as [`entity_schema`]
/// builds it, and the public copy holds the fields that are not hidden.
pub fn expand_entity(
    name: &str,
    shape: DeclShape,
    attrs: &Vec<Attribute>,
    fields: &Vec<FieldDecl>,
) -> (r: Result<EntityExpansion, DeriveError>)
    ensures
        shape == DeclShape::Other ==> (r matches Err(DeriveError::Shape(m)) && m@
            == "BromEntity can only be derived on structs with named fields"@),
        shape == DeclShape::NamedStruct ==> ({
            let m = attributes_model(attrs@);
            let fs = decls_model(fields@);
            let errs = entity_errors(m, fs);
            match r {
                Ok(x) => errs.len() == 0 && x.schema@ == SchemaInfoModel {
                    table_name: table_name_for(name@, m),
                    fields: field_infos(fs),
                    auth_policy: policy_for(last_text(brom_items(m), "auth_policy"@)),
                } && x.public_fields@.map_values(|p: String| p@) == visible_names(
                    field_infos(fs),
                ) && x.admin_fields@.map_values(|p: String| p@) == names_of(field_infos(fs)),
                Err(e) => errs.len() > 0 && (e matches DeriveError::Attributes(v) && errors_model(
                    v@,
                ) == errs),
            }
        }),
{
    if shape == DeclShape::Other {
        return Err(
            DeriveError::Shape(
                String::from_str("BromEntity can only be derived on structs with named fields"),
            ),
        );
    }
    match entity_schema(name, attrs, fields) {
        Err(e) => Err(DeriveError::Attributes(e)),
        Ok(schema) => {
            let public_fields = visible_columns(&schema.fields);
            let admin_fields = all_names(&schema.fields);
            Ok(EntityExpansion { schema, public_fields, admin_fields })
        },
    }
}

} // verus!
