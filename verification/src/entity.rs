//! The schema model: entities, their fields and constraints, access policies,
//! pagination, and the rule for SQL identifiers.
use vstd::prelude::*;

use crate::error::Error;
use crate::text::{chars_of, concat2};

verus! {

/// The storage type of an entity field.
#[derive(Debug, PartialEq)]
pub enum FieldType {
    String,
    Integer,
    Float,
    Boolean,
    DateTime,
    /// A 1:N foreign key to the table `target`.
    Link { target: String },
    /// An N:M relation to `target` through the junction table `junction_table`.
    ManyToMany { target: String, junction_table: String },
}

/// The mathematical value of a [`FieldType`].
pub enum FieldTypeModel {
    String,
    Integer,
    Float,
    Boolean,
    DateTime,
    Link { target: Seq<char> },
    ManyToMany { target: Seq<char>, junction_table: Seq<char> },
}

impl View for FieldType {
    type V = FieldTypeModel;

    open spec fn view(&self) -> FieldTypeModel {
        match self {
            FieldType::String => FieldTypeModel::String,
            FieldType::Integer => FieldTypeModel::Integer,
            FieldType::Float => FieldTypeModel::Float,
            FieldType::Boolean => FieldTypeModel::Boolean,
            FieldType::DateTime => FieldTypeModel::DateTime,
            FieldType::Link { target } => FieldTypeModel::Link { target: target@ },
            FieldType::ManyToMany { target, junction_table } => FieldTypeModel::ManyToMany {
                target: target@,
                junction_table: junction_table@,
            },
        }
    }
}

impl Clone for FieldType {
    fn clone(&self) -> (r: Self)
        ensures
            r@ == self@,
    {
        match self {
            FieldType::String => FieldType::String,
            FieldType::Integer => FieldType::Integer,
            FieldType::Float => FieldType::Float,
            FieldType::Boolean => FieldType::Boolean,
            FieldType::DateTime => FieldType::DateTime,
            FieldType::Link { target } => FieldType::Link { target: target.clone() },
            FieldType::ManyToMany { target, junction_table } => FieldType::ManyToMany {
                target: target.clone(),
                junction_table: junction_table.clone(),
            },
        }
    }
}

/// A column constraint.
#[derive(Debug, PartialEq, Eq)]
pub enum Constraint {
    NotNull,
    Unique,
    /// A default value, written as a quoted SQL literal.
    Default(String),
}

/// The mathematical value of a [`Constraint`].
pub enum ConstraintModel {
    NotNull,
    Unique,
    Default(Seq<char>),
}

impl View for Constraint {
    type V = ConstraintModel;

    open spec fn view(&self) -> ConstraintModel {
        match self {
            Constraint::NotNull => ConstraintModel::NotNull,
            Constraint::Unique => ConstraintModel::Unique,
            Constraint::Default(v) => ConstraintModel::Default(v@),
        }
    }
}

impl Clone for Constraint {
    fn clone(&self) -> (r: Self)
        ensures
            r@ == self@,
    {
        match self {
            Constraint::NotNull => Constraint::NotNull,
            Constraint::Unique => Constraint::Unique,
            Constraint::Default(v) => Constraint::Default(v.clone()),
        }
    }
}

/// The values of a sequence of constraints.
pub open spec fn constraints_model(s: Seq<Constraint>) -> Seq<ConstraintModel> {
    s.map_values(|c: Constraint| c@)
}

/// Who may use the generated endpoints of an entity.
#[derive(Debug, Clone, Copy, PartialEq, Eq, Structural)]
pub enum AuthPolicy {
    Public,
    AdminOnly,
    ApiKey,
}

/// One field of an entity.
#[derive(Debug, PartialEq)]
pub struct FieldInfo {
    pub name: String,
    pub field_type: FieldType,
    pub constraints: Vec<Constraint>,
    pub ui_widget: Option<String>,
    pub hidden: bool,
}

/// The mathematical value of a [`FieldInfo`].
pub struct FieldInfoModel {
    pub name: Seq<char>,
    pub field_type: FieldTypeModel,
    pub constraints: Seq<ConstraintModel>,
    pub ui_widget: Option<Seq<char>>,
    pub hidden: bool,
}

impl View for FieldInfo {
    type V = FieldInfoModel;

    open spec fn view(&self) -> FieldInfoModel {
        FieldInfoModel {
            name: self.name@,
            field_type: self.field_type@,
            constraints: constraints_model(self.constraints@),
            ui_widget: match self.ui_widget {
                Some(w) => Some(w@),
                None => None,
            },
            hidden: self.hidden,
        }
    }
}

/// Copies a list of constraints element by element.
pub fn clone_constraints(v: &Vec<Constraint>) -> (r: Vec<Constraint>)
    ensures
        constraints_model(r@) == constraints_model(v@),
{
    let mut r: Vec<Constraint> = Vec::new();
    for i in 0..v.len()
        invariant
            constraints_model(r@) == constraints_model(v@.take(i as int)),
    {
        r.push(v[i].clone());
        assert(constraints_model(v@.take(i + 1)) == constraints_model(v@.take(i as int)).push(
            v@[i as int]@,
        )) by {
            assert(v@.take(i + 1) == v@.take(i as int).push(v@[i as int]));
        }
    }
    assert(v@.take(v.len() as int) == v@);
    r
}

impl Clone for FieldInfo {
    fn clone(&self) -> (r: Self)
        ensures
            r@ == self@,
    {
        let ui_widget = match &self.ui_widget {
            Some(w) => Some(w.clone()),
            None => None,
        };
        FieldInfo {
            name: self.name.clone(),
            field_type: self.field_type.clone(),
            constraints: clone_constraints(&self.constraints),
            ui_widget,
            hidden: self.hidden,
        }
    }
}

/// The values of a sequence of fields.
pub open spec fn fields_model(s: Seq<FieldInfo>) -> Seq<FieldInfoModel> {
    s.map_values(|f: FieldInfo| f@)
}

/// Copies a list of fields element by element.
pub fn clone_fields(v: &Vec<FieldInfo>) -> (r: Vec<FieldInfo>)
    ensures
        fields_model(r@) == fields_model(v@),
{
    let mut r: Vec<FieldInfo> = Vec::new();
    for i in 0..v.len()
        invariant
            fields_model(r@) == fields_model(v@.take(i as int)),
    {
        r.push(v[i].clone());
        assert(fields_model(v@.take(i + 1)) == fields_model(v@.take(i as int)).push(
            v@[i as int]@,
        )) by {
            assert(v@.take(i + 1) == v@.take(i as int).push(v@[i as int]));
        }
    }
    assert(v@.take(v.len() as int) == v@);
    r
}

/// The declared schema of one entity.
#[derive(Debug, PartialEq)]
pub struct SchemaInfo {
    pub table_name: String,
    pub fields: Vec<FieldInfo>,
    pub auth_policy: AuthPolicy,
}

/// The mathematical value of a [`SchemaInfo`].
pub struct SchemaInfoModel {
    pub table_name: Seq<char>,
    pub fields: Seq<FieldInfoModel>,
    pub auth_policy: AuthPolicy,
}

impl View for SchemaInfo {
    type V = SchemaInfoModel;

    open spec fn view(&self) -> SchemaInfoModel {
        SchemaInfoModel {
            table_name: self.table_name@,
            fields: fields_model(self.fields@),
            auth_policy: self.auth_policy,
        }
    }
}

impl Clone for SchemaInfo {
    fn clone(&self) -> (r: Self)
        ensures
            r@ == self@,
    {
        SchemaInfo {
            table_name: self.table_name.clone(),
            fields: clone_fields(&self.fields),
            auth_policy: self.auth_policy,
        }
    }
}

/// The values of a sequence of schemas.
pub open spec fn schemas_model(s: Seq<SchemaInfo>) -> Seq<SchemaInfoModel> {
    s.map_values(|x: SchemaInfo| x@)
}

/// Copies a list of schemas element by element.
pub fn clone_schemas(v: &Vec<SchemaInfo>) -> (r: Vec<SchemaInfo>)
    ensures
        schemas_model(r@) == schemas_model(v@),
{
    let mut r: Vec<SchemaInfo> = Vec::new();
    for i in 0..v.len()
        invariant
            schemas_model(r@) == schemas_model(v@.take(i as int)),
    {
        r.push(v[i].clone());
        assert(schemas_model(v@.take(i + 1)) == schemas_model(v@.take(i as int)).push(
            v@[i as int]@,
        )) by {
            assert(v@.take(i + 1) == v@.take(i as int).push(v@[i as int]));
        }
    }
    assert(v@.take(v.len() as int) == v@);
    r
}

/// What an entity type tells about its storage; the entity derive implements it.
pub trait EntitySchema {
    /// The entity's table.
    fn table_name() -> &'static str;

    /// The entity's fields.
    fn fields() -> Vec<FieldInfo>;

    /// The entity's table, fields and access policy.
    fn schema_info() -> SchemaInfo;
}

/// Storage of the entities of type `T`, each known by an integer id.
pub trait Repository<T> {
    /// Stores a new entity and returns its id.
    fn create(&self, entity: &T) -> Result<i64, Error>;

    /// The entity with the given id, if there is one.
    fn find_by_id(&self, id: i64) -> Result<Option<T>, Error>;

    /// One page of the entities.
    fn find_all(&self, pagination: &Pagination) -> Result<Vec<T>, Error>;

    /// Replaces the stored entity with the given id.
    fn update(&self, id: i64, entity: &T) -> Result<(), Error>;

    /// Removes the entity with the given id.
    fn delete(&self, id: i64) -> Result<(), Error>;

    /// The number of stored entities.
    fn count(&self) -> Result<i64, Error>;
}

/// A page request: pages count from 1.
#[derive(Debug, Clone, Copy, PartialEq, Eq, Structural)]
pub struct Pagination {
    pub page: u64,
    pub per_page: u64,
}

impl Pagination {
    /// A page request for `page` with `per_page` items per page.
    pub fn new(page: u64, per_page: u64) -> (p: Self)
        ensures
            p.page == page,
            p.per_page == per_page,
    {
        Pagination { page, per_page }
    }
}

impl Default for Pagination {
    /// The first page, with 25 items per page.
    fn default() -> (p: Self)
        ensures
            p.page == 1,
            p.per_page == 25,
    {
        Pagination { page: 1, per_page: 25 }
    }
}

/// Whether `c` is an ASCII letter.
pub open spec fn is_ascii_letter(c: char) -> bool {
    ('a' <= c && c <= 'z') || ('A' <= c && c <= 'Z')
}

/// Whether `c` is an ASCII decimal digit.
pub open spec fn is_ascii_digit(c: char) -> bool {
    '0' <= c && c <= '9'
}

/// Whether `s` may be spliced into SQL as a bare table or column name: it is not
/// empty, starts with an ASCII letter or an underscore, and holds only ASCII letters,
/// digits and underscores.
pub open spec fn is_sql_identifier(s: Seq<char>) -> bool {
    &&& s.len() > 0
    &&& (is_ascii_letter(s[0]) || s[0] == '_')
    &&& forall|i: int|
        0 <= i < s.len() ==> (is_ascii_letter(#[trigger] s[i]) || is_ascii_digit(s[i]) || s[i]
            == '_')
}

/// Checks that `name` is a safe SQL identifier (see [`is_sql_identifier`]), so that it
/// can be spliced into a statement. The error names the refused identifier.
pub fn validate_sql_identifier(name: &str) -> (r: Result<(), Error>)
    ensures
        r is Ok <==> is_sql_identifier(name@),
        r matches Err(e) ==> (e matches Error::SchemaError(m) && m@ == "invalid SQL identifier: "@
            + name@),
{
    let cs = chars_of(name);
    let err = Err(Error::SchemaError(concat2("invalid SQL identifier: ", name)));
    if cs.len() == 0 {
        return err;
    }
    let c0 = cs[0];
    if !(('a' <= c0 && c0 <= 'z') || ('A' <= c0 && c0 <= 'Z') || c0 == '_') {
        return err;
    }
    for i in 0..cs.len()
        invariant
            cs@ == name@,
            err matches Err(e) && e matches Error::SchemaError(m) && m@ == "invalid SQL identifier: "@
                + name@,
            forall|k: int|
                0 <= k < i ==> (is_ascii_letter(#[trigger] cs@[k]) || is_ascii_digit(cs@[k])
                    || cs@[k] == '_'),
    {
        let c = cs[i];
        if !(('a' <= c && c <= 'z') || ('A' <= c && c <= 'Z') || ('0' <= c && c <= '9') || c
            == '_') {
            return err;
        }
    }
    Ok(())
}

} // verus!
