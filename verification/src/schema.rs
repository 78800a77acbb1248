//! The registry of all entity schemas of an application.
use vstd::prelude::*;

use crate::entity::{SchemaInfo, SchemaInfoModel, clone_schemas, schemas_model};

verus! {

/// Whether no two schemas of `s` share a table name.
pub open spec fn distinct_tables(s: Seq<SchemaInfoModel>) -> bool {
    forall|i: int, j: int|
        0 <= i < j < s.len() ==> (#[trigger] s[i]).table_name != (#[trigger] s[j]).table_name
}

/// Whether some schema of `s` is for the table `name`.
pub open spec fn has_table(s: Seq<SchemaInfoModel>, name: Seq<char>) -> bool {
    exists|i: int| 0 <= i < s.len() && (#[trigger] s[i]).table_name == name
}

/// The registry after registering `schema`: unchanged when a schema for the same
/// table is already registered, otherwise with `schema` appended.
pub open spec fn registered(s: Seq<SchemaInfoModel>, schema: SchemaInfoModel) -> Seq<
    SchemaInfoModel,
> {
    if has_table(s, schema.table_name) {
        s
    } else {
        s.push(schema)
    }
}

/// Global registry of all schemas defined in the application, in registration
/// order, at most one per table name.
pub struct SchemaRegistry {
    schemas: Vec<SchemaInfo>,
}

impl View for SchemaRegistry {
    type V = Seq<SchemaInfoModel>;

    closed spec fn view(&self) -> Seq<SchemaInfoModel> {
        schemas_model(self.schemas@)
    }
}

impl SchemaRegistry {
    #[verifier::type_invariant]
    closed spec fn tables_are_distinct(self) -> bool {
        distinct_tables(schemas_model(self.schemas@))
    }

    /// Creates a new, empty registry.
    #[must_use]
    pub fn new() -> (r: Self)
        ensures
            r@ == Seq::<SchemaInfoModel>::empty(),
    {
        let r = SchemaRegistry { schemas: Vec::new() };
        assert(schemas_model(r.schemas@) =~= Seq::<SchemaInfoModel>::empty());
        r
    }

    /// Registers a new schema; a schema for an already registered table is skipped.
    pub fn register(&mut self, schema: SchemaInfo)
        ensures
            final(self)@ == registered(old(self)@, schema@),
    {
        proof {
            use_type_invariant(&*self);
        }
        let ghost before = self@;
        let n = self.schemas.len();
        for i in 0..n
            invariant
                n == self.schemas.len(),
                before == schemas_model(self.schemas@),
                forall|k: int| 0 <= k < i ==> (#[trigger] before[k]).table_name != schema@.table_name,
        {
            if self.schemas[i].table_name == schema.table_name {
                assert(before[i as int].table_name == schema@.table_name);
                return;
            }
        }
        let mut v = Vec::new();
        std::mem::swap(&mut v, &mut self.schemas);
        v.push(schema);
        assert(schemas_model(v@) =~= before.push(schema@));
        self.schemas = v;
    }

    /// Returns a copy of all registered schemas, in registration order.
    pub fn all_schemas(&self) -> (r: Vec<SchemaInfo>)
        ensures
            schemas_model(r@) == self@,
    {
        clone_schemas(&self.schemas)
    }
}

impl Default for SchemaRegistry {
    fn default() -> (r: Self)
        ensures
            r@ == Seq::<SchemaInfoModel>::empty(),
    {
        Self::new()
    }
}

/// Registering is idempotent: registering the same schema twice leaves the registry
/// as registering it once does.
pub proof fn law_register_idempotent(s: Seq<SchemaInfoModel>, schema: SchemaInfoModel)
    ensures
        registered(registered(s, schema), schema) == registered(s, schema),
{
    if !has_table(s, schema.table_name) {
        let t = s.push(schema);
        assert(t[s.len() as int].table_name == schema.table_name);
    }
}

/// Registering keeps table names distinct, and afterwards the table is registered.
pub proof fn law_register_keeps_tables_distinct(s: Seq<SchemaInfoModel>, schema: SchemaInfoModel)
    requires
        distinct_tables(s),
    ensures
        distinct_tables(registered(s, schema)),
        has_table(registered(s, schema), schema.table_name),
{
    if !has_table(s, schema.table_name) {
        let t = s.push(schema);
        assert(t[s.len() as int].table_name == schema.table_name);
    }
}

} // verus!
