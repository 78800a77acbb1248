//! # Schema Diff Engine
//!
//! Compares declarative entity schemas against the physical `SQLite` schema and
//! synthesizes the migration steps, ordered so that a table is created after the
//! tables it links to, and renders them as forward and rollback SQL.
use vstd::prelude::*;

use crate::entity::{
    clone_fields, fields_model, constraints_model, ConstraintModel, Constraint, FieldInfo,
    FieldInfoModel, FieldType, FieldTypeModel, SchemaInfo, SchemaInfoModel, schemas_model,
};
use crate::introspect::IntrospectedTable;
use crate::text::{chars_of, push_char, str_eq};

verus! {

/// A discrete schema change operation required to transition the database state
/// closer to the expected entity declarations.
#[derive(Debug, PartialEq)]
pub enum MigrationOp {
    CreateTable { name: String, columns: Vec<FieldInfo> },
    AlterTableAddColumn { table_name: String, column: FieldInfo },
    DropColumn { table_name: String, column_name: String },
    DropTable { name: String },
}

/// The mathematical value of a [`MigrationOp`].
pub enum MigrationOpModel {
    CreateTable { name: Seq<char>, columns: Seq<FieldInfoModel> },
    AlterTableAddColumn { table_name: Seq<char>, column: FieldInfoModel },
    DropColumn { table_name: Seq<char>, column_name: Seq<char> },
    DropTable { name: Seq<char> },
}

impl View for MigrationOp {
    type V = MigrationOpModel;

    open spec fn view(&self) -> MigrationOpModel {
        match self {
            MigrationOp::CreateTable { name, columns } => MigrationOpModel::CreateTable {
                name: name@,
                columns: fields_model(columns@),
            },
            MigrationOp::AlterTableAddColumn { table_name, column } =>
                MigrationOpModel::AlterTableAddColumn { table_name: table_name@, column: column@ },
            MigrationOp::DropColumn { table_name, column_name } => MigrationOpModel::DropColumn {
                table_name: table_name@,
                column_name: column_name@,
            },
            MigrationOp::DropTable { name } => MigrationOpModel::DropTable { name: name@ },
        }
    }
}

impl Clone for MigrationOp {
    fn clone(&self) -> (r: Self)
        ensures
            r@ == self@,
    {
        match self {
            MigrationOp::CreateTable { name, columns } => MigrationOp::CreateTable {
                name: name.clone(),
                columns: clone_fields(columns),
            },
            MigrationOp::AlterTableAddColumn { table_name, column } =>
                MigrationOp::AlterTableAddColumn {
                table_name: table_name.clone(),
                column: column.clone(),
            },
            MigrationOp::DropColumn { table_name, column_name } => MigrationOp::DropColumn {
                table_name: table_name.clone(),
                column_name: column_name.clone(),
            },
            MigrationOp::DropTable { name } => MigrationOp::DropTable { name: name.clone() },
        }
    }
}

/// The values of a sequence of operations.
pub open spec fn ops_model(s: Seq<MigrationOp>) -> Seq<MigrationOpModel> {
    s.map_values(|o: MigrationOp| o@)
}

/// The table that an operation targets.
pub open spec fn op_table(op: MigrationOpModel) -> Seq<char> {
    match op {
        MigrationOpModel::CreateTable { name, .. } => name,
        MigrationOpModel::AlterTableAddColumn { table_name, .. } => table_name,
        MigrationOpModel::DropColumn { table_name, .. } => table_name,
        MigrationOpModel::DropTable { name } => name,
    }
}

impl MigrationOp {
    /// Extracts the primary table name targeted by this operation.
    pub fn table_name(&self) -> (r: &str)
        ensures
            r@ == op_table(self@),
    {
        match self {
            MigrationOp::CreateTable { name, .. } => name.as_str(),
            MigrationOp::DropTable { name } => name.as_str(),
            MigrationOp::AlterTableAddColumn { table_name, .. } => table_name.as_str(),
            MigrationOp::DropColumn { table_name, .. } => table_name.as_str(),
        }
    }
}

// ---------------------------------------------------------------------------
// SQL rendering
// ---------------------------------------------------------------------------

/// The SQL storage class of a field type.
pub open spec fn type_sql(t: FieldTypeModel) -> Seq<char> {
    match t {
        FieldTypeModel::Integer | FieldTypeModel::Boolean => "INTEGER"@,
        FieldTypeModel::Float => "REAL"@,
        _ => "TEXT"@,
    }
}

/// A text made fit to stand inside an SQL string literal: each `'` is doubled.
pub open spec fn escape_quotes(v: Seq<char>) -> Seq<char>
    decreases v.len(),
{
    if v.len() == 0 {
        Seq::empty()
    } else if v.last() == '\'' {
        escape_quotes(v.drop_last()) + seq!['\'', '\'']
    } else {
        escape_quotes(v.drop_last()).push(v.last())
    }
}

/// The SQL text of one constraint, with its leading space; a default value is written
/// as one SQL string literal.
pub open spec fn constraint_sql(c: ConstraintModel) -> Seq<char> {
    match c {
        ConstraintModel::NotNull => " NOT NULL"@,
        ConstraintModel::Unique => " UNIQUE"@,
        ConstraintModel::Default(v) => " DEFAULT '"@ + escape_quotes(v) + "'"@,
    }
}

/// The SQL text of a list of constraints, in their order.
pub open spec fn constraints_sql(cs: Seq<ConstraintModel>) -> Seq<char>
    decreases cs.len(),
{
    if cs.len() == 0 {
        Seq::empty()
    } else {
        constraints_sql(cs.drop_last()) + constraint_sql(cs.last())
    }
}

/// The foreign-key clause of a field: present for links only.
pub open spec fn reference_sql(t: FieldTypeModel) -> Seq<char> {
    match t {
        FieldTypeModel::Link { target } => " REFERENCES "@ + target + "(id)"@,
        _ => Seq::empty(),
    }
}

/// A column definition: name, storage class, constraints, then the foreign key.
pub open spec fn field_sql(f: FieldInfoModel) -> Seq<char> {
    f.name + " "@ + type_sql(f.field_type) + constraints_sql(f.constraints) + reference_sql(
        f.field_type,
    )
}

fn push_str(s: &mut String, t: &str)
    ensures
        final(s)@ == old(s)@ + t@,
{
    s.append(t);
}

/// Appends `v` with each `'` doubled.
fn push_escaped(s: &mut String, v: &str)
    ensures
        final(s)@ == old(s)@ + escape_quotes(v@),
{
    let cs = chars_of(v);
    let ghost start = s@;
    for k in 0..cs.len()
        invariant
            s@ == start + escape_quotes(cs@.take(k as int)),
    {
        assert(cs@.take(k + 1).drop_last() == cs@.take(k as int));
        assert(cs@.take(k + 1).last() == cs@[k as int]);
        if cs[k] == '\'' {
            push_char(s, '\'');
            push_char(s, '\'');
            assert(s@ == start + escape_quotes(cs@.take(k as int)) + seq!['\'', '\'']);
        } else {
            push_char(s, cs[k]);
        }
    }
    assert(cs@.take(cs.len() as int) == cs@);
}

/// Renders the SQL column definition of a field.
fn field_to_sql_definition(field: &FieldInfo) -> (def: String)
    ensures
        def@ == field_sql(field@),
{
    let type_sql = match &field.field_type {
        FieldType::Integer | FieldType::Boolean => "INTEGER",
        FieldType::Float => "REAL",
        _ => "TEXT",
    };
    let mut def = field.name.clone();
    push_str(&mut def, " ");
    push_str(&mut def, type_sql);
    let ghost prefix = def@;
    let cs = &field.constraints;
    for i in 0..cs.len()
        invariant
            def@ == prefix + constraints_sql(constraints_model(cs@.take(i as int))),
    {
        let ghost before = constraints_model(cs@.take(i as int));
        match &cs[i] {
            Constraint::NotNull => push_str(&mut def, " NOT NULL"),
            Constraint::Unique => push_str(&mut def, " UNIQUE"),
            Constraint::Default(val) => {
                push_str(&mut def, " DEFAULT '");
                push_escaped(&mut def, val.as_str());
                push_str(&mut def, "'");
            },
        }
        assert(constraints_model(cs@.take(i + 1)).drop_last() == before);
    }
    assert(cs@.take(cs.len() as int) == cs@);
    if let FieldType::Link { target } = &field.field_type {
        push_str(&mut def, " REFERENCES ");
        push_str(&mut def, target.as_str());
        push_str(&mut def, "(id)");
    }
    def
}

/// The column lines of a `CREATE TABLE` for the declared columns: many-to-many fields
/// are left out (they are junction tables), and so are the columns that every table
/// has already (`id`, `created_at`, `updated_at`), so that no column is declared twice.
pub open spec fn create_columns_sql(cols: Seq<FieldInfoModel>) -> Seq<char>
    decreases cols.len(),
{
    if cols.len() == 0 {
        Seq::empty()
    } else {
        create_columns_sql(cols.drop_last()) + if cols.last().field_type is ManyToMany
            || is_core_column(cols.last().name) {
            Seq::empty()
        } else {
            "    "@ + field_sql(cols.last()) + ",\n"@
        }
    }
}

/// The forward SQL of one operation.
pub open spec fn op_up_sql(op: MigrationOpModel) -> Seq<char> {
    match op {
        MigrationOpModel::CreateTable { name, columns } => "CREATE TABLE "@ + name + " (\n"@
            + "    id TEXT PRIMARY KEY,\n"@ + create_columns_sql(columns)
            + "    created_at TEXT DEFAULT (datetime('now')),\n"@
            + "    updated_at TEXT DEFAULT (datetime('now'))\n"@ + ");\n"@,
        MigrationOpModel::AlterTableAddColumn { table_name, column } => "ALTER TABLE "@
            + table_name + " ADD COLUMN "@ + field_sql(column) + ";\n"@,
        MigrationOpModel::DropColumn { table_name, column_name } => "ALTER TABLE "@ + table_name
            + " DROP COLUMN "@ + column_name + ";\n"@,
        MigrationOpModel::DropTable { name } => "DROP TABLE "@ + name + ";\n"@,
    }
}

/// The rollback SQL of one operation; dropped data cannot be restored, so those
/// operations leave a comment that asks for a manual rollback.
pub open spec fn op_down_sql(op: MigrationOpModel) -> Seq<char> {
    match op {
        MigrationOpModel::CreateTable { name, .. } => "DROP TABLE "@ + name + ";\n"@,
        MigrationOpModel::AlterTableAddColumn { table_name, column } => "ALTER TABLE "@
            + table_name + " DROP COLUMN "@ + column.name + ";\n"@,
        MigrationOpModel::DropColumn { table_name, column_name } =>
            "-- TODO: Manual rollback needed for DropColumn "@ + column_name + " on "@ + table_name
            + "\n"@,
        MigrationOpModel::DropTable { name } => "-- TODO: Manual rollback needed for DropTable "@
            + name + "\n"@,
    }
}

/// The forward SQL of a sequence of operations, in their order.
pub open spec fn up_sql(ops: Seq<MigrationOpModel>) -> Seq<char>
    decreases ops.len(),
{
    if ops.len() == 0 {
        Seq::empty()
    } else {
        up_sql(ops.drop_last()) + op_up_sql(ops.last())
    }
}

/// The rollback SQL of a sequence of operations, in their order.
pub open spec fn down_sql(ops: Seq<MigrationOpModel>) -> Seq<char>
    decreases ops.len(),
{
    if ops.len() == 0 {
        Seq::empty()
    } else {
        down_sql(ops.drop_last()) + op_down_sql(ops.last())
    }
}

/// Each operation contributes its own forward and rollback SQL, in the order of the
/// operations: the SQL of two sequences run one after the other is the SQL of the
/// first followed by that of the second, and no operations give no SQL.
pub proof fn law_migration_sql_concat(a: Seq<MigrationOpModel>, b: Seq<MigrationOpModel>)
    ensures
        up_sql(a + b) == up_sql(a) + up_sql(b),
        down_sql(a + b) == down_sql(a) + down_sql(b),
        up_sql(Seq::empty()) == Seq::<char>::empty(),
        down_sql(Seq::empty()) == Seq::<char>::empty(),
    decreases b.len(),
{
    if b.len() == 0 {
        assert(a + b =~= a);
    } else {
        law_migration_sql_concat(a, b.drop_last());
        assert((a + b).drop_last() =~= a + b.drop_last());
        assert((a + b).last() == b.last());
    }
}

fn push_create_columns(up: &mut String, columns: &Vec<FieldInfo>)
    ensures
        final(up)@ == old(up)@ + create_columns_sql(fields_model(columns@)),
{
    let ghost start = up@;
    for j in 0..columns.len()
        invariant
            up@ == start + create_columns_sql(fields_model(columns@.take(j as int))),
    {
        let ghost done = fields_model(columns@.take(j as int));
        let col = &columns[j];
        if !matches!(col.field_type, FieldType::ManyToMany { .. }) && !core_column(&col.name) {
            let col_sql = field_to_sql_definition(col);
            push_str(up, "    ");
            push_str(up, col_sql.as_str());
            push_str(up, ",\n");
        }
        assert(fields_model(columns@.take(j + 1)).drop_last() == done);
    }
    assert(columns@.take(columns.len() as int) == columns@);
}

fn push_op_up(up: &mut String, op: &MigrationOp)
    ensures
        final(up)@ == old(up)@ + op_up_sql(op@),
{
    match op {
        MigrationOp::CreateTable { name, columns } => {
            push_str(up, "CREATE TABLE ");
            push_str(up, name.as_str());
            push_str(up, " (\n");
            push_str(up, "    id TEXT PRIMARY KEY,\n");
            push_create_columns(up, columns);
            push_str(up, "    created_at TEXT DEFAULT (datetime('now')),\n");
            push_str(up, "    updated_at TEXT DEFAULT (datetime('now'))\n");
            push_str(up, ");\n");
        },
        MigrationOp::AlterTableAddColumn { table_name, column } => {
            let col_sql = field_to_sql_definition(column);
            push_str(up, "ALTER TABLE ");
            push_str(up, table_name.as_str());
            push_str(up, " ADD COLUMN ");
            push_str(up, col_sql.as_str());
            push_str(up, ";\n");
        },
        MigrationOp::DropColumn { table_name, column_name } => {
            push_str(up, "ALTER TABLE ");
            push_str(up, table_name.as_str());
            push_str(up, " DROP COLUMN ");
            push_str(up, column_name.as_str());
            push_str(up, ";\n");
        },
        MigrationOp::DropTable { name } => {
            push_str(up, "DROP TABLE ");
            push_str(up, name.as_str());
            push_str(up, ";\n");
        },
    }
}

fn push_op_down(down: &mut String, op: &MigrationOp)
    ensures
        final(down)@ == old(down)@ + op_down_sql(op@),
{
    match op {
        MigrationOp::CreateTable { name, .. } => {
            push_str(down, "DROP TABLE ");
            push_str(down, name.as_str());
            push_str(down, ";\n");
        },
        MigrationOp::AlterTableAddColumn { table_name, column } => {
            push_str(down, "ALTER TABLE ");
            push_str(down, table_name.as_str());
            push_str(down, " DROP COLUMN ");
            push_str(down, column.name.as_str());
            push_str(down, ";\n");
        },
        MigrationOp::DropColumn { table_name, column_name } => {
            push_str(down, "-- TODO: Manual rollback needed for DropColumn ");
            push_str(down, column_name.as_str());
            push_str(down, " on ");
            push_str(down, table_name.as_str());
            push_str(down, "\n");
        },
        MigrationOp::DropTable { name } => {
            push_str(down, "-- TODO: Manual rollback needed for DropTable ");
            push_str(down, name.as_str());
            push_str(down, "\n");
        },
    }
}

/// Transforms a sequence of migration operations into raw SQL statements: the
/// `(up_sql, down_sql)` pair of forward and rollback query batches.
pub fn generate_migration_sql(ops: &[MigrationOp]) -> (r: (String, String))
    ensures
        r.0@ == up_sql(ops_model(ops@)),
        r.1@ == down_sql(ops_model(ops@)),
{
    let mut up = String::new();
    let mut down = String::new();
    for i in 0..ops.len()
        invariant
            up@ == up_sql(ops_model(ops@.take(i as int))),
            down@ == down_sql(ops_model(ops@.take(i as int))),
    {
        let ghost prev = ops_model(ops@.take(i as int));
        push_op_up(&mut up, &ops[i]);
        push_op_down(&mut down, &ops[i]);
        assert(ops_model(ops@.take(i + 1)).drop_last() == prev);
    }
    assert(ops@.take(ops.len() as int) == ops@);
    (up, down)
}

// ---------------------------------------------------------------------------
// Dependency order of table creation
// ---------------------------------------------------------------------------

/// Whether a field type is a link to the table `name`.
pub open spec fn is_link_to(t: FieldTypeModel, name: Seq<char>) -> bool {
    match t {
        FieldTypeModel::Link { target } => target == name,
        _ => false,
    }
}

/// Whether `op` creates a table with a link column to the table `name`.
pub open spec fn op_links_to(op: MigrationOpModel, name: Seq<char>) -> bool {
    match op {
        MigrationOpModel::CreateTable { columns, .. } => exists|c: int|
            0 <= c < columns.len() && is_link_to((#[trigger] columns[c]).field_type, name),
        _ => false,
    }
}

/// Whether `ops[i]` must come after `ops[j]`: it creates a table that links to the
/// table of `ops[j]`.
pub open spec fn depends_on(ops: Seq<MigrationOpModel>, i: int, j: int) -> bool {
    op_links_to(ops[i], op_table(ops[j]))
}

/// Whether `ops[i]` can be placed within `k` rounds: every operation that it depends
/// on can be placed within `k - 1` rounds. An operation on a dependency cycle (or
/// depending on one) is never settled.
pub open spec fn settled(ops: Seq<MigrationOpModel>, k: nat, i: int) -> bool
    decreases k,
{
    k > 0 && forall|j: int|
        0 <= j < ops.len() && #[trigger] depends_on(ops, i, j) ==> settled(ops, (k - 1) as nat, j)
}

/// The first round `r >= from` in which `ops[i]` is settled (`settled(ops, r + 1, i)`),
/// or `ops.len()` when there is none.
pub open spec fn rank_from(ops: Seq<MigrationOpModel>, i: int, from: nat) -> nat
    decreases ops.len() - from,
{
    if from >= ops.len() {
        ops.len()
    } else if settled(ops, from + 1, i) {
        from
    } else {
        rank_from(ops, i, from + 1)
    }
}

/// The round in which `ops[i]` is placed; operations that never settle get `ops.len()`.
pub open spec fn rank(ops: Seq<MigrationOpModel>, i: int) -> nat {
    rank_from(ops, i, 0)
}

/// The indices below `m`, in increasing order, of the operations placed in round `r`.
pub open spec fn indices_of_rank(ops: Seq<MigrationOpModel>, r: nat, m: int) -> Seq<int>
    decreases m,
{
    if m <= 0 {
        Seq::empty()
    } else {
        indices_of_rank(ops, r, m - 1) + if rank(ops, m - 1) == r {
            seq![m - 1]
        } else {
            Seq::empty()
        }
    }
}

/// The indices of rounds `0 .. r`, round after round.
pub open spec fn order_upto(ops: Seq<MigrationOpModel>, r: nat) -> Seq<int>
    decreases r,
{
    if r == 0 {
        Seq::empty()
    } else {
        order_upto(ops, (r - 1) as nat) + indices_of_rank(ops, (r - 1) as nat, ops.len() as int)
    }
}

/// The placement order: every index once, by round and, within a round, by position.
pub open spec fn layered_order(ops: Seq<MigrationOpModel>) -> Seq<int> {
    order_upto(ops, (ops.len() + 1) as nat)
}

/// The operations arranged in placement order: a table is created after the tables
/// it links to; tables on a dependency cycle come last, in their given order.
pub open spec fn layered(ops: Seq<MigrationOpModel>) -> Seq<MigrationOpModel> {
    layered_order(ops).map_values(|i: int| ops[i])
}

/// Whether `op` creates a table with a link column to `name`.
#[verifier::loop_isolation(false)]
fn links_to(op: &MigrationOp, name: &str) -> (b: bool)
    ensures
        b == op_links_to(op@, name@),
{
    match op {
        MigrationOp::CreateTable { columns, .. } => {
            let ghost cols = fields_model(columns@);
            assert(cols.len() == columns@.len());
            for c in 0..columns.len()
                invariant
                    cols == fields_model(columns@),
                    cols.len() == columns@.len(),
                    forall|k: int| 0 <= k < c ==> !is_link_to((#[trigger] cols[k]).field_type, name@),
            {
                if let FieldType::Link { target } = &columns[c].field_type {
                    if str_eq(target.as_str(), name) {
                        assert(is_link_to(cols[c as int].field_type, name@));
                        return true;
                    }
                }
            }
            false
        },
        _ => false,
    }
}

proof fn lemma_settled_monotonic(ops: Seq<MigrationOpModel>, k: nat)
    ensures
        forall|i: int| #[trigger] settled(ops, k, i) ==> settled(ops, k + 1, i),
    decreases k,
{
    if k > 0 {
        lemma_settled_monotonic(ops, (k - 1) as nat);
        assert forall|i: int| #[trigger] settled(ops, k, i) implies settled(ops, k + 1, i) by {
            assert forall|j: int|
                0 <= j < ops.len() && #[trigger] depends_on(ops, i, j) implies settled(
                ops,
                k,
                j,
            ) by {
                assert(settled(ops, (k - 1) as nat, j));
            }
        }
    }
}

proof fn lemma_settled_monotonic_le(ops: Seq<MigrationOpModel>, k1: nat, k2: nat, i: int)
    requires
        k1 <= k2,
        settled(ops, k1, i),
    ensures
        settled(ops, k2, i),
    decreases k2 - k1,
{
    if k1 < k2 {
        lemma_settled_monotonic(ops, k1);
        lemma_settled_monotonic_le(ops, k1 + 1, k2, i);
    }
}

proof fn lemma_rank_from(ops: Seq<MigrationOpModel>, i: int, from: nat)
    requires
        from <= ops.len(),
        !settled(ops, from, i),
    ensures
        from <= rank_from(ops, i, from) <= ops.len(),
        forall|r: nat|
            from <= r <= ops.len() ==> (settled(ops, r, i) <==> rank_from(ops, i, from) < r),
    decreases ops.len() - from,
{
    if from < ops.len() {
        if settled(ops, from + 1, i) {
            assert forall|r: nat| from <= r <= ops.len() implies (settled(ops, r, i) <==> from
                < r) by {
                if from < r {
                    lemma_settled_monotonic_le(ops, from + 1, r, i);
                }
            }
        } else {
            lemma_rank_from(ops, i, from + 1);
        }
    }
}

/// The round of `ops[i]` compared with the number of rounds that settle it.
pub proof fn lemma_rank(ops: Seq<MigrationOpModel>, i: int)
    ensures
        rank(ops, i) <= ops.len(),
        forall|r: nat| r <= ops.len() ==> (settled(ops, r, i) <==> rank(ops, i) < r),
{
    lemma_rank_from(ops, i, 0);
}

/// The dependency matrix: `dep[i][j]` when `ops[i]` must come after `ops[j]`.
fn dependency_matrix(ops: &Vec<MigrationOp>) -> (dep: Vec<Vec<bool>>)
    ensures
        dep@.len() == ops.len(),
        forall|a: int| 0 <= a < ops.len() ==> (#[trigger] dep@[a])@.len() == ops.len(),
        forall|a: int, b: int|
            0 <= a < ops.len() && 0 <= b < ops.len() ==> (#[trigger] dep@[a]@[b] <==> depends_on(
                ops_model(ops@),
                a,
                b,
            )),
{
    let ghost m = ops_model(ops@);
    let n = ops.len();
    let mut dep: Vec<Vec<bool>> = Vec::new();
    for i in 0..n
        invariant
            n == ops.len(),
            m == ops_model(ops@),
            dep@.len() == i,
            forall|a: int| 0 <= a < i ==> (#[trigger] dep@[a])@.len() == n,
            forall|a: int, b: int|
                0 <= a < i && 0 <= b < n ==> (#[trigger] dep@[a]@[b] <==> depends_on(m, a, b)),
    {
        let mut row: Vec<bool> = Vec::new();
        for j in 0..n
            invariant
                n == ops.len(),
                m == ops_model(ops@),
                i < n,
                row@.len() == j,
                forall|b: int| 0 <= b < j ==> (#[trigger] row@[b] <==> depends_on(m, i as int, b)),
        {
            let b = links_to(&ops[i], ops[j].table_name());
            row.push(b);
        }
        dep.push(row);
        assert(dep@[i as int] == row);
    }
    dep
}

/// Whether every operation that `ops[a]` depends on is settled, given the settled
/// flags of the previous round.
fn all_deps_settled(dep: &Vec<Vec<bool>>, settled_now: &Vec<bool>, a: usize, Ghost(m): Ghost<
    Seq<MigrationOpModel>,
>, Ghost(r): Ghost<nat>) -> (ok: bool)
    requires
        a < m.len(),
        dep@.len() == m.len(),
        settled_now@.len() == m.len(),
        forall|x: int| 0 <= x < m.len() ==> (#[trigger] dep@[x])@.len() == m.len(),
        forall|x: int, y: int|
            0 <= x < m.len() && 0 <= y < m.len() ==> (#[trigger] dep@[x]@[y] <==> depends_on(
                m,
                x,
                y,
            )),
        forall|x: int| 0 <= x < m.len() ==> (#[trigger] settled_now@[x] <==> settled(m, r, x)),
    ensures
        ok <==> settled(m, r + 1, a as int),
{
    let n = settled_now.len();
    let mut ok = true;
    for b in 0..n
        invariant
            n == m.len(),
            a < n,
            dep@.len() == n,
            settled_now@.len() == n,
            dep@[a as int]@.len() == n,
            forall|x: int, y: int|
                0 <= x < n && 0 <= y < n ==> (#[trigger] dep@[x]@[y] <==> depends_on(m, x, y)),
            forall|x: int| 0 <= x < n ==> (#[trigger] settled_now@[x] <==> settled(m, r, x)),
            ok <==> forall|y: int|
                0 <= y < b && #[trigger] depends_on(m, a as int, y) ==> settled(m, r, y),
    {
        if dep[a][b] && !settled_now[b] {
            ok = false;
        }
    }
    ok
}

/// Appends, in their given order, the operations of round `r`.
fn push_round(sorted: &mut Vec<MigrationOp>, ops: &Vec<MigrationOp>, rk: &Vec<usize>, r: usize)
    requires
        rk@.len() == ops.len(),
        forall|a: int| 0 <= a < ops.len() ==> #[trigger] rk@[a] == rank(ops_model(ops@), a),
    ensures
        ops_model(final(sorted)@) == ops_model(old(sorted)@) + indices_of_rank(
            ops_model(ops@),
            r as nat,
            ops.len() as int,
        ).map_values(|x: int| ops_model(ops@)[x]),
{
    let ghost m = ops_model(ops@);
    let ghost before = ops_model(sorted@);
    let n = ops.len();
    for i in 0..n
        invariant
            n == ops.len(),
            m == ops_model(ops@),
            rk@.len() == n,
            forall|a: int| 0 <= a < n ==> #[trigger] rk@[a] == rank(m, a),
            ops_model(sorted@) == before + indices_of_rank(m, r as nat, i as int).map_values(
                |x: int| m[x],
            ),
    {
        let ghost prev = ops_model(sorted@);
        if rk[i] == r {
            let op = ops[i].clone();
            sorted.push(op);
            assert(ops_model(sorted@) =~= prev.push(m[i as int]));
        }
        assert(indices_of_rank(m, r as nat, i + 1).map_values(|x: int| m[x])
            =~= indices_of_rank(m, r as nat, i as int).map_values(|x: int| m[x]) + if rank(
            m,
            i as int,
        ) == r {
            seq![m[i as int]]
        } else {
            Seq::empty()
        });
    }
}

/// Orders table creations so that a created table comes after the created tables
/// it links to: the operations are placed round by round, each round taking, in
/// their given order, those whose link targets were all placed in earlier
/// rounds; operations caught in a dependency cycle come last in their given order.
fn sort_creates_by_dependency(ops: Vec<MigrationOp>) -> (sorted: Vec<MigrationOp>)
    ensures
        ops_model(sorted@) == layered(ops_model(ops@)),
{
    let ghost m = ops_model(ops@);
    let n = ops.len();
    assert(m.len() == n);
    let dep = dependency_matrix(&ops);
    // the round of each operation, found round by round
    let mut settled_now: Vec<bool> = Vec::new();
    let mut rk: Vec<usize> = Vec::new();
    for i in 0..n
        invariant
            settled_now@.len() == i,
            rk@.len() == i,
            forall|a: int| 0 <= a < i ==> !(#[trigger] settled_now@[a]),
            forall|a: int| 0 <= a < i ==> #[trigger] rk@[a] == n,
    {
        settled_now.push(false);
        rk.push(n);
    }
    assert forall|a: int| 0 <= a < n implies (#[trigger] rk@[a] == if settled(m, 0, a) {
        rank(m, a)
    } else {
        n as nat
    }) by {
        assert(!settled(m, 0, a));
    }
    for r in 0..n
        invariant
            n == ops.len(),
            m == ops_model(ops@),
            m.len() == n,
            dep@.len() == n,
            forall|a: int| 0 <= a < n ==> (#[trigger] dep@[a])@.len() == n,
            forall|a: int, b: int|
                0 <= a < n && 0 <= b < n ==> (#[trigger] dep@[a]@[b] <==> depends_on(m, a, b)),
            settled_now@.len() == n,
            rk@.len() == n,
            forall|a: int| 0 <= a < n ==> (#[trigger] settled_now@[a] <==> settled(m, r as nat, a)),
            forall|a: int|
                0 <= a < n ==> (#[trigger] rk@[a] == if settled(m, r as nat, a) {
                    rank(m, a)
                } else {
                    n as nat
                }),
    {
        let mut next: Vec<bool> = Vec::new();
        for a in 0..n
            invariant
                n == ops.len(),
                m == ops_model(ops@),
                dep@.len() == n,
                forall|x: int| 0 <= x < n ==> (#[trigger] dep@[x])@.len() == n,
                forall|x: int, y: int|
                    0 <= x < n && 0 <= y < n ==> (#[trigger] dep@[x]@[y] <==> depends_on(m, x, y)),
                settled_now@.len() == n,
                forall|x: int|
                    0 <= x < n ==> (#[trigger] settled_now@[x] <==> settled(m, r as nat, x)),
                next@.len() == a,
                forall|x: int|
                    0 <= x < a ==> (#[trigger] next@[x] <==> settled(m, (r + 1) as nat, x)),
        {
            let ok = all_deps_settled(&dep, &settled_now, a, Ghost(m), Ghost(r as nat));
            next.push(ok);
        }
        for a in 0..n
            invariant
                n == ops.len(),
                m == ops_model(ops@),
                m.len() == n,
                r < n,
                rk@.len() == n,
                next@.len() == n,
                forall|x: int|
                    0 <= x < n ==> (#[trigger] next@[x] <==> settled(m, (r + 1) as nat, x)),
                forall|x: int|
                    a <= x < n ==> (#[trigger] rk@[x] == if settled(m, r as nat, x) {
                        rank(m, x)
                    } else {
                        n as nat
                    }),
                forall|x: int|
                    0 <= x < a ==> (#[trigger] rk@[x] == if settled(m, (r + 1) as nat, x) {
                        rank(m, x)
                    } else {
                        n as nat
                    }),
        {
            proof {
                lemma_rank(m, a as int);
                lemma_settled_monotonic(m, r as nat);
                assert(settled(m, r as nat, a as int) <==> rank(m, a as int) < r);
                assert(settled(m, (r + 1) as nat, a as int) <==> rank(m, a as int) < r + 1);
            }
            if next[a] && rk[a] == n {
                rk.set(a, r);
            }
        }
        settled_now = next;
    }
    proof {
        assert forall|a: int| 0 <= a < n implies #[trigger] rk@[a] == rank(m, a) by {
            lemma_rank(m, a);
        }
    }
    // emit round by round
    let mut sorted: Vec<MigrationOp> = Vec::new();
    for r in 0..n
        invariant
            n == ops.len(),
            m == ops_model(ops@),
            rk@.len() == n,
            forall|a: int| 0 <= a < n ==> #[trigger] rk@[a] == rank(m, a),
            ops_model(sorted@) == order_upto(m, r as nat).map_values(|x: int| m[x]),
    {
        push_round(&mut sorted, &ops, &rk, r);
        assert(order_upto(m, (r + 1) as nat).map_values(|x: int| m[x]) =~= order_upto(
            m,
            r as nat,
        ).map_values(|x: int| m[x]) + indices_of_rank(m, r as nat, n as int).map_values(
            |x: int| m[x],
        ));
    }
    push_round(&mut sorted, &ops, &rk, n);
    assert(order_upto(m, (n + 1) as nat).map_values(|x: int| m[x]) =~= order_upto(
        m,
        n as nat,
    ).map_values(|x: int| m[x]) + indices_of_rank(m, n as nat, n as int).map_values(
        |x: int| m[x],
    ));
    sorted
}

// ---------------------------------------------------------------------------
// Grouping by kind
// ---------------------------------------------------------------------------

/// The position of an operation's kind in a migration: table drops first, then
/// table creations, then added columns, then dropped columns.
pub open spec fn op_kind(op: MigrationOpModel) -> nat {
    match op {
        MigrationOpModel::DropTable { .. } => 0,
        MigrationOpModel::CreateTable { .. } => 1,
        MigrationOpModel::AlterTableAddColumn { .. } => 2,
        MigrationOpModel::DropColumn { .. } => 3,
    }
}

/// The operations of kind `k`, in their order.
pub open spec fn of_kind(ops: Seq<MigrationOpModel>, k: nat) -> Seq<MigrationOpModel>
    decreases ops.len(),
{
    if ops.len() == 0 {
        Seq::empty()
    } else {
        of_kind(ops.drop_last(), k) + if op_kind(ops.last()) == k {
            seq![ops.last()]
        } else {
            Seq::empty()
        }
    }
}

/// The migration order of a list of operations: drops, creations in dependency
/// order, added columns, dropped columns; each group keeps the given order.
pub open spec fn migration_order(ops: Seq<MigrationOpModel>) -> Seq<MigrationOpModel> {
    of_kind(ops, 0) + layered(of_kind(ops, 1)) + of_kind(ops, 2) + of_kind(ops, 3)
}

fn kind_of(op: &MigrationOp) -> (k: u8)
    ensures
        k == op_kind(op@),
{
    match op {
        MigrationOp::DropTable { .. } => 0,
        MigrationOp::CreateTable { .. } => 1,
        MigrationOp::AlterTableAddColumn { .. } => 2,
        MigrationOp::DropColumn { .. } => 3,
    }
}

fn append_ops(dst: &mut Vec<MigrationOp>, src: Vec<MigrationOp>)
    ensures
        ops_model(final(dst)@) == ops_model(old(dst)@) + ops_model(src@),
{
    let mut src = src;
    let ghost a = old(dst)@;
    let ghost b = src@;
    dst.append(&mut src);
    assert(dst@ == a + b);
    assert(ops_model(a + b) =~= ops_model(a) + ops_model(b));
}

/// Groups operations by kind and orders table creations by their dependencies.
fn topological_sort(ops: Vec<MigrationOp>) -> (sorted: Vec<MigrationOp>)
    ensures
        ops_model(sorted@) == migration_order(ops_model(ops@)),
{
    let ghost m = ops_model(ops@);
    let mut drops: Vec<MigrationOp> = Vec::new();
    let mut creates: Vec<MigrationOp> = Vec::new();
    let mut alters: Vec<MigrationOp> = Vec::new();
    let mut col_drops: Vec<MigrationOp> = Vec::new();
    for i in 0..ops.len()
        invariant
            m == ops_model(ops@),
            ops_model(drops@) == of_kind(m.take(i as int), 0),
            ops_model(creates@) == of_kind(m.take(i as int), 1),
            ops_model(alters@) == of_kind(m.take(i as int), 2),
            ops_model(col_drops@) == of_kind(m.take(i as int), 3),
    {
        let op = ops[i].clone();
        let k = kind_of(&ops[i]);
        let ghost o = m[i as int];
        assert(m.take(i + 1).drop_last() == m.take(i as int));
        assert(m.take(i + 1).last() == o);
        let ghost d0 = drops@;
        let ghost c0 = creates@;
        let ghost a0 = alters@;
        let ghost x0 = col_drops@;
        if k == 0 {
            drops.push(op);
            assert(ops_model(drops@) =~= ops_model(d0).push(o));
        } else if k == 1 {
            creates.push(op);
            assert(ops_model(creates@) =~= ops_model(c0).push(o));
        } else if k == 2 {
            alters.push(op);
            assert(ops_model(alters@) =~= ops_model(a0).push(o));
        } else {
            col_drops.push(op);
            assert(ops_model(col_drops@) =~= ops_model(x0).push(o));
        }
    }
    assert(m.take(ops.len() as int) == m);
    let sorted_creates = sort_creates_by_dependency(creates);
    let mut final_ops: Vec<MigrationOp> = Vec::new();
    append_ops(&mut final_ops, drops);
    append_ops(&mut final_ops, sorted_creates);
    append_ops(&mut final_ops, alters);
    append_ops(&mut final_ops, col_drops);
    assert(ops_model(final_ops@) =~= migration_order(m));
    final_ops
}

// ---------------------------------------------------------------------------
// Diffing declared schemas against the live database
// ---------------------------------------------------------------------------

/// The index of the last schema declaring the table `name`, or -1.
pub open spec fn last_schema(ex: Seq<SchemaInfoModel>, name: Seq<char>) -> int
    decreases ex.len(),
{
    if ex.len() == 0 {
        -1
    } else if ex.last().table_name == name {
        ex.len() - 1
    } else {
        last_schema(ex.drop_last(), name)
    }
}

/// The index of the last live table named `name`, or -1.
pub open spec fn last_table(act: Seq<IntrospectedTable>, name: Seq<char>) -> int
    decreases act.len(),
{
    if act.len() == 0 {
        -1
    } else if act.last().name@ == name {
        act.len() - 1
    } else {
        last_table(act.drop_last(), name)
    }
}

/// Whether a live table has a column named `name`.
pub open spec fn has_column(t: IntrospectedTable, name: Seq<char>) -> bool {
    exists|c: int| 0 <= c < t.columns@.len() && (#[trigger] t.columns@[c]).name@ == name
}

/// Whether a declared schema has a field named `name`.
pub open spec fn has_field(s: SchemaInfoModel, name: Seq<char>) -> bool {
    exists|f: int| 0 <= f < s.fields.len() && (#[trigger] s.fields[f]).name == name
}

/// The columns that every entity table carries without declaring them.
pub open spec fn is_core_column(name: Seq<char>) -> bool {
    name == "id"@ || name == "created_at"@ || name == "updated_at"@
}

/// Whether schema `i` is the one that counts for its table (the last declaration).
pub open spec fn counts(ex: Seq<SchemaInfoModel>, i: int) -> bool {
    last_schema(ex, ex[i].table_name) == i
}

/// Tables to create: for each counted schema, in order, whose table is not live.
pub open spec fn creates_upto(ex: Seq<SchemaInfoModel>, act: Seq<IntrospectedTable>, n: int) -> Seq<
    MigrationOpModel,
>
    decreases n,
{
    if n <= 0 {
        Seq::empty()
    } else {
        creates_upto(ex, act, n - 1) + if counts(ex, n - 1) && last_table(
            act,
            ex[n - 1].table_name,
        ) == -1 {
            seq![
                MigrationOpModel::CreateTable {
                    name: ex[n - 1].table_name,
                    columns: ex[n - 1].fields,
                },
            ]
        } else {
            Seq::empty()
        }
    }
}

/// Tables to drop: each live table (its last listing), in order, that no schema declares.
pub open spec fn drops_upto(ex: Seq<SchemaInfoModel>, act: Seq<IntrospectedTable>, n: int) -> Seq<
    MigrationOpModel,
>
    decreases n,
{
    if n <= 0 {
        Seq::empty()
    } else {
        drops_upto(ex, act, n - 1) + if last_table(act, act[n - 1].name@) == n - 1 && last_schema(
            ex,
            act[n - 1].name@,
        ) == -1 {
            seq![MigrationOpModel::DropTable { name: act[n - 1].name@ }]
        } else {
            Seq::empty()
        }
    }
}

/// Columns to add to a live table: its schema's fields, in order, that are not
/// many-to-many relations and have no column of that name.
pub open spec fn adds_of(s: SchemaInfoModel, t: IntrospectedTable, n: int) -> Seq<MigrationOpModel>
    decreases n,
{
    if n <= 0 {
        Seq::empty()
    } else {
        adds_of(s, t, n - 1) + if !(s.fields[n - 1].field_type is ManyToMany) && !has_column(
            t,
            s.fields[n - 1].name,
        ) {
            seq![
                MigrationOpModel::AlterTableAddColumn {
                    table_name: s.table_name,
                    column: s.fields[n - 1],
                },
            ]
        } else {
            Seq::empty()
        }
    }
}

/// Columns to drop from a live table: its columns, in order, that the schema does
/// not declare and that are not core columns.
pub open spec fn col_drops_of(s: SchemaInfoModel, t: IntrospectedTable, n: int) -> Seq<
    MigrationOpModel,
>
    decreases n,
{
    if n <= 0 {
        Seq::empty()
    } else {
        col_drops_of(s, t, n - 1) + if !has_field(s, t.columns@[n - 1].name@) && !is_core_column(
            t.columns@[n - 1].name@,
        ) {
            seq![
                MigrationOpModel::DropColumn {
                    table_name: s.table_name,
                    column_name: t.columns@[n - 1].name@,
                },
            ]
        } else {
            Seq::empty()
        }
    }
}

/// Added columns of every counted schema whose table is live, schema by schema.
pub open spec fn adds_upto(ex: Seq<SchemaInfoModel>, act: Seq<IntrospectedTable>, n: int) -> Seq<
    MigrationOpModel,
>
    decreases n,
{
    if n <= 0 {
        Seq::empty()
    } else {
        adds_upto(ex, act, n - 1) + if counts(ex, n - 1) && last_table(act, ex[n - 1].table_name)
            >= 0 {
            let t = act[last_table(act, ex[n - 1].table_name)];
            adds_of(ex[n - 1], t, ex[n - 1].fields.len() as int)
        } else {
            Seq::empty()
        }
    }
}

/// Dropped columns of every counted schema whose table is live, schema by schema.
pub open spec fn col_drops_upto(ex: Seq<SchemaInfoModel>, act: Seq<IntrospectedTable>, n: int) -> Seq<
    MigrationOpModel,
>
    decreases n,
{
    if n <= 0 {
        Seq::empty()
    } else {
        col_drops_upto(ex, act, n - 1) + if counts(ex, n - 1) && last_table(
            act,
            ex[n - 1].table_name,
        ) >= 0 {
            let t = act[last_table(act, ex[n - 1].table_name)];
            col_drops_of(ex[n - 1], t, t.columns@.len() as int)
        } else {
            Seq::empty()
        }
    }
}

/// The migration from the live tables `act` to the declared schemas `ex`: dropped
/// tables, created tables in dependency order, added columns, dropped columns.
pub open spec fn diff_spec(ex: Seq<SchemaInfoModel>, act: Seq<IntrospectedTable>) -> Seq<
    MigrationOpModel,
> {
    drops_upto(ex, act, act.len() as int) + layered(creates_upto(ex, act, ex.len() as int))
        + adds_upto(ex, act, ex.len() as int) + col_drops_upto(ex, act, ex.len() as int)
}

fn find_last_schema(ex: &Vec<SchemaInfo>, name: &String) -> (r: Option<usize>)
    ensures
        match r {
            Some(k) => k == last_schema(schemas_model(ex@), name@) && k < ex.len(),
            None => last_schema(schemas_model(ex@), name@) == -1,
        },
{
    let ghost m = schemas_model(ex@);
    let mut i = ex.len();
    assert(m.take(i as int) == m);
    while i > 0
        invariant
            i <= ex.len(),
            m == schemas_model(ex@),
            last_schema(m.take(i as int), name@) == last_schema(m, name@),
        decreases i,
    {
        i = i - 1;
        assert(m.take(i + 1).drop_last() == m.take(i as int));
        if ex[i].table_name == *name {
            return Some(i);
        }
    }
    None
}

fn find_last_table(act: &Vec<IntrospectedTable>, name: &String) -> (r: Option<usize>)
    ensures
        match r {
            Some(k) => k == last_table(act@, name@) && k < act.len(),
            None => last_table(act@, name@) == -1,
        },
{
    let mut i = act.len();
    assert(act@.take(i as int) == act@);
    while i > 0
        invariant
            i <= act.len(),
            last_table(act@.take(i as int), name@) == last_table(act@, name@),
        decreases i,
    {
        i = i - 1;
        assert(act@.take(i + 1).drop_last() == act@.take(i as int));
        if act[i].name == *name {
            return Some(i);
        }
    }
    None
}

fn table_has_column(t: &IntrospectedTable, name: &String) -> (b: bool)
    ensures
        b == has_column(*t, name@),
{
    for c in 0..t.columns.len()
        invariant
            forall|k: int| 0 <= k < c ==> (#[trigger] t.columns@[k]).name@ != name@,
    {
        if t.columns[c].name == *name {
            return true;
        }
    }
    false
}

fn schema_has_field(s: &SchemaInfo, name: &String) -> (b: bool)
    ensures
        b == has_field(s@, name@),
{
    let ghost fm = fields_model(s.fields@);
    for f in 0..s.fields.len()
        invariant
            fm == fields_model(s.fields@),
            fm.len() == s.fields@.len(),
            forall|k: int| 0 <= k < f ==> (#[trigger] fm[k]).name != name@,
    {
        if s.fields[f].name == *name {
            assert(fm[f as int].name == name@);
            return true;
        }
    }
    false
}

fn core_column(name: &String) -> (b: bool)
    ensures
        b == is_core_column(name@),
{
    str_eq(name.as_str(), "id") || str_eq(name.as_str(), "created_at") || str_eq(
        name.as_str(),
        "updated_at",
    )
}

/// Engine responsible for schema synchronization and migration generation: holds
/// the expected state (from code) and actual state (from the database).
pub struct DiffEngine {
    expected_schemas: Vec<SchemaInfo>,
    actual_tables: Vec<IntrospectedTable>,
}

impl DiffEngine {
    /// The declared schemas.
    pub closed spec fn expected(&self) -> Seq<SchemaInfoModel> {
        schemas_model(self.expected_schemas@)
    }

    /// The live tables.
    pub closed spec fn actual(&self) -> Seq<IntrospectedTable> {
        self.actual_tables@
    }

    /// Constructs an engine from the intended schemas (derived from code) and the
    /// physical tables currently existing in the database.
    pub fn new(expected: Vec<SchemaInfo>, actual: Vec<IntrospectedTable>) -> (e: Self)
        ensures
            e.expected() == schemas_model(expected@),
            e.actual() == actual@,
    {
        DiffEngine { expected_schemas: expected, actual_tables: actual }
    }

    fn push_creates(&self, ops: &mut Vec<MigrationOp>)
        ensures
            ops_model(final(ops)@) == ops_model(old(ops)@) + creates_upto(
                self.expected(),
                self.actual(),
                self.expected().len() as int,
            ),
    {
        let ghost ex = self.expected();
        let ghost act = self.actual();
        let ghost start = ops_model(ops@);
        let n = self.expected_schemas.len();
        assert(ex.len() == n);
        for i in 0..n
            invariant
                ex == self.expected(),
                act == self.actual(),
                ex.len() == n,
                n == self.expected_schemas.len(),
                ops_model(ops@) == start + creates_upto(ex, act, i as int),
        {
            let s = &self.expected_schemas[i];
            let ghost prev = ops_model(ops@);
            let li = find_last_schema(&self.expected_schemas, &s.table_name);
            if li == Some(i) {
                if find_last_table(&self.actual_tables, &s.table_name).is_none() {
                    let op = MigrationOp::CreateTable {
                        name: s.table_name.clone(),
                        columns: clone_fields(&s.fields),
                    };
                    ops.push(op);
                    assert(ops_model(ops@) =~= prev.push(op@));
                }
            }
        }
    }

    fn push_drops(&self, ops: &mut Vec<MigrationOp>)
        ensures
            ops_model(final(ops)@) == ops_model(old(ops)@) + drops_upto(
                self.expected(),
                self.actual(),
                self.actual().len() as int,
            ),
    {
        let ghost ex = self.expected();
        let ghost act = self.actual();
        let ghost start = ops_model(ops@);
        let n = self.actual_tables.len();
        for k in 0..n
            invariant
                ex == self.expected(),
                act == self.actual(),
                act.len() == n,
                n == self.actual_tables.len(),
                ops_model(ops@) == start + drops_upto(ex, act, k as int),
        {
            let t = &self.actual_tables[k];
            let ghost prev = ops_model(ops@);
            if find_last_table(&self.actual_tables, &t.name) == Some(k) {
                if find_last_schema(&self.expected_schemas, &t.name).is_none() {
                    let op = MigrationOp::DropTable { name: t.name.clone() };
                    ops.push(op);
                    assert(ops_model(ops@) =~= prev.push(op@));
                }
            }
        }
    }

    fn push_adds_for(s: &SchemaInfo, t: &IntrospectedTable, ops: &mut Vec<MigrationOp>)
        ensures
            ops_model(final(ops)@) == ops_model(old(ops)@) + adds_of(
                s@,
                *t,
                s.fields@.len() as int,
            ),
    {
        let ghost start = ops_model(ops@);
        let ghost fm = fields_model(s.fields@);
        for f in 0..s.fields.len()
            invariant
                fm == fields_model(s.fields@),
                fm.len() == s.fields@.len(),
                ops_model(ops@) == start + adds_of(s@, *t, f as int),
        {
            let field = &s.fields[f];
            let ghost prev = ops_model(ops@);
            if !matches!(field.field_type, FieldType::ManyToMany { .. }) {
                if !table_has_column(t, &field.name) {
                    let op = MigrationOp::AlterTableAddColumn {
                        table_name: s.table_name.clone(),
                        column: field.clone(),
                    };
                    ops.push(op);
                    assert(ops_model(ops@) =~= prev.push(op@));
                }
            }
        }
    }

    fn push_col_drops_for(s: &SchemaInfo, t: &IntrospectedTable, ops: &mut Vec<MigrationOp>)
        ensures
            ops_model(final(ops)@) == ops_model(old(ops)@) + col_drops_of(
                s@,
                *t,
                t.columns@.len() as int,
            ),
    {
        let ghost start = ops_model(ops@);
        for c in 0..t.columns.len()
            invariant
                ops_model(ops@) == start + col_drops_of(s@, *t, c as int),
        {
            let col = &t.columns[c];
            let ghost prev = ops_model(ops@);
            if !schema_has_field(s, &col.name) && !core_column(&col.name) {
                let op = MigrationOp::DropColumn {
                    table_name: s.table_name.clone(),
                    column_name: col.name.clone(),
                };
                ops.push(op);
                assert(ops_model(ops@) =~= prev.push(op@));
            }
        }
    }

    fn push_changes(&self, adds: &mut Vec<MigrationOp>, col_drops: &mut Vec<MigrationOp>)
        ensures
            ops_model(final(adds)@) == ops_model(old(adds)@) + adds_upto(
                self.expected(),
                self.actual(),
                self.expected().len() as int,
            ),
            ops_model(final(col_drops)@) == ops_model(old(col_drops)@) + col_drops_upto(
                self.expected(),
                self.actual(),
                self.expected().len() as int,
            ),
    {
        let ghost ex = self.expected();
        let ghost act = self.actual();
        let ghost start_a = ops_model(adds@);
        let ghost start_d = ops_model(col_drops@);
        let n = self.expected_schemas.len();
        assert(ex.len() == n);
        for i in 0..n
            invariant
                ex == self.expected(),
                act == self.actual(),
                ex.len() == n,
                n == self.expected_schemas.len(),
                ops_model(adds@) == start_a + adds_upto(ex, act, i as int),
                ops_model(col_drops@) == start_d + col_drops_upto(ex, act, i as int),
        {
            let s = &self.expected_schemas[i];
            if find_last_schema(&self.expected_schemas, &s.table_name) == Some(i) {
                match find_last_table(&self.actual_tables, &s.table_name) {
                    Some(k) => {
                        let t = &self.actual_tables[k];
                        Self::push_adds_for(s, t, adds);
                        Self::push_col_drops_for(s, t, col_drops);
                    },
                    None => {},
                }
            }
        }
    }

    /// Compares expected entities against the actual database state and returns the
    /// ordered migration operations.
    pub fn diff(&self) -> (ops: Vec<MigrationOp>)
        ensures
            ops_model(ops@) == diff_spec(self.expected(), self.actual()),
    {
        let mut creates: Vec<MigrationOp> = Vec::new();
        self.push_creates(&mut creates);
        let mut drops: Vec<MigrationOp> = Vec::new();
        self.push_drops(&mut drops);
        let mut adds: Vec<MigrationOp> = Vec::new();
        let mut col_drops: Vec<MigrationOp> = Vec::new();
        self.push_changes(&mut adds, &mut col_drops);
        let ghost c = ops_model(creates@);
        let ghost d = ops_model(drops@);
        let ghost a = ops_model(adds@);
        let ghost x = ops_model(col_drops@);
        let mut ops: Vec<MigrationOp> = Vec::new();
        append_ops(&mut ops, creates);
        append_ops(&mut ops, drops);
        append_ops(&mut ops, adds);
        append_ops(&mut ops, col_drops);
        proof {
            lemma_diff_groups(self.expected(), self.actual(), c, d, a, x);
        }
        topological_sort(ops)
    }
}

/// Whether every operation of `s` is of kind `k`.
pub open spec fn all_of_kind(s: Seq<MigrationOpModel>, k: nat) -> bool {
    forall|i: int| 0 <= i < s.len() ==> op_kind(#[trigger] s[i]) == k
}

proof fn lemma_of_kind_concat(s: Seq<MigrationOpModel>, t: Seq<MigrationOpModel>, k: nat)
    ensures
        of_kind(s + t, k) == of_kind(s, k) + of_kind(t, k),
    decreases t.len(),
{
    if t.len() == 0 {
        assert(s + t =~= s);
    } else {
        lemma_of_kind_concat(s, t.drop_last(), k);
        assert((s + t).drop_last() =~= s + t.drop_last());
    }
}

proof fn lemma_of_kind_all(s: Seq<MigrationOpModel>, k: nat, j: nat)
    requires
        all_of_kind(s, k),
    ensures
        of_kind(s, j) == if j == k {
            s
        } else {
            Seq::empty()
        },
    decreases s.len(),
{
    if s.len() > 0 {
        assert(all_of_kind(s.drop_last(), k));
        lemma_of_kind_all(s.drop_last(), k, j);
        assert(s.drop_last().push(s.last()) =~= s);
        assert(op_kind(s[s.len() - 1]) == k);
    }
}

proof fn lemma_concat_all_of_kind(s: Seq<MigrationOpModel>, t: Seq<MigrationOpModel>, k: nat)
    requires
        all_of_kind(s, k),
        all_of_kind(t, k),
    ensures
        all_of_kind(s + t, k),
{
    assert forall|i: int| 0 <= i < (s + t).len() implies op_kind(#[trigger] (s + t)[i]) == k by {
        if i < s.len() {
            assert((s + t)[i] == s[i]);
        } else {
            assert((s + t)[i] == t[i - s.len()]);
        }
    }
}

proof fn lemma_kinds_of_creates(ex: Seq<SchemaInfoModel>, act: Seq<IntrospectedTable>, n: int)
    ensures
        all_of_kind(creates_upto(ex, act, n), 1),
    decreases n,
{
    if n > 0 {
        lemma_kinds_of_creates(ex, act, n - 1);
        let tail = if counts(ex, n - 1) && last_table(act, ex[n - 1].table_name) == -1 {
            seq![
                MigrationOpModel::CreateTable {
                    name: ex[n - 1].table_name,
                    columns: ex[n - 1].fields,
                },
            ]
        } else {
            Seq::<MigrationOpModel>::empty()
        };
        lemma_concat_all_of_kind(creates_upto(ex, act, n - 1), tail, 1);
    }
}

proof fn lemma_kinds_of_drops(ex: Seq<SchemaInfoModel>, act: Seq<IntrospectedTable>, n: int)
    ensures
        all_of_kind(drops_upto(ex, act, n), 0),
    decreases n,
{
    if n > 0 {
        lemma_kinds_of_drops(ex, act, n - 1);
        let tail = if last_table(act, act[n - 1].name@) == n - 1 && last_schema(
            ex,
            act[n - 1].name@,
        ) == -1 {
            seq![MigrationOpModel::DropTable { name: act[n - 1].name@ }]
        } else {
            Seq::<MigrationOpModel>::empty()
        };
        lemma_concat_all_of_kind(drops_upto(ex, act, n - 1), tail, 0);
    }
}

proof fn lemma_kinds_of_adds_of(s: SchemaInfoModel, t: IntrospectedTable, n: int)
    ensures
        all_of_kind(adds_of(s, t, n), 2),
    decreases n,
{
    if n > 0 {
        lemma_kinds_of_adds_of(s, t, n - 1);
        let tail = if !(s.fields[n - 1].field_type is ManyToMany) && !has_column(
            t,
            s.fields[n - 1].name,
        ) {
            seq![
                MigrationOpModel::AlterTableAddColumn {
                    table_name: s.table_name,
                    column: s.fields[n - 1],
                },
            ]
        } else {
            Seq::<MigrationOpModel>::empty()
        };
        lemma_concat_all_of_kind(adds_of(s, t, n - 1), tail, 2);
    }
}

proof fn lemma_kinds_of_col_drops_of(s: SchemaInfoModel, t: IntrospectedTable, n: int)
    ensures
        all_of_kind(col_drops_of(s, t, n), 3),
    decreases n,
{
    if n > 0 {
        lemma_kinds_of_col_drops_of(s, t, n - 1);
        let tail = if !has_field(s, t.columns@[n - 1].name@) && !is_core_column(
            t.columns@[n - 1].name@,
        ) {
            seq![
                MigrationOpModel::DropColumn {
                    table_name: s.table_name,
                    column_name: t.columns@[n - 1].name@,
                },
            ]
        } else {
            Seq::<MigrationOpModel>::empty()
        };
        lemma_concat_all_of_kind(col_drops_of(s, t, n - 1), tail, 3);
    }
}

proof fn lemma_kinds_of_adds(ex: Seq<SchemaInfoModel>, act: Seq<IntrospectedTable>, n: int)
    ensures
        all_of_kind(adds_upto(ex, act, n), 2),
        all_of_kind(col_drops_upto(ex, act, n), 3),
    decreases n,
{
    if n > 0 {
        lemma_kinds_of_adds(ex, act, n - 1);
        if counts(ex, n - 1) && last_table(act, ex[n - 1].table_name) >= 0 {
            let t = act[last_table(act, ex[n - 1].table_name)];
            lemma_kinds_of_adds_of(ex[n - 1], t, ex[n - 1].fields.len() as int);
            lemma_kinds_of_col_drops_of(ex[n - 1], t, t.columns@.len() as int);
            lemma_concat_all_of_kind(
                adds_upto(ex, act, n - 1),
                adds_of(ex[n - 1], t, ex[n - 1].fields.len() as int),
                2,
            );
            lemma_concat_all_of_kind(
                col_drops_upto(ex, act, n - 1),
                col_drops_of(ex[n - 1], t, t.columns@.len() as int),
                3,
            );
        } else {
            assert(adds_upto(ex, act, n) =~= adds_upto(ex, act, n - 1));
            assert(col_drops_upto(ex, act, n) =~= col_drops_upto(ex, act, n - 1));
        }
    }
}

proof fn lemma_diff_groups(
    ex: Seq<SchemaInfoModel>,
    act: Seq<IntrospectedTable>,
    c: Seq<MigrationOpModel>,
    d: Seq<MigrationOpModel>,
    a: Seq<MigrationOpModel>,
    x: Seq<MigrationOpModel>,
)
    requires
        c == creates_upto(ex, act, ex.len() as int),
        d == drops_upto(ex, act, act.len() as int),
        a == adds_upto(ex, act, ex.len() as int),
        x == col_drops_upto(ex, act, ex.len() as int),
    ensures
        migration_order(c + d + a + x) == diff_spec(ex, act),
{
    lemma_kinds_of_creates(ex, act, ex.len() as int);
    lemma_kinds_of_drops(ex, act, act.len() as int);
    lemma_kinds_of_adds(ex, act, ex.len() as int);
    let all = c + d + a + x;
    assert forall|k: nat| k <= 3 implies #[trigger] of_kind(all, k) == of_kind(c, k) + of_kind(d, k)
        + of_kind(a, k) + of_kind(x, k) by {
        lemma_of_kind_concat(c + d + a, x, k);
        lemma_of_kind_concat(c + d, a, k);
        lemma_of_kind_concat(c, d, k);
    }
    assert forall|k: nat| k <= 3 implies #[trigger] of_kind(all, k) == if k == 0 {
        d
    } else if k == 1 {
        c
    } else if k == 2 {
        a
    } else {
        x
    } by {
        lemma_of_kind_all(c, 1, k);
        lemma_of_kind_all(d, 0, k);
        lemma_of_kind_all(a, 2, k);
        lemma_of_kind_all(x, 3, k);
        assert(of_kind(c, k) + of_kind(d, k) + of_kind(a, k) + of_kind(x, k) =~= if k == 0 {
            d
        } else if k == 1 {
            c
        } else if k == 2 {
            a
        } else {
            x
        });
    }
    assert(of_kind(all, 0) == d);
    assert(of_kind(all, 1) == c);
    assert(of_kind(all, 2) == a);
    assert(of_kind(all, 3) == x);
}

// ---------------------------------------------------------------------------
// Laws of the dependency order
// ---------------------------------------------------------------------------

/// Whether index `a` is placed before index `b`: by round, then by position.
pub open spec fn placed_before(ops: Seq<MigrationOpModel>, a: int, b: int) -> bool {
    rank(ops, a) < rank(ops, b) || (rank(ops, a) == rank(ops, b) && a < b)
}

proof fn lemma_indices_of_rank(ops: Seq<MigrationOpModel>, k: nat, m: int)
    requires
        m <= ops.len(),
    ensures
        forall|t: int|
            0 <= t < indices_of_rank(ops, k, m).len() ==> rank(
                ops,
                #[trigger] indices_of_rank(ops, k, m)[t],
            ) == k && 0 <= indices_of_rank(ops, k, m)[t] < m,
        forall|t1: int, t2: int|
            0 <= t1 < t2 < indices_of_rank(ops, k, m).len() ==> #[trigger] indices_of_rank(
                ops,
                k,
                m,
            )[t1] < #[trigger] indices_of_rank(ops, k, m)[t2],
        forall|i: int| 0 <= i < m && rank(ops, i) == k ==> indices_of_rank(ops, k, m).contains(i),
    decreases m,
{
    if m > 0 {
        lemma_indices_of_rank(ops, k, m - 1);
        let prev = indices_of_rank(ops, k, m - 1);
        let cur = indices_of_rank(ops, k, m);
        if rank(ops, m - 1) == k {
            assert(cur == prev + seq![m - 1]);
            assert forall|i: int| 0 <= i < m && rank(ops, i) == k implies cur.contains(i) by {
                if i < m - 1 {
                    let t = choose|t: int| 0 <= t < prev.len() && prev[t] == i;
                    assert(cur[t] == i);
                } else {
                    assert(cur[prev.len() as int] == i);
                }
            }
        } else {
            assert(cur == prev + Seq::<int>::empty());
            assert(cur =~= prev);
        }
    }
}

proof fn lemma_order_upto(ops: Seq<MigrationOpModel>, r: nat)
    ensures
        forall|t: int|
            0 <= t < order_upto(ops, r).len() ==> rank(ops, #[trigger] order_upto(ops, r)[t]) < r
                && 0 <= order_upto(ops, r)[t] < ops.len(),
        forall|t1: int, t2: int|
            0 <= t1 < t2 < order_upto(ops, r).len() ==> placed_before(
                ops,
                #[trigger] order_upto(ops, r)[t1],
                #[trigger] order_upto(ops, r)[t2],
            ),
        forall|i: int| 0 <= i < ops.len() && rank(ops, i) < r ==> order_upto(ops, r).contains(i),
    decreases r,
{
    if r > 0 {
        let k = (r - 1) as nat;
        lemma_order_upto(ops, k);
        lemma_indices_of_rank(ops, k, ops.len() as int);
        let prev = order_upto(ops, k);
        let blk = indices_of_rank(ops, k, ops.len() as int);
        let cur = order_upto(ops, r);
        assert(cur == prev + blk);
        assert forall|t: int| 0 <= t < cur.len() implies rank(ops, #[trigger] cur[t]) < r && 0
            <= cur[t] < ops.len() by {
            if t < prev.len() {
                assert(cur[t] == prev[t]);
            } else {
                assert(cur[t] == blk[t - prev.len()]);
            }
        }
        assert forall|t1: int, t2: int| 0 <= t1 < t2 < cur.len() implies placed_before(
            ops,
            #[trigger] cur[t1],
            #[trigger] cur[t2],
        ) by {
            if t2 < prev.len() {
                assert(cur[t1] == prev[t1] && cur[t2] == prev[t2]);
            } else if t1 < prev.len() {
                assert(cur[t1] == prev[t1]);
                assert(cur[t2] == blk[t2 - prev.len()]);
            } else {
                assert(cur[t1] == blk[t1 - prev.len()]);
                assert(cur[t2] == blk[t2 - prev.len()]);
            }
        }
        assert forall|i: int| 0 <= i < ops.len() && rank(ops, i) < r implies cur.contains(i) by {
            if rank(ops, i) < k {
                assert(prev.contains(i));
                let t = choose|t: int| 0 <= t < prev.len() && prev[t] == i;
                assert(cur[t] == i);
            } else {
                assert(blk.contains(i));
                let t = choose|t: int| 0 <= t < blk.len() && blk[t] == i;
                assert(cur[prev.len() + t] == i);
            }
        }
    }
}

/// The creation order is a rearrangement of the operations in which every table
/// that is not caught in a dependency cycle comes after all the tables it links to:
/// `layered(ops)[p]` is `ops[layered_order(ops)[p]]`, every index appears once, and
/// when `ops[i]` depends on `ops[j]` and is settled, `j` is placed before `i`.
pub proof fn law_creation_order(ops: Seq<MigrationOpModel>)
    ensures
        layered(ops).len() == layered_order(ops).len(),
        forall|p: int|
            0 <= p < layered(ops).len() ==> #[trigger] layered(ops)[p] == ops[layered_order(
                ops,
            )[p]],
        forall|i: int| 0 <= i < ops.len() ==> layered_order(ops).contains(i),
        forall|p: int|
            0 <= p < layered_order(ops).len() ==> 0 <= #[trigger] layered_order(ops)[p]
                < ops.len(),
        forall|p: int, q: int|
            0 <= p < q < layered_order(ops).len() ==> #[trigger] layered_order(ops)[p]
                != #[trigger] layered_order(ops)[q],
        forall|p: int, q: int|
            0 <= p < layered_order(ops).len() && 0 <= q < layered_order(ops).len()
                && depends_on(ops, #[trigger] layered_order(ops)[q], #[trigger] layered_order(ops)[p])
                && settled(ops, ops.len(), layered_order(ops)[q]) ==> p < q,
{
    let n = ops.len();
    let o = layered_order(ops);
    lemma_order_upto(ops, (n + 1) as nat);
    assert forall|i: int| 0 <= i < n implies o.contains(i) by {
        lemma_rank(ops, i);
    }
    assert forall|p: int, q: int|
        0 <= p < o.len() && 0 <= q < o.len() && depends_on(ops, #[trigger] o[q], #[trigger] o[p])
            && settled(ops, n, o[q]) implies p < q by {
        let i = o[q];
        let j = o[p];
        lemma_rank(ops, i);
        lemma_rank(ops, j);
        let ri = rank(ops, i);
        assert(ri < n);
        assert(settled(ops, ri + 1, i));
        assert(settled(ops, ri, j));
        assert(rank(ops, j) < ri);
        if q < p {
            assert(placed_before(ops, o[q], o[p]));
        }
        if p == q {
            assert(i == j);
        }
    }
}

// ---------------------------------------------------------------------------
// Laws of the diff
// ---------------------------------------------------------------------------

/// Whether the live table `t` holds exactly what schema `s` declares: a column for
/// every field that is not a many-to-many relation, and no column beyond the declared
/// fields and the core columns.
pub open spec fn table_matches(s: SchemaInfoModel, t: IntrospectedTable) -> bool {
    &&& forall|f: int|
        0 <= f < s.fields.len() && !((#[trigger] s.fields[f]).field_type is ManyToMany)
            ==> has_column(t, s.fields[f].name)
    &&& forall|c: int|
        0 <= c < t.columns@.len() ==> has_field(s, (#[trigger] t.columns@[c]).name@)
            || is_core_column(t.columns@[c].name@)
}

/// Whether the live database already holds the declared schemas: every live table
/// is declared, and every declared table is live and matches its declaration.
pub open spec fn in_sync(ex: Seq<SchemaInfoModel>, act: Seq<IntrospectedTable>) -> bool {
    &&& forall|k: int| 0 <= k < act.len() ==> last_schema(ex, (#[trigger] act[k]).name@) >= 0
    &&& forall|i: int|
        0 <= i < ex.len() && #[trigger] counts(ex, i) ==> last_table(act, ex[i].table_name) >= 0
            && table_matches(ex[i], act[last_table(act, ex[i].table_name)])
}

proof fn lemma_adds_of_empty(s: SchemaInfoModel, t: IntrospectedTable, n: int)
    requires
        n <= s.fields.len(),
        table_matches(s, t),
    ensures
        adds_of(s, t, n) == Seq::<MigrationOpModel>::empty(),
    decreases n,
{
    if n > 0 {
        lemma_adds_of_empty(s, t, n - 1);
        if !(s.fields[n - 1].field_type is ManyToMany) {
            assert(has_column(t, s.fields[n - 1].name));
        }
        assert(adds_of(s, t, n) =~= Seq::<MigrationOpModel>::empty());
    }
}

proof fn lemma_col_drops_of_empty(s: SchemaInfoModel, t: IntrospectedTable, n: int)
    requires
        n <= t.columns@.len(),
        table_matches(s, t),
    ensures
        col_drops_of(s, t, n) == Seq::<MigrationOpModel>::empty(),
    decreases n,
{
    if n > 0 {
        lemma_col_drops_of_empty(s, t, n - 1);
        assert(has_field(s, t.columns@[n - 1].name@) || is_core_column(t.columns@[n - 1].name@));
        assert(col_drops_of(s, t, n) =~= Seq::<MigrationOpModel>::empty());
    }
}

proof fn lemma_in_sync_parts(ex: Seq<SchemaInfoModel>, act: Seq<IntrospectedTable>, n: int)
    requires
        in_sync(ex, act),
        n <= ex.len(),
    ensures
        creates_upto(ex, act, n) == Seq::<MigrationOpModel>::empty(),
        adds_upto(ex, act, n) == Seq::<MigrationOpModel>::empty(),
        col_drops_upto(ex, act, n) == Seq::<MigrationOpModel>::empty(),
    decreases n,
{
    if n > 0 {
        lemma_in_sync_parts(ex, act, n - 1);
        if counts(ex, n - 1) {
            let t = act[last_table(act, ex[n - 1].table_name)];
            lemma_adds_of_empty(ex[n - 1], t, ex[n - 1].fields.len() as int);
            lemma_col_drops_of_empty(ex[n - 1], t, t.columns@.len() as int);
        }
        assert(creates_upto(ex, act, n) =~= Seq::<MigrationOpModel>::empty());
        assert(adds_upto(ex, act, n) =~= Seq::<MigrationOpModel>::empty());
        assert(col_drops_upto(ex, act, n) =~= Seq::<MigrationOpModel>::empty());
    }
}

proof fn lemma_in_sync_drops(ex: Seq<SchemaInfoModel>, act: Seq<IntrospectedTable>, n: int)
    requires
        in_sync(ex, act),
        n <= act.len(),
    ensures
        drops_upto(ex, act, n) == Seq::<MigrationOpModel>::empty(),
    decreases n,
{
    if n > 0 {
        lemma_in_sync_drops(ex, act, n - 1);
        assert(last_schema(ex, act[n - 1].name@) >= 0);
        assert(drops_upto(ex, act, n) =~= Seq::<MigrationOpModel>::empty());
    }
}

proof fn lemma_levels_settle(ops: Seq<MigrationOpModel>, level: spec_fn(int) -> nat, k: nat)
    requires
        forall|i: int, j: int|
            0 <= i < ops.len() && 0 <= j < ops.len() && #[trigger] depends_on(ops, i, j)
                ==> level(j) < level(i),
    ensures
        forall|i: int| 0 <= i < ops.len() && level(i) < k ==> #[trigger] settled(ops, k, i),
    decreases k,
{
    if k > 0 {
        lemma_levels_settle(ops, level, (k - 1) as nat);
        assert forall|i: int| 0 <= i < ops.len() && level(i) < k implies #[trigger] settled(
            ops,
            k,
            i,
        ) by {
            assert forall|j: int| 0 <= j < ops.len() && #[trigger] depends_on(ops, i, j) implies settled(
                ops,
                (k - 1) as nat,
                j,
            ) by {
                assert(level(j) < level(i));
            }
        }
    }
}

/// When the links between the created tables have no cycle, every table is created
/// after all the tables it links to. A set of links without a cycle is one whose
/// tables can be given levels below the number of operations such that each table
/// links only to tables of lower levels (the length of its longest chain of links);
/// then every operation is settled, and the creation order is a rearrangement of the
/// operations that respects every dependency.
pub proof fn law_acyclic_creation_order(ops: Seq<MigrationOpModel>, level: spec_fn(int) -> nat)
    requires
        forall|i: int| 0 <= i < ops.len() ==> #[trigger] level(i) < ops.len(),
        forall|i: int, j: int|
            0 <= i < ops.len() && 0 <= j < ops.len() && #[trigger] depends_on(ops, i, j)
                ==> level(j) < level(i),
    ensures
        forall|i: int| 0 <= i < ops.len() ==> #[trigger] settled(ops, ops.len(), i),
        forall|i: int| 0 <= i < ops.len() ==> layered_order(ops).contains(i),
        layered_order(ops).len() == ops.len(),
        forall|p: int, q: int|
            0 <= p < layered_order(ops).len() && 0 <= q < layered_order(ops).len()
                && depends_on(ops, #[trigger] layered_order(ops)[q], #[trigger] layered_order(ops)[p])
                ==> p < q,
{
    lemma_levels_settle(ops, level, ops.len());
    law_creation_order(ops);
    let o = layered_order(ops);
    // every entry is a distinct index below ops.len(), and every index occurs
    assert(o.len() == ops.len()) by {
        let n = ops.len();
        let idx = Seq::new(n, |i: int| i);
        assert(o.to_set() =~= idx.to_set()) by {
            assert forall|x: int| o.to_set().contains(x) implies idx.to_set().contains(x) by {
                let p = choose|p: int| 0 <= p < o.len() && o[p] == x;
                assert(idx[x] == x);
            }
            assert forall|x: int| idx.to_set().contains(x) implies o.to_set().contains(x) by {
                let p = choose|p: int| 0 <= p < idx.len() && idx[p] == x;
                assert(o.contains(x));
            }
        }
        assert(o.no_duplicates());
        assert(idx.no_duplicates());
        o.unique_seq_to_set();
        idx.unique_seq_to_set();
    }
}

/// A database that already holds the declared schemas needs no migration: the diff
/// of the declarations against it is empty.
pub proof fn law_in_sync_needs_no_migration(ex: Seq<SchemaInfoModel>, act: Seq<IntrospectedTable>)
    requires
        in_sync(ex, act),
    ensures
        diff_spec(ex, act) == Seq::<MigrationOpModel>::empty(),
{
    lemma_in_sync_parts(ex, act, ex.len() as int);
    lemma_in_sync_drops(ex, act, act.len() as int);
    let e = Seq::<MigrationOpModel>::empty();
    assert(e.len() == 0);
    assert(indices_of_rank(e, 0, 0) =~= Seq::<int>::empty());
    assert(order_upto(e, 0) =~= Seq::<int>::empty());
    assert(order_upto(e, 1) == order_upto(e, 0) + indices_of_rank(e, 0, 0));
    assert(order_upto(e, 1) =~= Seq::<int>::empty());
    assert(layered(e) =~= e);
    assert(diff_spec(ex, act) =~= e);
}


proof fn lemma_contains_concat(a: Seq<MigrationOpModel>, b: Seq<MigrationOpModel>, x: MigrationOpModel)
    ensures
        a.contains(x) ==> (a + b).contains(x),
        b.contains(x) ==> (a + b).contains(x),
{
    if a.contains(x) {
        let k = choose|k: int| 0 <= k < a.len() && a[k] == x;
        assert((a + b)[k] == x);
    }
    if b.contains(x) {
        let k = choose|k: int| 0 <= k < b.len() && b[k] == x;
        assert((a + b)[a.len() + k] == x);
    }
}

proof fn lemma_adds_of_has(s: SchemaInfoModel, t: IntrospectedTable, n: int, f: int)
    requires
        0 <= f < n <= s.fields.len(),
        !(s.fields[f].field_type is ManyToMany),
        !has_column(t, s.fields[f].name),
    ensures
        adds_of(s, t, n).contains(
            MigrationOpModel::AlterTableAddColumn { table_name: s.table_name, column: s.fields[f] },
        ),
    decreases n,
{
    let op = MigrationOpModel::AlterTableAddColumn { table_name: s.table_name, column: s.fields[f] };
    let tail = if !(s.fields[n - 1].field_type is ManyToMany) && !has_column(t, s.fields[n - 1].name) {
        seq![
            MigrationOpModel::AlterTableAddColumn {
                table_name: s.table_name,
                column: s.fields[n - 1],
            },
        ]
    } else {
        Seq::empty()
    };
    assert(adds_of(s, t, n) == adds_of(s, t, n - 1) + tail);
    if f == n - 1 {
        assert(tail[0] == op);
        lemma_contains_concat(adds_of(s, t, n - 1), tail, op);
    } else {
        lemma_adds_of_has(s, t, n - 1, f);
        lemma_contains_concat(adds_of(s, t, n - 1), tail, op);
    }
}

proof fn lemma_adds_upto_has(
    ex: Seq<SchemaInfoModel>,
    act: Seq<IntrospectedTable>,
    n: int,
    i: int,
    f: int,
)
    requires
        0 <= i < n <= ex.len(),
        counts(ex, i),
        last_table(act, ex[i].table_name) >= 0,
        0 <= f < ex[i].fields.len(),
        !(ex[i].fields[f].field_type is ManyToMany),
        !has_column(act[last_table(act, ex[i].table_name)], ex[i].fields[f].name),
    ensures
        adds_upto(ex, act, n).contains(
            MigrationOpModel::AlterTableAddColumn {
                table_name: ex[i].table_name,
                column: ex[i].fields[f],
            },
        ),
    decreases n,
{
    let op = MigrationOpModel::AlterTableAddColumn {
        table_name: ex[i].table_name,
        column: ex[i].fields[f],
    };
    let tail = if counts(ex, n - 1) && last_table(act, ex[n - 1].table_name) >= 0 {
        let t = act[last_table(act, ex[n - 1].table_name)];
        adds_of(ex[n - 1], t, ex[n - 1].fields.len() as int)
    } else {
        Seq::empty()
    };
    assert(adds_upto(ex, act, n) == adds_upto(ex, act, n - 1) + tail);
    if i == n - 1 {
        let t = act[last_table(act, ex[i].table_name)];
        lemma_adds_of_has(ex[i], t, ex[i].fields.len() as int, f);
    } else {
        lemma_adds_upto_has(ex, act, n - 1, i, f);
    }
    lemma_contains_concat(adds_upto(ex, act, n - 1), tail, op);
}

/// The diff adds every missing column: for each declared schema that counts for its
/// table (the last declaration of that name) whose table is live, every declared
/// field that is not a many-to-many relation (links included) and has no column of
/// its name in the live table gets an `ALTER TABLE ... ADD COLUMN` for that table and
/// that field in the migration.
pub proof fn law_diff_adds_missing_columns(
    ex: Seq<SchemaInfoModel>,
    act: Seq<IntrospectedTable>,
    i: int,
    f: int,
)
    requires
        0 <= i < ex.len(),
        last_schema(ex, ex[i].table_name) == i,
        last_table(act, ex[i].table_name) >= 0,
        0 <= f < ex[i].fields.len(),
        !(ex[i].fields[f].field_type is ManyToMany),
        forall|c: int|
            0 <= c < act[last_table(act, ex[i].table_name)].columns@.len() ==> (#[trigger] act[last_table(act, ex[i].table_name)].columns@[c]).name@
                != ex[i].fields[f].name,
    ensures
        diff_spec(ex, act).contains(
            MigrationOpModel::AlterTableAddColumn {
                table_name: ex[i].table_name,
                column: ex[i].fields[f],
            },
        ),
{
    let op = MigrationOpModel::AlterTableAddColumn {
        table_name: ex[i].table_name,
        column: ex[i].fields[f],
    };
    lemma_adds_upto_has(ex, act, ex.len() as int, i, f);
    let a = drops_upto(ex, act, act.len() as int) + layered(creates_upto(ex, act, ex.len() as int));
    let c = adds_upto(ex, act, ex.len() as int);
    lemma_contains_concat(a, c, op);
    lemma_contains_concat(a + c, col_drops_upto(ex, act, ex.len() as int), op);
}

/// The column definition that `ALTER TABLE ... ADD COLUMN` gives a field is the one
/// that the field's line in a `CREATE TABLE` carries, so that a column added later is
/// declared as it would have been at creation; a link's definition ends with its
/// foreign key `REFERENCES <target>(id)`.
pub proof fn law_added_column_matches_create(table: Seq<char>, f: FieldInfoModel)
    requires
        !(f.field_type is ManyToMany),
        f.name != "id"@,
        f.name != "created_at"@,
        f.name != "updated_at"@,
    ensures
        exists|d: Seq<char>|
            op_up_sql(MigrationOpModel::AlterTableAddColumn { table_name: table, column: f })
                == "ALTER TABLE "@ + table + " ADD COLUMN "@ + d + ";\n"@
                && #[trigger] create_columns_sql(seq![f]) == "    "@ + d + ",\n"@,
        forall|target: Seq<char>|
            f.field_type == (FieldTypeModel::Link { target }) ==> exists|x: Seq<char>|
                op_up_sql(MigrationOpModel::AlterTableAddColumn { table_name: table, column: f })
                    == #[trigger] (x + " REFERENCES "@ + target + "(id);\n"@),
{
    let d = field_sql(f);
    let one = seq![f];
    assert(one.drop_last() =~= Seq::<FieldInfoModel>::empty());
    assert(create_columns_sql(one.drop_last()) =~= Seq::<char>::empty());
    assert(create_columns_sql(one) =~= "    "@ + d + ",\n"@);
    assert forall|target: Seq<char>|
        f.field_type == (FieldTypeModel::Link { target }) implies exists|x: Seq<char>|
        op_up_sql(MigrationOpModel::AlterTableAddColumn { table_name: table, column: f })
            == #[trigger] (x + " REFERENCES "@ + target + "(id);\n"@) by {
        let x = "ALTER TABLE "@ + table + " ADD COLUMN "@ + f.name + " "@ + type_sql(f.field_type)
            + constraints_sql(f.constraints);
        reveal_strlit("(id)");
        reveal_strlit(";\n");
        reveal_strlit("(id);\n");
        assert(reference_sql(f.field_type) == " REFERENCES "@ + target + "(id)"@);
        assert("(id)"@ + ";\n"@ =~= "(id);\n"@);
        assert(op_up_sql(MigrationOpModel::AlterTableAddColumn { table_name: table, column: f })
            =~= x + " REFERENCES "@ + target + "(id);\n"@);
    }
}


proof fn lemma_creates_upto_has(ex: Seq<SchemaInfoModel>, act: Seq<IntrospectedTable>, n: int, i: int)
    requires
        0 <= i < n <= ex.len(),
        counts(ex, i),
        last_table(act, ex[i].table_name) == -1,
    ensures
        creates_upto(ex, act, n).contains(
            MigrationOpModel::CreateTable { name: ex[i].table_name, columns: ex[i].fields },
        ),
    decreases n,
{
    let op = MigrationOpModel::CreateTable { name: ex[i].table_name, columns: ex[i].fields };
    let tail = if counts(ex, n - 1) && last_table(act, ex[n - 1].table_name) == -1 {
        seq![
            MigrationOpModel::CreateTable {
                name: ex[n - 1].table_name,
                columns: ex[n - 1].fields,
            },
        ]
    } else {
        Seq::empty()
    };
    assert(creates_upto(ex, act, n) == creates_upto(ex, act, n - 1) + tail);
    if i == n - 1 {
        assert(tail[0] == op);
    } else {
        lemma_creates_upto_has(ex, act, n - 1, i);
    }
    lemma_contains_concat(creates_upto(ex, act, n - 1), tail, op);
}

proof fn lemma_drops_upto_has(ex: Seq<SchemaInfoModel>, act: Seq<IntrospectedTable>, n: int, k: int)
    requires
        0 <= k < n <= act.len(),
        last_table(act, act[k].name@) == k,
        last_schema(ex, act[k].name@) == -1,
    ensures
        drops_upto(ex, act, n).contains(MigrationOpModel::DropTable { name: act[k].name@ }),
    decreases n,
{
    let op = MigrationOpModel::DropTable { name: act[k].name@ };
    let tail = if last_table(act, act[n - 1].name@) == n - 1 && last_schema(ex, act[n - 1].name@)
        == -1 {
        seq![MigrationOpModel::DropTable { name: act[n - 1].name@ }]
    } else {
        Seq::empty()
    };
    assert(drops_upto(ex, act, n) == drops_upto(ex, act, n - 1) + tail);
    if k == n - 1 {
        assert(tail[0] == op);
    } else {
        lemma_drops_upto_has(ex, act, n - 1, k);
    }
    lemma_contains_concat(drops_upto(ex, act, n - 1), tail, op);
}

proof fn lemma_col_drops_of_has(s: SchemaInfoModel, t: IntrospectedTable, n: int, c: int)
    requires
        0 <= c < n <= t.columns@.len(),
        !has_field(s, t.columns@[c].name@),
        !is_core_column(t.columns@[c].name@),
    ensures
        col_drops_of(s, t, n).contains(
            MigrationOpModel::DropColumn { table_name: s.table_name, column_name: t.columns@[c].name@ },
        ),
    decreases n,
{
    let op = MigrationOpModel::DropColumn {
        table_name: s.table_name,
        column_name: t.columns@[c].name@,
    };
    let tail = if !has_field(s, t.columns@[n - 1].name@) && !is_core_column(
        t.columns@[n - 1].name@,
    ) {
        seq![
            MigrationOpModel::DropColumn {
                table_name: s.table_name,
                column_name: t.columns@[n - 1].name@,
            },
        ]
    } else {
        Seq::empty()
    };
    assert(col_drops_of(s, t, n) == col_drops_of(s, t, n - 1) + tail);
    if c == n - 1 {
        assert(tail[0] == op);
    } else {
        lemma_col_drops_of_has(s, t, n - 1, c);
    }
    lemma_contains_concat(col_drops_of(s, t, n - 1), tail, op);
}

proof fn lemma_col_drops_upto_has(
    ex: Seq<SchemaInfoModel>,
    act: Seq<IntrospectedTable>,
    n: int,
    i: int,
    c: int,
)
    requires
        0 <= i < n <= ex.len(),
        counts(ex, i),
        last_table(act, ex[i].table_name) >= 0,
        0 <= c < act[last_table(act, ex[i].table_name)].columns@.len(),
        !has_field(ex[i], act[last_table(act, ex[i].table_name)].columns@[c].name@),
        !is_core_column(act[last_table(act, ex[i].table_name)].columns@[c].name@),
    ensures
        col_drops_upto(ex, act, n).contains(
            MigrationOpModel::DropColumn {
                table_name: ex[i].table_name,
                column_name: act[last_table(act, ex[i].table_name)].columns@[c].name@,
            },
        ),
    decreases n,
{
    let op = MigrationOpModel::DropColumn {
        table_name: ex[i].table_name,
        column_name: act[last_table(act, ex[i].table_name)].columns@[c].name@,
    };
    let tail = if counts(ex, n - 1) && last_table(act, ex[n - 1].table_name) >= 0 {
        let t = act[last_table(act, ex[n - 1].table_name)];
        col_drops_of(ex[n - 1], t, t.columns@.len() as int)
    } else {
        Seq::empty()
    };
    assert(col_drops_upto(ex, act, n) == col_drops_upto(ex, act, n - 1) + tail);
    if i == n - 1 {
        let t = act[last_table(act, ex[i].table_name)];
        lemma_col_drops_of_has(ex[i], t, t.columns@.len() as int, c);
    } else {
        lemma_col_drops_upto_has(ex, act, n - 1, i, c);
    }
    lemma_contains_concat(col_drops_upto(ex, act, n - 1), tail, op);
}

proof fn lemma_layered_has(ops: Seq<MigrationOpModel>, x: MigrationOpModel)
    requires
        ops.contains(x),
    ensures
        layered(ops).contains(x),
{
    law_creation_order(ops);
    let i = choose|i: int| 0 <= i < ops.len() && ops[i] == x;
    let o = layered_order(ops);
    assert(o.contains(i));
    let p = choose|p: int| 0 <= p < o.len() && o[p] == i;
    assert(layered(ops)[p] == x);
}

/// The diff creates every missing table: for each declared schema that counts for
/// its table (the last declaration of that name) whose table is not live, the
/// migration creates that table with the schema's fields.
pub proof fn law_diff_creates_missing_tables(
    ex: Seq<SchemaInfoModel>,
    act: Seq<IntrospectedTable>,
    i: int,
)
    requires
        0 <= i < ex.len(),
        last_schema(ex, ex[i].table_name) == i,
        forall|k: int| 0 <= k < act.len() ==> (#[trigger] act[k]).name@ != ex[i].table_name,
    ensures
        diff_spec(ex, act).contains(
            MigrationOpModel::CreateTable { name: ex[i].table_name, columns: ex[i].fields },
        ),
{
    let op = MigrationOpModel::CreateTable { name: ex[i].table_name, columns: ex[i].fields };
    lemma_no_table(act, ex[i].table_name);
    lemma_creates_upto_has(ex, act, ex.len() as int, i);
    lemma_layered_has(creates_upto(ex, act, ex.len() as int), op);
    let d = drops_upto(ex, act, act.len() as int);
    let l = layered(creates_upto(ex, act, ex.len() as int));
    let a = adds_upto(ex, act, ex.len() as int);
    lemma_contains_concat(d, l, op);
    lemma_contains_concat(d + l, a, op);
    lemma_contains_concat(d + l + a, col_drops_upto(ex, act, ex.len() as int), op);
}

proof fn lemma_no_table(act: Seq<IntrospectedTable>, name: Seq<char>)
    requires
        forall|k: int| 0 <= k < act.len() ==> (#[trigger] act[k]).name@ != name,
    ensures
        last_table(act, name) == -1,
    decreases act.len(),
{
    if act.len() > 0 {
        lemma_no_table(act.drop_last(), name);
    }
}

proof fn lemma_no_schema(ex: Seq<SchemaInfoModel>, name: Seq<char>)
    requires
        forall|i: int| 0 <= i < ex.len() ==> (#[trigger] ex[i]).table_name != name,
    ensures
        last_schema(ex, name) == -1,
    decreases ex.len(),
{
    if ex.len() > 0 {
        lemma_no_schema(ex.drop_last(), name);
    }
}

/// The diff drops every undeclared table: each live table (its last listing) that no
/// schema declares is dropped by the migration.
pub proof fn law_diff_drops_undeclared_tables(
    ex: Seq<SchemaInfoModel>,
    act: Seq<IntrospectedTable>,
    k: int,
)
    requires
        0 <= k < act.len(),
        last_table(act, act[k].name@) == k,
        forall|i: int| 0 <= i < ex.len() ==> (#[trigger] ex[i]).table_name != act[k].name@,
    ensures
        diff_spec(ex, act).contains(MigrationOpModel::DropTable { name: act[k].name@ }),
{
    let op = MigrationOpModel::DropTable { name: act[k].name@ };
    lemma_no_schema(ex, act[k].name@);
    lemma_drops_upto_has(ex, act, act.len() as int, k);
    let d = drops_upto(ex, act, act.len() as int);
    let l = layered(creates_upto(ex, act, ex.len() as int));
    let a = adds_upto(ex, act, ex.len() as int);
    lemma_contains_concat(d, l, op);
    lemma_contains_concat(d + l, a, op);
    lemma_contains_concat(d + l + a, col_drops_upto(ex, act, ex.len() as int), op);
}

/// The diff drops every undeclared column: for each declared schema that counts for
/// its table whose table is live, every column of that table that is neither a
/// declared field nor one of `id`, `created_at`, `updated_at` is dropped.
pub proof fn law_diff_drops_undeclared_columns(
    ex: Seq<SchemaInfoModel>,
    act: Seq<IntrospectedTable>,
    i: int,
    c: int,
)
    requires
        0 <= i < ex.len(),
        last_schema(ex, ex[i].table_name) == i,
        last_table(act, ex[i].table_name) >= 0,
        0 <= c < act[last_table(act, ex[i].table_name)].columns@.len(),
        forall|f: int|
            0 <= f < ex[i].fields.len() ==> (#[trigger] ex[i].fields[f]).name != act[last_table(
                act,
                ex[i].table_name,
            )].columns@[c].name@,
        act[last_table(act, ex[i].table_name)].columns@[c].name@ != "id"@,
        act[last_table(act, ex[i].table_name)].columns@[c].name@ != "created_at"@,
        act[last_table(act, ex[i].table_name)].columns@[c].name@ != "updated_at"@,
    ensures
        diff_spec(ex, act).contains(
            MigrationOpModel::DropColumn {
                table_name: ex[i].table_name,
                column_name: act[last_table(act, ex[i].table_name)].columns@[c].name@,
            },
        ),
{
    let op = MigrationOpModel::DropColumn {
        table_name: ex[i].table_name,
        column_name: act[last_table(act, ex[i].table_name)].columns@[c].name@,
    };
    lemma_col_drops_upto_has(ex, act, ex.len() as int, i, c);
    let a = drops_upto(ex, act, act.len() as int) + layered(creates_upto(ex, act, ex.len() as int))
        + adds_upto(ex, act, ex.len() as int);
    lemma_contains_concat(a, col_drops_upto(ex, act, ex.len() as int), op);
}


/// Whether the declarations and the live tables call for `op`: a dropped table is
/// live and undeclared; a created table is declared (by the schema that counts for
/// it), with that schema's fields, and not live; an added column is a declared field,
/// not a many-to-many relation, that its live table lacks; a dropped column is a
/// column of a declared live table that is neither a declared field nor a core column.
pub open spec fn called_for(ex: Seq<SchemaInfoModel>, act: Seq<IntrospectedTable>, op: MigrationOpModel) -> bool {
    match op {
        MigrationOpModel::DropTable { name } => last_table(act, name) >= 0 && last_schema(ex, name)
            == -1,
        MigrationOpModel::CreateTable { name, columns } => exists|i: int|
            0 <= i < ex.len() && #[trigger] counts(ex, i) && ex[i].table_name == name
                && ex[i].fields == columns && last_table(act, name) == -1,
        MigrationOpModel::AlterTableAddColumn { table_name, column } => exists|i: int, f: int|
            0 <= i < ex.len() && counts(ex, i) && ex[i].table_name == table_name
                && last_table(act, table_name) >= 0 && 0 <= f < ex[i].fields.len()
                && #[trigger] ex[i].fields[f] == column && !(column.field_type is ManyToMany)
                && !has_column(act[last_table(act, table_name)], column.name),
        MigrationOpModel::DropColumn { table_name, column_name } => exists|i: int|
            0 <= i < ex.len() && #[trigger] counts(ex, i) && ex[i].table_name == table_name
                && last_table(act, table_name) >= 0 && has_column(
                act[last_table(act, table_name)],
                column_name,
            ) && !has_field(ex[i], column_name) && !is_core_column(column_name),
    }
}

/// Whether every operation of `s` is called for.
pub open spec fn all_called_for(
    ex: Seq<SchemaInfoModel>,
    act: Seq<IntrospectedTable>,
    s: Seq<MigrationOpModel>,
) -> bool {
    forall|p: int| 0 <= p < s.len() ==> called_for(ex, act, #[trigger] s[p])
}

proof fn lemma_all_called_for_concat(
    ex: Seq<SchemaInfoModel>,
    act: Seq<IntrospectedTable>,
    a: Seq<MigrationOpModel>,
    b: Seq<MigrationOpModel>,
)
    requires
        all_called_for(ex, act, a),
        all_called_for(ex, act, b),
    ensures
        all_called_for(ex, act, a + b),
{
    assert forall|p: int| 0 <= p < (a + b).len() implies called_for(ex, act, #[trigger] (a + b)[p]) by {
        if p < a.len() {
            assert((a + b)[p] == a[p]);
        } else {
            assert((a + b)[p] == b[p - a.len()]);
        }
    }
}

proof fn lemma_drops_called_for(ex: Seq<SchemaInfoModel>, act: Seq<IntrospectedTable>, n: int)
    requires
        n <= act.len(),
    ensures
        all_called_for(ex, act, drops_upto(ex, act, n)),
    decreases n,
{
    if n > 0 {
        lemma_drops_called_for(ex, act, n - 1);
        let tail = if last_table(act, act[n - 1].name@) == n - 1 && last_schema(
            ex,
            act[n - 1].name@,
        ) == -1 {
            seq![MigrationOpModel::DropTable { name: act[n - 1].name@ }]
        } else {
            Seq::empty()
        };
        assert(all_called_for(ex, act, tail));
        lemma_all_called_for_concat(ex, act, drops_upto(ex, act, n - 1), tail);
    }
}

proof fn lemma_creates_called_for(ex: Seq<SchemaInfoModel>, act: Seq<IntrospectedTable>, n: int)
    requires
        n <= ex.len(),
    ensures
        all_called_for(ex, act, creates_upto(ex, act, n)),
    decreases n,
{
    if n > 0 {
        lemma_creates_called_for(ex, act, n - 1);
        let tail = if counts(ex, n - 1) && last_table(act, ex[n - 1].table_name) == -1 {
            seq![
                MigrationOpModel::CreateTable {
                    name: ex[n - 1].table_name,
                    columns: ex[n - 1].fields,
                },
            ]
        } else {
            Seq::empty()
        };
        if tail.len() > 0 {
            assert(called_for(ex, act, tail[0]));
        }
        assert(all_called_for(ex, act, tail));
        lemma_all_called_for_concat(ex, act, creates_upto(ex, act, n - 1), tail);
    }
}

proof fn lemma_adds_of_called_for(
    ex: Seq<SchemaInfoModel>,
    act: Seq<IntrospectedTable>,
    i: int,
    n: int,
)
    requires
        0 <= i < ex.len(),
        counts(ex, i),
        last_table(act, ex[i].table_name) >= 0,
        n <= ex[i].fields.len(),
    ensures
        all_called_for(ex, act, adds_of(ex[i], act[last_table(act, ex[i].table_name)], n)),
    decreases n,
{
    let s = ex[i];
    let t = act[last_table(act, ex[i].table_name)];
    if n > 0 {
        lemma_adds_of_called_for(ex, act, i, n - 1);
        let tail = if !(s.fields[n - 1].field_type is ManyToMany) && !has_column(
            t,
            s.fields[n - 1].name,
        ) {
            seq![
                MigrationOpModel::AlterTableAddColumn {
                    table_name: s.table_name,
                    column: s.fields[n - 1],
                },
            ]
        } else {
            Seq::empty()
        };
        if tail.len() > 0 {
            assert(s.fields[n - 1] == s.fields[n - 1]);
            assert(called_for(ex, act, tail[0]));
        }
        assert(all_called_for(ex, act, tail));
        lemma_all_called_for_concat(ex, act, adds_of(s, t, n - 1), tail);
    }
}

proof fn lemma_col_drops_of_called_for(
    ex: Seq<SchemaInfoModel>,
    act: Seq<IntrospectedTable>,
    i: int,
    n: int,
)
    requires
        0 <= i < ex.len(),
        counts(ex, i),
        last_table(act, ex[i].table_name) >= 0,
        n <= act[last_table(act, ex[i].table_name)].columns@.len(),
    ensures
        all_called_for(ex, act, col_drops_of(ex[i], act[last_table(act, ex[i].table_name)], n)),
    decreases n,
{
    let s = ex[i];
    let t = act[last_table(act, ex[i].table_name)];
    if n > 0 {
        lemma_col_drops_of_called_for(ex, act, i, n - 1);
        let tail = if !has_field(s, t.columns@[n - 1].name@) && !is_core_column(
            t.columns@[n - 1].name@,
        ) {
            seq![
                MigrationOpModel::DropColumn {
                    table_name: s.table_name,
                    column_name: t.columns@[n - 1].name@,
                },
            ]
        } else {
            Seq::empty()
        };
        if tail.len() > 0 {
            assert(has_column(t, t.columns@[n - 1].name@));
            assert(called_for(ex, act, tail[0]));
        }
        assert(all_called_for(ex, act, tail));
        lemma_all_called_for_concat(ex, act, col_drops_of(s, t, n - 1), tail);
    }
}

proof fn lemma_changes_called_for(ex: Seq<SchemaInfoModel>, act: Seq<IntrospectedTable>, n: int)
    requires
        n <= ex.len(),
    ensures
        all_called_for(ex, act, adds_upto(ex, act, n)),
        all_called_for(ex, act, col_drops_upto(ex, act, n)),
    decreases n,
{
    if n > 0 {
        lemma_changes_called_for(ex, act, n - 1);
        if counts(ex, n - 1) && last_table(act, ex[n - 1].table_name) >= 0 {
            let t = act[last_table(act, ex[n - 1].table_name)];
            lemma_adds_of_called_for(ex, act, n - 1, ex[n - 1].fields.len() as int);
            lemma_col_drops_of_called_for(ex, act, n - 1, t.columns@.len() as int);
            lemma_all_called_for_concat(
                ex,
                act,
                adds_upto(ex, act, n - 1),
                adds_of(ex[n - 1], t, ex[n - 1].fields.len() as int),
            );
            lemma_all_called_for_concat(
                ex,
                act,
                col_drops_upto(ex, act, n - 1),
                col_drops_of(ex[n - 1], t, t.columns@.len() as int),
            );
        } else {
            assert(adds_upto(ex, act, n) =~= adds_upto(ex, act, n - 1));
            assert(col_drops_upto(ex, act, n) =~= col_drops_upto(ex, act, n - 1));
        }
    }
}

/// The diff holds nothing that is not called for: every operation it gives is a
/// drop of a live undeclared table, a creation of a declared table that is not live
/// (with its declared fields), an added column for a declared field (not many-to-many)
/// that its live table lacks, or a drop of a live column that is neither declared nor
/// a core column.
pub proof fn law_diff_only_what_is_called_for(ex: Seq<SchemaInfoModel>, act: Seq<IntrospectedTable>)
    ensures
        forall|p: int|
            0 <= p < diff_spec(ex, act).len() ==> called_for(ex, act, #[trigger] diff_spec(ex, act)[p]),
{
    let c = creates_upto(ex, act, ex.len() as int);
    lemma_drops_called_for(ex, act, act.len() as int);
    lemma_creates_called_for(ex, act, ex.len() as int);
    lemma_changes_called_for(ex, act, ex.len() as int);
    law_creation_order(c);
    assert(all_called_for(ex, act, layered(c))) by {
        assert forall|p: int| 0 <= p < layered(c).len() implies called_for(
            ex,
            act,
            #[trigger] layered(c)[p],
        ) by {
            let j = layered_order(c)[p];
            assert(0 <= j < c.len());
            assert(called_for(ex, act, c[j]));
        }
    }
    let d = drops_upto(ex, act, act.len() as int);
    lemma_all_called_for_concat(ex, act, d, layered(c));
    lemma_all_called_for_concat(ex, act, d + layered(c), adds_upto(ex, act, ex.len() as int));
    lemma_all_called_for_concat(
        ex,
        act,
        d + layered(c) + adds_upto(ex, act, ex.len() as int),
        col_drops_upto(ex, act, ex.len() as int),
    );
}


/// The rollback of an operation undoes what its forward SQL makes: a created table is
/// dropped again and an added column is dropped from its table again; the forward SQL
/// creates that table, or adds that column to that table. Dropped tables and columns
/// cannot be brought back, so their rollback is a comment that asks for a manual one.
pub proof fn law_rollback_undoes_forward(op: MigrationOpModel)
    ensures
        forall|name: Seq<char>, cols: Seq<FieldInfoModel>|
            op == (MigrationOpModel::CreateTable { name, columns: cols }) ==> op_down_sql(op)
                == "DROP TABLE "@ + name + ";\n"@ && exists|r: Seq<char>|
                #[trigger] op_up_sql(op) == "CREATE TABLE "@ + name + " (\n"@ + r,
        forall|table: Seq<char>, f: FieldInfoModel|
            op == (MigrationOpModel::AlterTableAddColumn { table_name: table, column: f })
                ==> op_down_sql(op) == "ALTER TABLE "@ + table + " DROP COLUMN "@ + f.name
                + ";\n"@ && exists|r: Seq<char>|
                #[trigger] op_up_sql(op) == "ALTER TABLE "@ + table + " ADD COLUMN "@ + f.name
                    + " "@ + r,
        (op is DropTable || op is DropColumn) ==> exists|r: Seq<char>|
            #[trigger] op_down_sql(op) == "-- TODO: Manual rollback needed for "@ + r,
{
    match op {
        MigrationOpModel::CreateTable { name, columns } => {
            let r = "    id TEXT PRIMARY KEY,\n"@ + create_columns_sql(columns)
                + "    created_at TEXT DEFAULT (datetime('now')),\n"@
                + "    updated_at TEXT DEFAULT (datetime('now'))\n"@ + ");\n"@;
            assert(op_up_sql(op) =~= "CREATE TABLE "@ + name + " (\n"@ + r);
        },
        MigrationOpModel::AlterTableAddColumn { table_name, column } => {
            let r = type_sql(column.field_type) + constraints_sql(column.constraints)
                + reference_sql(column.field_type) + ";\n"@;
            assert(op_up_sql(op) =~= "ALTER TABLE "@ + table_name + " ADD COLUMN "@ + column.name
                + " "@ + r);
        },
        MigrationOpModel::DropColumn { table_name, column_name } => {
            reveal_strlit("-- TODO: Manual rollback needed for DropColumn ");
            reveal_strlit("-- TODO: Manual rollback needed for ");
            reveal_strlit("DropColumn ");
            let r = "DropColumn "@ + column_name + " on "@ + table_name + "\n"@;
            assert("-- TODO: Manual rollback needed for DropColumn "@ =~= "-- TODO: Manual rollback needed for "@
                + "DropColumn "@);
            assert(op_down_sql(op) =~= "-- TODO: Manual rollback needed for "@ + r);
        },
        MigrationOpModel::DropTable { name } => {
            reveal_strlit("-- TODO: Manual rollback needed for DropTable ");
            reveal_strlit("-- TODO: Manual rollback needed for ");
            reveal_strlit("DropTable ");
            let r = "DropTable "@ + name + "\n"@;
            assert("-- TODO: Manual rollback needed for DropTable "@ =~= "-- TODO: Manual rollback needed for "@
                + "DropTable "@);
            assert(op_down_sql(op) =~= "-- TODO: Manual rollback needed for "@ + r);
        },
    }
}

} // verus!
