//! The SQL statements of the entity repository, the source of each statement
//! parameter, paging, and the reading of `SQLite`'s unique-constraint failures.
use vstd::prelude::*;

use crate::entity::{
    FieldInfo, FieldInfoModel, Pagination, fields_model, is_sql_identifier,
    validate_sql_identifier,
};
use crate::error::Error;
use crate::migration::{find_char, lemma_find_char_at, lemma_find_char_none};
use crate::text::{chars_of, concat2, push_char, str_eq};

verus! {

/// Texts joined with `sep` between them.
pub open spec fn join_with(parts: Seq<Seq<char>>, sep: Seq<char>) -> Seq<char>
    decreases parts.len(),
{
    if parts.len() == 0 {
        Seq::empty()
    } else if parts.len() == 1 {
        parts[0]
    } else {
        join_with(parts.drop_last(), sep) + sep + parts.last()
    }
}

/// Joins strings with `sep` between them.
pub fn join_strings(parts: &Vec<String>, sep: &str) -> (r: String)
    ensures
        r@ == join_with(parts@.map_values(|p: String| p@), sep@),
{
    let ghost ps = parts@.map_values(|p: String| p@);
    let mut r = String::new();
    for k in 0..parts.len()
        invariant
            ps == parts@.map_values(|p: String| p@),
            ps.len() == parts@.len(),
            r@ == join_with(ps.take(k as int), sep@),
    {
        if k > 0 {
            r.append(sep);
        }
        r.append(parts[k].as_str());
        assert(ps.take(k + 1).drop_last() == ps.take(k as int));
    }
    assert(ps.take(parts.len() as int) == ps);
    r
}

/// The first name of `names` that is not a safe SQL identifier, if any.
pub open spec fn first_bad_name(names: Seq<Seq<char>>) -> Option<Seq<char>>
    decreases names.len(),
{
    if names.len() == 0 {
        None
    } else if !is_sql_identifier(names[0]) {
        Some(names[0])
    } else {
        first_bad_name(names.drop_first())
    }
}

/// A list of names passes the check exactly when every one of them is a safe SQL
/// identifier: so a statement that is built splices no other name.
pub proof fn law_checked_names_are_identifiers(names: Seq<Seq<char>>)
    ensures
        first_bad_name(names) is None <==> forall|i: int|
            0 <= i < names.len() ==> is_sql_identifier(#[trigger] names[i]),
    decreases names.len(),
{
    if names.len() > 0 {
        law_checked_names_are_identifiers(names.drop_first());
        if first_bad_name(names) is None {
            assert forall|i: int| 0 <= i < names.len() implies is_sql_identifier(
                #[trigger] names[i],
            ) by {
                if i > 0 {
                    assert(names[i] == names.drop_first()[i - 1]);
                }
            }
        } else if is_sql_identifier(names[0]) {
            let j = choose|j: int|
                0 <= j < names.drop_first().len() && !is_sql_identifier(
                    #[trigger] names.drop_first()[j],
                );
            assert(names.drop_first()[j] == names[j + 1]);
        }
    }
}

/// The error that refuses the identifier `name`.
pub open spec fn refuses<T>(r: Result<T, Error>, name: Seq<char>) -> bool {
    r matches Err(Error::SchemaError(m)) && m@ == "invalid SQL identifier: "@ + name
}

/// Checks names in order; the error refuses the first unsafe one.
pub fn validate_identifiers(names: &Vec<String>) -> (r: Result<(), Error>)
    ensures
        first_bad_name(names@.map_values(|p: String| p@)) is None ==> r is Ok,
        first_bad_name(names@.map_values(|p: String| p@)) matches Some(b) ==> refuses(r, b),
{
    let ghost ns = names@.map_values(|p: String| p@);
    assert(ns.skip(0) == ns);
    for k in 0..names.len()
        invariant
            ns == names@.map_values(|p: String| p@),
            ns.len() == names@.len(),
            first_bad_name(ns) == first_bad_name(ns.skip(k as int)),
    {
        let ghost rest = ns.skip(k as int);
        assert(rest[0] == ns[k as int]);
        assert(rest.drop_first() == ns.skip(k + 1));
        match validate_sql_identifier(names[k].as_str()) {
            Ok(()) => {},
            Err(e) => {
                return Err(e);
            },
        }
    }
    assert(ns.skip(names.len() as int).len() == 0);
    Ok(())
}

/// Where the value of a statement parameter comes from.
#[derive(Debug)]
pub enum ParamSource {
    /// The current time (RFC 3339).
    Now,
    /// The entity's field of that name (null when the entity has none).
    Field(String),
    /// The id that the statement targets.
    Id,
}

/// The mathematical value of a [`ParamSource`].
pub enum ParamSourceModel {
    Now,
    Field(Seq<char>),
    Id,
}

impl View for ParamSource {
    type V = ParamSourceModel;

    open spec fn view(&self) -> ParamSourceModel {
        match self {
            ParamSource::Now => ParamSourceModel::Now,
            ParamSource::Field(f) => ParamSourceModel::Field(f@),
            ParamSource::Id => ParamSourceModel::Id,
        }
    }
}

/// The values of a sequence of parameter sources.
pub open spec fn params_model(s: Seq<ParamSource>) -> Seq<ParamSourceModel> {
    s.map_values(|p: ParamSource| p@)
}

/// A statement with `?` placeholders, the columns that it writes, and the source of
/// each placeholder's value.
pub struct Statement {
    pub sql: String,
    pub columns: Vec<String>,
    pub params: Vec<ParamSource>,
}

/// The columns that an insert writes: the fields other than `id`, in order.
pub open spec fn insert_columns(fields: Seq<FieldInfoModel>) -> Seq<Seq<char>>
    decreases fields.len(),
{
    if fields.len() == 0 {
        Seq::empty()
    } else {
        insert_columns(fields.drop_last()) + if fields.last().name == "id"@ {
            Seq::empty()
        } else {
            seq![fields.last().name]
        }
    }
}

/// Whether a column holds a row's time stamps.
pub open spec fn is_timestamp_column(c: Seq<char>) -> bool {
    c == "created_at"@ || c == "updated_at"@
}

/// The value source of each inserted column: time stamp columns get the current
/// time, the others the entity's field.
pub open spec fn insert_params(cols: Seq<Seq<char>>) -> Seq<ParamSourceModel> {
    cols.map_values(
        |c: Seq<char>|
            if is_timestamp_column(c) {
                ParamSourceModel::Now
            } else {
                ParamSourceModel::Field(c)
            },
    )
}

/// `INSERT INTO table (c1, c2) VALUES (?, ?)`.
pub open spec fn insert_sql(table: Seq<char>, cols: Seq<Seq<char>>) -> Seq<char> {
    "INSERT INTO "@ + table + " ("@ + join_with(cols, ", "@) + ") VALUES ("@ + join_with(
        Seq::new(cols.len(), |i: int| "?"@),
        ", "@,
    ) + ")"@
}

/// The names of the fields, in order.
pub open spec fn field_names(fields: Seq<FieldInfoModel>) -> Seq<Seq<char>> {
    fields.map_values(|f: FieldInfoModel| f.name)
}

/// The value source of each assigned field of an update, then the id: `updated_at`
/// gets the current time, the others the entity's field.
pub open spec fn update_params(names: Seq<Seq<char>>) -> Seq<ParamSourceModel> {
    names.map_values(
        |c: Seq<char>|
            if c == "updated_at"@ {
                ParamSourceModel::Now
            } else {
                ParamSourceModel::Field(c)
            },
    ).push(ParamSourceModel::Id)
}

/// `UPDATE table SET a = ?, b = ? WHERE id = ?`.
pub open spec fn update_sql(table: Seq<char>, names: Seq<Seq<char>>) -> Seq<char> {
    "UPDATE "@ + table + " SET "@ + join_with(
        names.map_values(|c: Seq<char>| c + " = ?"@),
        ", "@,
    ) + " WHERE id = ?"@
}

fn check_table(table: &str) -> (r: Result<(), Error>)
    ensures
        is_sql_identifier(table@) ==> r is Ok,
        !is_sql_identifier(table@) ==> refuses(r, table@),
{
    validate_sql_identifier(table)
}

/// The insert statement of an entity: the table and every written column must be
/// safe identifiers (the table is checked first, then the columns in order).
pub fn insert_statement(table: &str, fields: &Vec<FieldInfo>) -> (r: Result<Statement, Error>)
    ensures
        !is_sql_identifier(table@) ==> refuses(r, table@),
        is_sql_identifier(table@) ==> (first_bad_name(insert_columns(fields_model(fields@)))
            matches Some(b) ==> refuses(r, b)),
        is_sql_identifier(table@) && first_bad_name(insert_columns(fields_model(fields@)))
            is None ==> (r matches Ok(st) && st.sql@ == insert_sql(
            table@,
            insert_columns(fields_model(fields@)),
        ) && params_model(st.params@) == insert_params(insert_columns(fields_model(fields@)))
            && st.columns@.map_values(|p: String| p@) == insert_columns(fields_model(fields@))),
{
    check_table(table)?;
    let ghost fm = fields_model(fields@);
    let mut cols: Vec<String> = Vec::new();
    for k in 0..fields.len()
        invariant
            fm == fields_model(fields@),
            fm.len() == fields@.len(),
            cols@.map_values(|p: String| p@) == insert_columns(fm.take(k as int)),
    {
        let ghost prev = cols@.map_values(|p: String| p@);
        assert(fm.take(k + 1).drop_last() == fm.take(k as int));
        if !str_eq(fields[k].name.as_str(), "id") {
            cols.push(fields[k].name.clone());
            assert(cols@.map_values(|p: String| p@) =~= prev.push(fm[k as int].name));
        }
    }
    assert(fm.take(fields.len() as int) == fm);
    let ghost cm = cols@.map_values(|p: String| p@);
    validate_identifiers(&cols)?;
    let mut marks: Vec<String> = Vec::new();
    let mut params: Vec<ParamSource> = Vec::new();
    for k in 0..cols.len()
        invariant
            cm == cols@.map_values(|p: String| p@),
            cm.len() == cols@.len(),
            marks@.map_values(|p: String| p@) == Seq::new(k as nat, |i: int| "?"@),
            params_model(params@) == insert_params(cm.take(k as int)),
    {
        let ghost pm = params_model(params@);
        let ghost mm = marks@.map_values(|p: String| p@);
        let ghost mv = marks@;
        let q = String::from_str("?");
        marks.push(q);
        assert(marks@ == mv.push(q));
        assert(marks@.map_values(|p: String| p@) =~= mm.push("?"@));
        assert(marks@.map_values(|p: String| p@) =~= Seq::new((k + 1) as nat, |i: int| "?"@));
        let c = &cols[k];
        let src = if str_eq(c.as_str(), "created_at") || str_eq(c.as_str(), "updated_at") {
            ParamSource::Now
        } else {
            ParamSource::Field(c.clone())
        };
        let ghost pv = params@;
        params.push(src);
        assert(params@ == pv.push(src));
        assert(params_model(params@) =~= pm.push(src@));
        assert(cm.take(k + 1) == cm.take(k as int).push(cm[k as int]));
        assert(params_model(params@) =~= insert_params(cm.take(k + 1)));
    }
    assert(cm.take(cols.len() as int) == cm);
    let mut sql = concat2("INSERT INTO ", table);
    sql.append(" (");
    let joined = join_strings(&cols, ", ");
    sql.append(joined.as_str());
    sql.append(") VALUES (");
    let qs = join_strings(&marks, ", ");
    sql.append(qs.as_str());
    sql.append(")");
    Ok(Statement { sql, columns: cols, params })
}

/// The update statement of an entity: every field is assigned, the row is found by
/// id; the table and every field name must be safe identifiers.
pub fn update_statement(table: &str, fields: &Vec<FieldInfo>) -> (r: Result<Statement, Error>)
    ensures
        !is_sql_identifier(table@) ==> refuses(r, table@),
        is_sql_identifier(table@) ==> (first_bad_name(field_names(fields_model(fields@)))
            matches Some(b) ==> refuses(r, b)),
        is_sql_identifier(table@) && first_bad_name(field_names(fields_model(fields@))) is None
            ==> (r matches Ok(st) && st.sql@ == update_sql(
            table@,
            field_names(fields_model(fields@)),
        ) && params_model(st.params@) == update_params(field_names(fields_model(fields@)))
            && st.columns@.map_values(|p: String| p@) == field_names(fields_model(fields@))),
{
    check_table(table)?;
    let ghost fm = fields_model(fields@);
    let ghost names = field_names(fm);
    let mut ns: Vec<String> = Vec::new();
    let mut sets: Vec<String> = Vec::new();
    let mut params: Vec<ParamSource> = Vec::new();
    for k in 0..fields.len()
        invariant
            fm == fields_model(fields@),
            names == field_names(fm),
            fm.len() == fields@.len(),
            ns@.map_values(|p: String| p@) == names.take(k as int),
            sets@.map_values(|p: String| p@) == names.take(k as int).map_values(
                |c: Seq<char>| c + " = ?"@,
            ),
            params_model(params@) == names.take(k as int).map_values(
                |c: Seq<char>|
                    if c == "updated_at"@ {
                        ParamSourceModel::Now
                    } else {
                        ParamSourceModel::Field(c)
                    },
            ),
    {
        let name = &fields[k].name;
        assert(names[k as int] == name@);
        assert(names.take(k + 1) == names.take(k as int).push(name@));
        let ghost sv = sets@;
        let ghost sm = sets@.map_values(|p: String| p@);
        let ghost pv = params@;
        let ghost pm = params_model(params@);
        ns.push(name.clone());
        assert(ns@.map_values(|p: String| p@) =~= names.take(k + 1));
        let set = concat2(name.as_str(), " = ?");
        sets.push(set);
        assert(sets@ == sv.push(set));
        assert(sets@.map_values(|p: String| p@) =~= sm.push(name@ + " = ?"@));
        assert(sets@.map_values(|p: String| p@) =~= names.take(k + 1).map_values(
            |c: Seq<char>| c + " = ?"@,
        ));
        let src = if str_eq(name.as_str(), "updated_at") {
            ParamSource::Now
        } else {
            ParamSource::Field(name.clone())
        };
        params.push(src);
        assert(params@ == pv.push(src));
        assert(params_model(params@) =~= pm.push(src@));
        assert(params_model(params@) =~= names.take(k + 1).map_values(
            |c: Seq<char>|
                if c == "updated_at"@ {
                    ParamSourceModel::Now
                } else {
                    ParamSourceModel::Field(c)
                },
        ));
    }
    assert(names.take(fields.len() as int) == names);
    validate_identifiers(&ns)?;
    let ghost pm = params_model(params@);
    params.push(ParamSource::Id);
    assert(params_model(params@) =~= pm.push(ParamSourceModel::Id));
    let mut sql = concat2("UPDATE ", table);
    sql.append(" SET ");
    let joined = join_strings(&sets, ", ");
    sql.append(joined.as_str());
    sql.append(" WHERE id = ?");
    Ok(Statement { sql, columns: ns, params })
}

/// `SELECT * FROM table WHERE id = ?`, for a safe table name.
pub fn select_by_id_statement(table: &str) -> (r: Result<String, Error>)
    ensures
        is_sql_identifier(table@) ==> (r matches Ok(s) && s@ == "SELECT * FROM "@ + table@
            + " WHERE id = ?"@),
        !is_sql_identifier(table@) ==> refuses(r, table@),
{
    check_table(table)?;
    let mut s = concat2("SELECT * FROM ", table);
    s.append(" WHERE id = ?");
    Ok(s)
}

/// `DELETE FROM table WHERE id = ?`, for a safe table name.
pub fn delete_statement(table: &str) -> (r: Result<String, Error>)
    ensures
        is_sql_identifier(table@) ==> (r matches Ok(s) && s@ == "DELETE FROM "@ + table@
            + " WHERE id = ?"@),
        !is_sql_identifier(table@) ==> refuses(r, table@),
{
    check_table(table)?;
    let mut s = concat2("DELETE FROM ", table);
    s.append(" WHERE id = ?");
    Ok(s)
}

/// `SELECT COUNT(*) FROM table`, for a safe table name.
pub fn count_statement(table: &str) -> (r: Result<String, Error>)
    ensures
        is_sql_identifier(table@) ==> (r matches Ok(s) && s@ == "SELECT COUNT(*) FROM "@
            + table@),
        !is_sql_identifier(table@) ==> refuses(r, table@),
{
    check_table(table)?;
    Ok(concat2("SELECT COUNT(*) FROM ", table))
}

/// The offset of the first row of a page: pages count from 1, and page 0 is read as
/// page 1.
pub open spec fn page_offset(p: Pagination) -> int {
    (if p.page == 0 {
        0
    } else {
        p.page - 1
    }) * p.per_page
}

/// `SELECT * FROM table LIMIT ? OFFSET ?` with its limit and offset, for a safe table
/// name. The offset must fit in a `u64`.
pub fn select_page_statement(table: &str, pagination: &Pagination) -> (r: Result<
    (String, u64, u64),
    Error,
>)
    requires
        page_offset(*pagination) <= u64::MAX,
    ensures
        is_sql_identifier(table@) ==> (r matches Ok((s, limit, offset)) && s@ == "SELECT * FROM "@
            + table@ + " LIMIT ? OFFSET ?"@ && limit == pagination.per_page && offset
            == page_offset(*pagination)),
        !is_sql_identifier(table@) ==> refuses(r, table@),
{
    check_table(table)?;
    let limit = pagination.per_page;
    let before = pagination.page.saturating_sub(1);
    assert(before * limit == page_offset(*pagination));
    let offset = before * limit;
    let mut s = concat2("SELECT * FROM ", table);
    s.append(" LIMIT ? OFFSET ?");
    Ok((s, limit, offset))
}

// ---------------------------------------------------------------------------
// Unique-constraint failures
// ---------------------------------------------------------------------------

/// The index where `t` first occurs in `s`, or -1.
pub open spec fn find_text(s: Seq<char>, t: Seq<char>) -> int
    decreases s.len(),
{
    if t.is_prefix_of(s) {
        0
    } else if s.len() == 0 {
        -1
    } else if find_text(s.drop_first(), t) < 0 {
        -1
    } else {
        find_text(s.drop_first(), t) + 1
    }
}

/// The second piece of `s` split at `sep`, if `s` has one.
pub open spec fn second_piece(s: Seq<char>, sep: Seq<char>) -> Option<Seq<char>> {
    let i = find_text(s, sep);
    if i < 0 {
        None
    } else {
        let rest = s.skip(i + sep.len());
        let j = find_text(rest, sep);
        Some(
            if j < 0 {
                rest
            } else {
                rest.take(j)
            },
        )
    }
}

/// The column named in a `table.column` detail: the part after the dot when there is
/// exactly one dot, otherwise the part before the first dot (all of it without one).
pub open spec fn detail_column(d: Seq<char>) -> Seq<char> {
    let i = find_char(d, '.');
    if i < 0 {
        d
    } else if find_char(d.skip(i + 1), '.') < 0 {
        d.skip(i + 1)
    } else {
        d.take(i)
    }
}

/// The index of the first column named `c`, or -1.
pub open spec fn column_index(cols: Seq<Seq<char>>, c: Seq<char>) -> int
    decreases cols.len(),
{
    if cols.len() == 0 {
        -1
    } else if cols[0] == c {
        0
    } else if column_index(cols.drop_first(), c) < 0 {
        -1
    } else {
        column_index(cols.drop_first(), c) + 1
    }
}

/// The text of the value that was written to column `c`: found by the column's
/// position among the written columns, "unknown" when there is none.
pub open spec fn written_value(cols: Seq<Seq<char>>, values: Seq<Seq<char>>, c: Seq<char>) -> Seq<
    char,
> {
    let k = column_index(cols, c);
    if 0 <= k < values.len() {
        values[k]
    } else {
        "unknown"@
    }
}

/// Whether an insert failure is a unique-constraint failure with a message that names
/// the constraint.
pub open spec fn names_unique_failure(constraint_failure: bool, message: Option<Seq<char>>) -> bool {
    constraint_failure && message is Some && find_text(message.unwrap(), "UNIQUE constraint failed"@)
        >= 0 && second_piece(message.unwrap(), ": "@) is Some
}

proof fn lemma_find_text_step(s: Seq<char>, t: Seq<char>, k: int)
    requires
        0 <= k <= s.len(),
        forall|j: int| 0 <= j < k ==> !t.is_prefix_of(#[trigger] s.skip(j)),
    ensures
        find_text(s, t) == if find_text(s.skip(k), t) < 0 {
            -1
        } else {
            find_text(s.skip(k), t) + k
        },
    decreases k,
{
    if k > 0 {
        assert(s.skip(0) == s);
        assert(!t.is_prefix_of(s));
        assert forall|j: int| 0 <= j < k - 1 implies !t.is_prefix_of(
            #[trigger] s.drop_first().skip(j),
        ) by {
            assert(s.drop_first().skip(j) == s.skip(j + 1));
        }
        lemma_find_text_step(s.drop_first(), t, k - 1);
        assert(s.drop_first().skip(k - 1) == s.skip(k));
    } else {
        assert(s.skip(0) == s);
    }
}

fn prefix_at(s: &Vec<char>, k: usize, t: &Vec<char>) -> (b: bool)
    requires
        k <= s.len(),
    ensures
        b == t@.is_prefix_of(s@.skip(k as int)),
{
    if t.len() > s.len() - k {
        return false;
    }
    for j in 0..t.len()
        invariant
            k + t.len() <= s.len(),
            forall|x: int| 0 <= x < j ==> t@[x] == s@[k + x],
    {
        if t[j] != s[k + j] {
            assert(s@.skip(k as int)[j as int] != t@[j as int]);
            return false;
        }
    }
    assert(t@ =~= s@.skip(k as int).subrange(0, t@.len() as int));
    true
}

proof fn lemma_find_text(s: Seq<char>, t: Seq<char>)
    ensures
        -1 <= find_text(s, t) <= s.len(),
        find_text(s, t) >= 0 ==> t.is_prefix_of(s.skip(find_text(s, t))),
    decreases s.len(),
{
    if t.is_prefix_of(s) {
        assert(s.skip(0) == s);
    } else if s.len() > 0 {
        lemma_find_text(s.drop_first(), t);
        let r = find_text(s.drop_first(), t);
        if r >= 0 {
            assert(s.drop_first().skip(r) == s.skip(r + 1));
        }
    }
}

/// The first position at or after `from` where `t` occurs in `s`.
fn find_text_from(s: &Vec<char>, from: usize, t: &Vec<char>) -> (r: Option<usize>)
    requires
        from <= s.len(),
    ensures
        match r {
            Some(k) => from <= k <= s.len() && k - from == find_text(s@.skip(from as int), t@)
                && t@.is_prefix_of(s@.skip(k as int)) && k + t@.len() <= s.len(),
            None => find_text(s@.skip(from as int), t@) == -1,
        },
{
    let ghost base = s@.skip(from as int);
    let mut k = from;
    while k < s.len()
        invariant
            from <= k <= s.len(),
            base == s@.skip(from as int),
            forall|j: int| 0 <= j < k - from ==> !t@.is_prefix_of(#[trigger] base.skip(j)),
        decreases s.len() - k,
    {
        if prefix_at(s, k, t) {
            proof {
                assert(base.skip(k - from) == s@.skip(k as int));
                lemma_find_text_step(base, t@, k - from);
            }
            return Some(k);
        }
        assert(base.skip(k - from) == s@.skip(k as int));
        k = k + 1;
    }
    assert(base.skip(k - from) == s@.skip(k as int));
    proof {
        lemma_find_text_step(base, t@, k - from);
    }
    if prefix_at(s, k, t) {
        return Some(k);
    }
    assert(s@.skip(k as int).len() == 0);
    None
}

fn chars_to_string(s: &Vec<char>, a: usize, b: usize) -> (r: String)
    requires
        a <= b <= s.len(),
    ensures
        r@ == s@.subrange(a as int, b as int),
{
    let mut r = String::new();
    for k in a..b
        invariant
            b <= s.len(),
            r@ == s@.subrange(a as int, k as int),
    {
        push_char(&mut r, s[k]);
        assert(s@.subrange(a as int, k + 1) == s@.subrange(a as int, k as int).push(s@[k as int]));
    }
    r
}

fn first_dot(s: &Vec<char>, from: usize) -> (r: Option<usize>)
    requires
        from <= s.len(),
    ensures
        match r {
            Some(k) => from <= k < s.len() && k - from == find_char(s@.skip(from as int), '.'),
            None => find_char(s@.skip(from as int), '.') == -1,
        },
{
    for k in from..s.len()
        invariant
            from <= s.len(),
            forall|j: int| from <= j < k ==> s@[j] != '.',
    {
        if s[k] == '.' {
            proof {
                let t = s@.skip(from as int);
                assert forall|j: int| 0 <= j < k - from implies t[j] != '.' by {
                    assert(t[j] == s@[from + j]);
                }
                lemma_find_char_at(t, '.', k - from);
            }
            return Some(k);
        }
    }
    proof {
        let t = s@.skip(from as int);
        assert forall|j: int| 0 <= j < t.len() implies t[j] != '.' by {
            assert(t[j] == s@[from + j]);
        }
        lemma_find_char_none(t, '.');
    }
    None
}

fn position_of(columns: &Vec<String>, col: &String) -> (r: Option<usize>)
    ensures
        match r {
            Some(k) => k < columns.len() && k == column_index(
                columns@.map_values(|p: String| p@),
                col@,
            ),
            None => column_index(columns@.map_values(|p: String| p@), col@) == -1,
        },
{
    let ghost cols = columns@.map_values(|p: String| p@);
    assert(cols.skip(0) == cols);
    for k in 0..columns.len()
        invariant
            cols == columns@.map_values(|p: String| p@),
            cols.len() == columns@.len(),
            column_index(cols, col@) == if column_index(cols.skip(k as int), col@) < 0 {
                -1
            } else {
                column_index(cols.skip(k as int), col@) + k
            },
    {
        let ghost rest_c = cols.skip(k as int);
        assert(rest_c[0] == cols[k as int]);
        assert(rest_c.drop_first() == cols.skip(k + 1));
        if columns[k] == *col {
            return Some(k);
        }
    }
    assert(cols.skip(columns.len() as int).len() == 0);
    None
}

/// The column that a constraint message names: the column of the second piece of the
/// message split at `": "`, if it has one.
fn constraint_column(ms: &Vec<char>) -> (r: Option<String>)
    ensures
        match second_piece(ms@, ": "@) {
            Some(d) => r matches Some(c) && c@ == detail_column(d),
            None => r is None,
        },
{
    let sep = chars_of(": ");
    assert(ms@.skip(0) == ms@);
    let i = match find_text_from(ms, 0, &sep) {
        Some(i) => i,
        None => {
            return None;
        },
    };
    proof {
        reveal_strlit(": ");
    }
    let start = i + 2;
    let found = find_text_from(ms, start, &sep);
    let end = match found {
        Some(j) => j,
        None => ms.len(),
    };
    let ghost detail = ms@.subrange(start as int, end as int);
    proof {
        let rest = ms@.skip(start as int);
        if found is Some {
            assert(detail =~= rest.take(end - start));
        } else {
            assert(detail =~= rest);
        }
    }
    assert(detail == second_piece(ms@, sep@).unwrap());
    let mut dv: Vec<char> = Vec::new();
    for k in start..end
        invariant
            start <= end <= ms.len(),
            dv@ == ms@.subrange(start as int, k as int),
    {
        dv.push(ms[k]);
        assert(ms@.subrange(start as int, k + 1) == ms@.subrange(start as int, k as int).push(
            ms@[k as int],
        ));
    }
    assert(dv@ == detail);
    assert(dv@.skip(0) == dv@);
    let col = match first_dot(&dv, 0) {
        None => chars_to_string(&dv, 0, dv.len()),
        Some(d1) => {
            assert(dv@.skip(d1 + 1) == dv@.skip(0).skip(d1 + 1));
            match first_dot(&dv, d1 + 1) {
                None => chars_to_string(&dv, d1 + 1, dv.len()),
                Some(_) => chars_to_string(&dv, 0, d1),
            }
        },
    };
    assert(col@ == detail_column(detail));
    Some(col)
}

/// Reads the failure of an insert into `table` that wrote `columns` with the value
/// texts `values` (a text written as is, an integer in decimal). A unique-constraint
/// failure whose message (`UNIQUE constraint failed: table.column`) names the column
/// becomes a `UniqueViolation` for that column and the value written to it; any other
/// failure becomes a `Database` error with the failure's text.
pub fn insert_failure_error(
    table: &str,
    columns: &Vec<String>,
    values: &Vec<String>,
    constraint_failure: bool,
    message: Option<&str>,
    failure_text: &str,
) -> (e: Error)
    ensures
        ({
            let msg = match message {
                Some(m) => Some(m@),
                None => None,
            };
            if names_unique_failure(constraint_failure, msg) {
                let col = detail_column(second_piece(msg.unwrap(), ": "@).unwrap());
                e matches Error::UniqueViolation { entity, field, value } && entity@ == table@
                    && field@ == col && value@ == written_value(
                    columns@.map_values(|p: String| p@),
                    values@.map_values(|p: String| p@),
                    col,
                )
            } else {
                e matches Error::Database(t) && t@ == failure_text@
            }
        }),
{
    let database = Error::Database(String::from_str(failure_text));
    if !constraint_failure {
        return database;
    }
    let m = match message {
        Some(m) => m,
        None => {
            return database;
        },
    };
    let ms = chars_of(m);
    let unique = chars_of("UNIQUE constraint failed");
    assert(ms@.skip(0) == ms@);
    if find_text_from(&ms, 0, &unique).is_none() {
        return database;
    }
    let col = match constraint_column(&ms) {
        Some(c) => c,
        None => {
            return database;
        },
    };
    let value = match position_of(columns, &col) {
        Some(x) => {
            if x < values.len() {
                values[x].clone()
            } else {
                String::from_str("unknown")
            }
        },
        None => String::from_str("unknown"),
    };
    Error::UniqueViolation { entity: String::from_str(table), field: col, value }
}


/// Each column that an insert writes takes its value from its own source, position
/// by position: `created_at` and `updated_at` get the current time, every other column
/// the entity's field of that name. The written columns are the fields other than
/// `id`, in order.
pub proof fn law_insert_param_sources(fields: Seq<FieldInfoModel>, cols: Seq<Seq<char>>)
    ensures
        insert_params(cols).len() == cols.len(),
        forall|j: int|
            0 <= j < cols.len() ==> #[trigger] insert_params(cols)[j] == if cols[j]
                == "created_at"@ || cols[j] == "updated_at"@ {
                ParamSourceModel::Now
            } else {
                ParamSourceModel::Field(cols[j])
            },
        insert_columns(fields) == fields.map_values(|f: FieldInfoModel| f.name).filter(
            |n: Seq<char>| n != "id"@,
        ),
    decreases fields.len(),
{
    reveal(Seq::filter);
    if fields.len() > 0 {
        law_insert_param_sources(fields.drop_last(), cols);
        let names = fields.map_values(|f: FieldInfoModel| f.name);
        assert(names.drop_last() =~= fields.drop_last().map_values(|f: FieldInfoModel| f.name));
        assert(names.last() == fields.last().name);
        if fields.last().name != "id"@ {
            assert(insert_columns(fields) =~= insert_columns(fields.drop_last()).push(
                fields.last().name,
            ));
        } else {
            assert(insert_columns(fields) =~= insert_columns(fields.drop_last()));
        }
    } else {
        assert(fields.map_values(|f: FieldInfoModel| f.name) =~= Seq::<Seq<char>>::empty());
    }
}

/// Each assigned field of an update takes its value from its own source, position by
/// position: `updated_at` gets the current time, every other field (`created_at`
/// included) the entity's field of that name; the last parameter is the row's id.
pub proof fn law_update_param_sources(names: Seq<Seq<char>>)
    ensures
        update_params(names).len() == names.len() + 1,
        forall|j: int|
            0 <= j < names.len() ==> #[trigger] update_params(names)[j] == if names[j]
                == "updated_at"@ {
                ParamSourceModel::Now
            } else {
                ParamSourceModel::Field(names[j])
            },
        update_params(names)[names.len() as int] == ParamSourceModel::Id,
{
}

} // verus!
