//! Instantiation of the abstract [`db`](super) interface for PostgreSQL.
//!
//! Each statement is rendered to SQL text with numbered placeholders and a list of parameters.
//! Values are always passed to the database as parameters, never written into the text of a
//! statement, so that no value can change the meaning of a statement.

use super::{
    AlterTable, Clause, Constraint, ConstraintKind, CreateTable, Insert, JoinClause, SchemaColumn,
    Select, SelectColumn, Type, Value, WhereClause,
};
use crate::text::{decimal, join, joined, string_views, to_decimal};
use vstd::prelude::*;
use vstd::string::*;

verus! {

/// The text of a condition which compares a column with the parameter of the given number:
/// the column, the operator, and the number of the parameter after a dollar sign.
pub open spec fn condition_text(clause: WhereClause, number: nat) -> Seq<char> {
    clause.column.text() + " "@ + clause.op.symbol() + " $"@ + decimal(number)
}

/// The text of a `JOIN` clause.
pub open spec fn join_text(clause: JoinClause) -> Seq<char> {
    " JOIN "@ + clause.table@ + " ON "@ + clause.lhs.text() + " "@ + clause.op.symbol() + " "@
        + clause.rhs.text()
}

/// The parameters of the `WHERE` clauses among `clauses`, in their order.
pub open spec fn parameters(clauses: Seq<Clause>) -> Seq<Value>
    decreases clauses.len(),
{
    if clauses.len() == 0 {
        Seq::empty()
    } else {
        match clauses.last() {
            Clause::Where(w) => parameters(clauses.drop_last()).push(w.param),
            Clause::Join(_) => parameters(clauses.drop_last()),
        }
    }
}

/// The texts of the conditions of the `WHERE` clauses among `clauses`, in their order: each
/// refers to its parameter by number, counting from 1.
pub open spec fn conditions(clauses: Seq<Clause>) -> Seq<Seq<char>>
    decreases clauses.len(),
{
    if clauses.len() == 0 {
        Seq::empty()
    } else {
        match clauses.last() {
            Clause::Where(w) => conditions(clauses.drop_last()).push(
                condition_text(w, conditions(clauses.drop_last()).len() + 1),
            ),
            Clause::Join(_) => conditions(clauses.drop_last()),
        }
    }
}

/// The text of the `JOIN` clauses among `clauses`, in their order.
pub open spec fn joins_text(clauses: Seq<Clause>) -> Seq<char>
    decreases clauses.len(),
{
    if clauses.len() == 0 {
        Seq::empty()
    } else {
        match clauses.last() {
            Clause::Where(_) => joins_text(clauses.drop_last()),
            Clause::Join(j) => joins_text(clauses.drop_last()) + join_text(j),
        }
    }
}

/// The text of the `WHERE` part of a statement with the given conditions: nothing where there
/// is no condition, and else the conditions joined by `AND`.
pub open spec fn where_text(conditions: Seq<Seq<char>>) -> Seq<char> {
    if conditions.len() == 0 {
        Seq::empty()
    } else {
        "WHERE "@ + joined(conditions, " AND "@)
    }
}

/// The text of a `SELECT` statement: the columns, the table, the `JOIN` clauses, a space, and
/// the `WHERE` part.
pub open spec fn select_text(columns: Seq<SelectColumn>, table: String, clauses: Seq<Clause>) -> Seq<
    char,
> {
    "SELECT "@ + joined(columns.map_values(|c: SelectColumn| c.text()), ", "@) + " FROM "@
        + table@ + joins_text(clauses) + " "@ + where_text(conditions(clauses))
}

/// There is one condition for each parameter.
pub proof fn lemma_conditions_len(clauses: Seq<Clause>)
    ensures
        conditions(clauses).len() == parameters(clauses).len(),
    decreases clauses.len(),
{
    if clauses.len() > 0 {
        lemma_conditions_len(clauses.drop_last());
    }
}

/// Whether two clauses differ at most in the value that a `WHERE` clause compares with.
pub open spec fn same_shape(a: Clause, b: Clause) -> bool {
    match (a, b) {
        (Clause::Where(x), Clause::Where(y)) => x.column == y.column && x.op == y.op,
        (Clause::Join(x), Clause::Join(y)) => x == y,
        _ => false,
    }
}

/// The texts of the conditions and of the `JOIN` clauses do not depend on the values that the
/// `WHERE` clauses compare with.
proof fn lemma_texts_ignore_values(a: Seq<Clause>, b: Seq<Clause>)
    requires
        a.len() == b.len(),
        forall|i: int| 0 <= i < a.len() ==> same_shape(#[trigger] a[i], b[i]),
    ensures
        conditions(a) == conditions(b),
        joins_text(a) == joins_text(b),
    decreases a.len(),
{
    if a.len() > 0 {
        assert forall|i: int| 0 <= i < a.drop_last().len() implies same_shape(
            #[trigger] a.drop_last()[i],
            b.drop_last()[i],
        ) by {
            assert(same_shape(a[i], b[i]));
        }
        lemma_texts_ignore_values(a.drop_last(), b.drop_last());
        assert(same_shape(a[a.len() - 1], b[a.len() - 1]));
    }
}

/// No value is written into the text of a query: two queries which differ at most in the
/// values that their `WHERE` clauses compare with are rendered to the same text.
pub proof fn lemma_select_text_ignores_values(
    columns: Seq<SelectColumn>,
    table: String,
    a: Seq<Clause>,
    b: Seq<Clause>,
)
    requires
        a.len() == b.len(),
        forall|i: int| 0 <= i < a.len() ==> same_shape(#[trigger] a[i], b[i]),
    ensures
        select_text(columns, table, a) == select_text(columns, table, b),
{
    lemma_texts_ignore_values(a, b);
}

/// No value is written into the text of an insertion: the text of an `INSERT` statement
/// depends on the table, the columns and the number of rows alone.
pub proof fn lemma_insert_text_ignores_values(a: Insert, b: Insert)
    requires
        a.table == b.table,
        a.columns@ == b.columns@,
        a.rows@.len() == b.rows@.len(),
    ensures
        insert_text(a.table, a.columns@, a.rows@.len() as int) == insert_text(
            b.table,
            b.columns@,
            b.rows@.len() as int,
        ),
{
}

/// Render the condition of a `WHERE` clause which refers to the parameter of the given number.
fn render_condition(clause: &WhereClause, number: usize) -> (r: String)
    ensures
        r@ == condition_text(*clause, number as nat),
{
    let mut condition = clause.column.to_string();
    condition.append(" ");
    condition.append(clause.op.to_string().as_str());
    condition.append(" $");
    condition.append(to_decimal(number as u64).as_str());
    condition
}

/// Render a `JOIN` clause.
fn render_join(clause: &JoinClause) -> (r: String)
    ensures
        r@ == join_text(*clause),
{
    let mut out = String::from_str(" JOIN ");
    out.append(clause.table.as_str());
    out.append(" ON ");
    out.append(clause.lhs.to_string().as_str());
    out.append(" ");
    out.append(clause.op.to_string().as_str());
    out.append(" ");
    out.append(clause.rhs.to_string().as_str());
    out
}

/// Render a list of selected columns.
fn render_columns(columns: &Vec<SelectColumn>) -> (r: String)
    ensures
        r@ == joined(columns@.map_values(|c: SelectColumn| c.text()), ", "@),
{
    let mut texts: Vec<String> = Vec::new();
    let mut i: usize = 0;
    while i < columns.len()
        invariant
            i <= columns@.len(),
            texts@.len() == i,
            forall|k: int| 0 <= k < i ==> (#[trigger] texts@[k])@ == columns@[k].text(),
        decreases columns@.len() - i,
    {
        texts.push(columns[i].to_string());
        i += 1;
    }
    proof {
        assert(string_views(texts@) =~= columns@.map_values(|c: SelectColumn| c.text()));
    }
    join(&texts, ", ")
}

/// Render the clauses of a query: the text of the `JOIN` clauses, the texts of the conditions
/// of the `WHERE` clauses, and the parameters.
fn render_clauses(clauses: &Vec<Clause>) -> (r: (String, Vec<String>, Vec<Value>))
    ensures
        r.0@ == joins_text(clauses@),
        string_views(r.1@) == conditions(clauses@),
        r.2@ == parameters(clauses@),
{
    let mut joins = String::new();
    let mut conditions: Vec<String> = Vec::new();
    let mut params: Vec<Value> = Vec::new();
    proof {
        assert(clauses@.take(0) =~= Seq::<Clause>::empty());
        assert(string_views(conditions@) =~= Seq::<Seq<char>>::empty());
    }
    let mut k: usize = 0;
    while k < clauses.len()
        invariant
            k <= clauses@.len(),
            joins@ == joins_text(clauses@.take(k as int)),
            string_views(conditions@) == self::conditions(clauses@.take(k as int)),
            params@ == parameters(clauses@.take(k as int)),
        decreases clauses@.len() - k,
    {
        proof {
            assert(clauses@.take(k + 1).drop_last() =~= clauses@.take(k as int));
            assert(clauses@.take(k + 1).last() == clauses@[k as int]);
            lemma_conditions_len(clauses@.take(k as int));
        }
        match &clauses[k] {
            Clause::Where(w) => {
                params.push(w.param.clone());
                let condition = render_condition(w, params.len());
                let ghost before = string_views(conditions@);
                conditions.push(condition);
                proof {
                    assert(string_views(conditions@) =~= before.push(condition@));
                }
            },
            Clause::Join(j) => {
                joins.append(render_join(j).as_str());
            },
        }
        k += 1;
    }
    proof {
        assert(clauses@.take(clauses@.len() as int) =~= clauses@);
    }
    (joins, conditions, params)
}

impl Select {
    /// Render this query as SQL text and parameters.
    ///
    /// The text selects the columns from the table, joined with the tables of the `JOIN`
    /// clauses, where all conditions of the `WHERE` clauses hold. The values that the `WHERE`
    /// clauses compare with are the parameters, in the order of the clauses.
    pub fn to_sql(&self) -> (r: (String, Vec<Value>))
        ensures
            r.0@ == select_text(self.columns@, self.table, self.clauses@),
            r.1@ == parameters(self.clauses@),
    {
        // Format the `SELECT` part of the query.
        let mut statement = String::from_str("SELECT ");
        statement.append(render_columns(&self.columns).as_str());
        statement.append(" FROM ");
        statement.append(self.table.as_str());
        // Format the `JOIN` clauses, and the `WHERE` clause if there is one.
        let (joins, conditions, params) = render_clauses(&self.clauses);
        statement.append(joins.as_str());
        statement.append(" ");
        if conditions.len() > 0 {
            statement.append("WHERE ");
            statement.append(join(&conditions, " AND ").as_str());
        }
        proof {
            assert(statement@ =~= select_text(self.columns@, self.table, self.clauses@));
        }
        (statement, params)
    }
}

/// The text of the values of the row at position `row` of an `INSERT` statement with rows of
/// `width` values: the numbers of the parameters, counting from 1 through all rows.
pub open spec fn row_text(row: int, width: int) -> Seq<char> {
    "("@ + joined(Seq::new(width as nat, |j: int| "$"@ + decimal((row * width + j + 1) as nat)), ","@)
        + ")"@
}

/// The text of an `INSERT` statement for the given number of rows.
pub open spec fn insert_text(table: String, columns: Seq<String>, rows: int) -> Seq<char> {
    "INSERT INTO "@ + table@ + " ("@ + joined(string_views(columns), ","@) + ") VALUES "@ + joined(
        Seq::new(rows as nat, |i: int| row_text(i, columns.len() as int)),
        ","@,
    )
}

/// The values of the first `count` rows, row by row.
pub open spec fn flattened(rows: Seq<Vec<Value>>, count: int) -> Seq<Value>
    decreases count,
{
    if count <= 0 {
        Seq::empty()
    } else {
        flattened(rows, count - 1) + rows[count - 1]@
    }
}

/// Whether every row holds the given number of values.
pub open spec fn uniform(rows: Seq<Vec<Value>>, width: int) -> bool {
    forall|i: int| 0 <= i < rows.len() ==> (#[trigger] rows[i])@.len() == width
}

impl Insert {
    /// Render this statement as SQL text and parameters.
    ///
    /// The text names the table and the columns, and one group of placeholders for each row.
    /// The values of the rows are the parameters, row by row. Nothing is rendered unless every
    /// row holds one value for each column.
    #[verifier::loop_isolation(false)]
    pub fn to_sql(&self) -> (r: Option<(String, Vec<Value>)>)
        ensures
            uniform(self.rows@, self.columns@.len() as int) ==> (r matches Some((text, params))
                && text@ == insert_text(self.table, self.columns@, self.rows@.len() as int)
                && params@ == flattened(self.rows@, self.rows@.len() as int)),
            !uniform(self.rows@, self.columns@.len() as int) ==> r is None,
    {
        let width = self.columns.len();
        let mut rows: Vec<String> = Vec::new();
        let mut params: Vec<Value> = Vec::new();
        let mut i: usize = 0;
        while i < self.rows.len()
            invariant
                i <= self.rows@.len(),
                rows@.len() == i,
                forall|k: int| 0 <= k < i ==> (#[trigger] self.rows@[k])@.len() == width,
                forall|k: int| 0 <= k < i ==> (#[trigger] rows@[k])@ == row_text(k, width as int),
                params@ == flattened(self.rows@, i as int),
                params@.len() == i * width,
            decreases self.rows@.len() - i,
        {
            if self.rows[i].len() != width {
                return None;
            }
            let ghost before = params@;
            let mut values: Vec<String> = Vec::new();
            let mut j: usize = 0;
            while j < width
                invariant
                    j <= width,
                    i < self.rows@.len(),
                    self.rows@[i as int]@.len() == width,
                    values@.len() == j,
                    params@ == before + self.rows@[i as int]@.take(j as int),
                    forall|k: int|
                        0 <= k < j ==> (#[trigger] values@[k])@ == "$"@ + decimal(
                            (i * width + k + 1) as nat,
                        ),
                decreases width - j,
            {
                // In the query itself, just reference a parameter by number. We will pass the
                // value itself into the query as a parameter to prevent SQL injection.
                params.push(self.rows[i][j].clone());
                proof {
                    let row = self.rows@[i as int]@;
                    assert(row.take(j + 1) =~= row.take(j as int).push(row[j as int]));
                    assert(params@ =~= before + row.take(j + 1));
                    assert(params@.len() == i * width + j + 1);
                }
                // Params are 1-indexed.
                let mut placeholder = String::from_str("$");
                placeholder.append(to_decimal(params.len() as u64).as_str());
                values.push(placeholder);
                j += 1;
            }
            proof {
                let row = self.rows@[i as int]@;
                assert(row.take(width as int) =~= row);
                assert(string_views(values@) =~= Seq::new(
                    width as nat,
                    |k: int| "$"@ + decimal((i * width + k + 1) as nat),
                ));
                assert((i + 1) * width == i * width + width) by (nonlinear_arith);
            }
            let mut text = String::from_str("(");
            text.append(join(&values, ",").as_str());
            text.append(")");
            rows.push(text);
            i += 1;
        }
        proof {
            assert(string_views(rows@) =~= Seq::new(
                self.rows@.len(),
                |k: int| row_text(k, width as int),
            ));
        }
        let mut statement = String::from_str("INSERT INTO ");
        statement.append(self.table.as_str());
        statement.append(" (");
        statement.append(join(&self.columns, ",").as_str());
        statement.append(") VALUES ");
        statement.append(join(&rows, ",").as_str());
        Some((statement, params))
    }
}

/// The name of a type of column in PostgreSQL.
pub open spec fn type_text(ty: Type) -> Seq<char> {
    match ty {
        Type::Int4 => "int4"@,
        Type::Int8 => "int8"@,
        Type::UInt4 => "int8"@,
        Type::UInt8 => "int8"@,
        Type::Text => "text"@,
        Type::Serial => "serial"@,
    }
}

/// The text of the declaration of a column.
pub open spec fn column_text(column: SchemaColumn) -> Seq<char> {
    column.name@ + " "@ + type_text(column.ty)
}

/// The text of a constraint.
pub open spec fn constraint_text(constraint: Constraint) -> Seq<char> {
    let columns = "("@ + joined(string_views(constraint.columns@), ","@) + ")"@;
    match constraint.kind {
        ConstraintKind::PrimaryKey => "PRIMARY KEY "@ + columns,
        ConstraintKind::Unique => "UNIQUE "@ + columns,
        ConstraintKind::ForeignKey { table } => "FOREIGN KEY "@ + columns + " REFERENCES "@
            + table@,
    }
}

/// The text of a `CREATE TABLE` statement: the declarations of the columns, then the
/// constraints.
pub open spec fn create_table_text(
    table: String,
    columns: Seq<SchemaColumn>,
    constraints: Seq<Constraint>,
) -> Seq<char> {
    "CREATE TABLE IF NOT EXISTS "@ + table@ + " ("@ + joined(
        columns.map_values(|c: SchemaColumn| column_text(c)) + constraints.map_values(
            |c: Constraint| constraint_text(c),
        ),
        ","@,
    ) + ")"@
}

/// The text of an `ALTER TABLE` statement: one action for each constraint.
pub open spec fn alter_table_text(table: String, constraints: Seq<Constraint>) -> Seq<char> {
    "ALTER TABLE "@ + table@ + " "@ + joined(
        constraints.map_values(|c: Constraint| "ADD "@ + constraint_text(c)),
        ","@,
    )
}

/// Render a constraint.
fn render_constraint(constraint: &Constraint) -> (r: String)
    ensures
        r@ == constraint_text(*constraint),
{
    let mut out = match &constraint.kind {
        ConstraintKind::PrimaryKey => String::from_str("PRIMARY KEY "),
        ConstraintKind::Unique => String::from_str("UNIQUE "),
        ConstraintKind::ForeignKey { .. } => String::from_str("FOREIGN KEY "),
    };
    out.append("(");
    out.append(join(&constraint.columns, ",").as_str());
    out.append(")");
    match &constraint.kind {
        ConstraintKind::ForeignKey { table } => {
            out.append(" REFERENCES ");
            out.append(table.as_str());
        },
        _ => {},
    }
    proof {
        assert(out@ =~= constraint_text(*constraint));
    }
    out
}

impl CreateTable {
    /// Render this statement as SQL text.
    #[verifier::loop_isolation(false)]
    pub fn to_sql(&self) -> (r: String)
        ensures
            r@ == create_table_text(self.table, self.columns@, self.constraints@),
    {
        let ghost columns = self.columns@.map_values(|c: SchemaColumn| column_text(c));
        let ghost constraints = self.constraints@.map_values(|c: Constraint| constraint_text(c));
        let mut items: Vec<String> = Vec::new();
        let mut i: usize = 0;
        while i < self.columns.len()
            invariant
                i <= self.columns@.len(),
                items@.len() == i,
                forall|k: int| 0 <= k < i ==> (#[trigger] items@[k])@ == columns[k],
            decreases self.columns@.len() - i,
        {
            let mut item = self.columns[i].name.clone();
            item.append(" ");
            item.append(
                match self.columns[i].ty {
                    Type::Int4 => "int4",
                    Type::Int8 => "int8",
                    Type::UInt4 => "int8",
                    Type::UInt8 => "int8",
                    Type::Text => "text",
                    Type::Serial => "serial",
                },
            );
            proof {
                assert(item@ =~= column_text(self.columns@[i as int]));
            }
            items.push(item);
            i += 1;
        }
        let mut k: usize = 0;
        while k < self.constraints.len()
            invariant
                k <= self.constraints@.len(),
                items@.len() == columns.len() + k,
                forall|a: int| 0 <= a < columns.len() ==> (#[trigger] items@[a])@ == columns[a],
                forall|a: int|
                    0 <= a < k ==> (#[trigger] items@[columns.len() + a])@ == constraints[a],
            decreases self.constraints@.len() - k,
        {
            items.push(render_constraint(&self.constraints[k]));
            k += 1;
        }
        proof {
            let all = columns + constraints;
            assert(string_views(items@).len() == all.len());
            assert forall|a: int| 0 <= a < all.len() implies string_views(items@)[a] == all[a] by {
                if a >= columns.len() {
                    assert(items@[columns.len() + (a - columns.len())]@ == constraints[a
                        - columns.len()]);
                }
            }
            assert(string_views(items@) =~= all);
        }
        let mut statement = String::from_str("CREATE TABLE IF NOT EXISTS ");
        statement.append(self.table.as_str());
        statement.append(" (");
        statement.append(join(&items, ",").as_str());
        statement.append(")");
        statement
    }
}

impl AlterTable {
    /// Render this statement as SQL text.
    pub fn to_sql(&self) -> (r: String)
        ensures
            r@ == alter_table_text(self.table, self.constraints@),
    {
        let mut actions: Vec<String> = Vec::new();
        let mut k: usize = 0;
        while k < self.constraints.len()
            invariant
                k <= self.constraints@.len(),
                actions@.len() == k,
                forall|a: int|
                    0 <= a < k ==> (#[trigger] actions@[a])@ == "ADD "@ + constraint_text(
                        self.constraints@[a],
                    ),
            decreases self.constraints@.len() - k,
        {
            let mut action = String::from_str("ADD ");
            action.append(render_constraint(&self.constraints[k]).as_str());
            actions.push(action);
            k += 1;
        }
        proof {
            assert(string_views(actions@) =~= self.constraints@.map_values(
                |c: Constraint| "ADD "@ + constraint_text(c),
            ));
        }
        let mut statement = String::from_str("ALTER TABLE ");
        statement.append(self.table.as_str());
        statement.append(" ");
        statement.append(join(&actions, ",").as_str());
        statement
    }
}

/// A value in the form in which it is passed to PostgreSQL as a parameter.
#[derive(Debug, PartialEq, Eq)]
pub enum Param {
    Text(String),
    Int4(i32),
    Int8(i64),
    UInt4(u32),
}

/// A value cannot be passed to PostgreSQL: it is out of the range of an unsigned 4-byte integer.
#[derive(Clone, Copy, Debug, PartialEq, Eq, Structural)]
pub struct OutOfRange {
    pub value: u64,
}

/// The form in which a value is passed to PostgreSQL as a parameter.
pub open spec fn bound(value: Value) -> Result<Param, OutOfRange> {
    match value {
        Value::Text(x) => Ok(Param::Text(x)),
        Value::Int4(x) => Ok(Param::Int4(x)),
        Value::Int8(x) => Ok(Param::Int8(x)),
        Value::UInt4(x) => Ok(Param::UInt4(x)),
        Value::UInt8(x) => if x <= u32::MAX {
            Ok(Param::UInt4(x as u32))
        } else {
            Err(OutOfRange { value: x })
        },
        Value::Serial(x) => Ok(Param::UInt4(x)),
    }
}

/// Convert a value to the form in which it is passed to PostgreSQL as a parameter.
///
/// # Errors
///
/// Fails if the value is an unsigned 8-byte integer which does not fit in 4 bytes.
pub fn bind(value: Value) -> (r: Result<Param, OutOfRange>)
    ensures
        r == bound(value),
{
    match value {
        Value::Text(x) => Ok(Param::Text(x)),
        Value::Int4(x) => Ok(Param::Int4(x)),
        Value::Int8(x) => Ok(Param::Int8(x)),
        Value::UInt4(x) => Ok(Param::UInt4(x)),
        Value::UInt8(x) => {
            if x <= u32::MAX as u64 {
                Ok(Param::UInt4(x as u32))
            } else {
                Err(OutOfRange { value: x })
            }
        },
        Value::Serial(x) => Ok(Param::UInt4(x)),
    }
}

} // verus!
