//! Abstract interface to a SQL database.
//!
//! A backend only ever sees tables, columns and a closed set of primitive [`Value`]s. Statements
//! are plain data: they are assembled with the builder methods of [`Select`], [`Insert`],
//! [`CreateTable`] and [`AlterTable`] and then handed to a backend for execution.

use crate::text::{concat2, concat3, decimal, push_char, to_decimal};

pub mod mock;
pub mod postgres;
use vstd::prelude::*;
use vstd::string::*;

verus! {

/// Errors returned by the database.
#[derive(Debug, PartialEq, Eq)]
pub enum Error {
    /// A custom message.
    Custom { message: String },
    /// A query returned more than the `expected` number of rows.
    TooManyRows { expected: usize },
    /// A query which was expected to return some rows did not.
    EmptyRows,
    /// A statement named a table which does not exist.
    NoSuchTable { table: String },
    /// A query named a column which does not exist.
    NoSuchColumn { column: String },
    /// A row has no column at the requested position.
    NoSuchIndex { index: usize },
    /// An insert statement named a column which its table does not have.
    TableHasNoColumn { table: String, column: String },
    /// An insert statement named the same column of its table twice.
    DuplicateColumn { table: String },
    /// The rows of an insert statement do not have one value for each explicit column.
    IncorrectWidth { table: String, found: usize, expected: usize },
    /// Two values cannot be compared with the given operator.
    TypeMismatch { op: Op },
    /// A table has too many rows to assign another serial number.
    OutOfRange { table: String },
}

impl Error {
    /// Wrap a custom message into this error type.
    pub fn custom(message: String) -> (e: Self)
        ensures
            e == (Error::Custom { message }),
    {
        Error::Custom { message }
    }

    /// An error indicating that a query returned more than the `expected` number of rows.
    pub fn too_many_rows(expected: usize) -> (e: Self)
        ensures
            e == (Error::TooManyRows { expected }),
    {
        Error::TooManyRows { expected }
    }

    /// An error indicating that a query which was expected to return some rows did not.
    pub fn empty_rows() -> (e: Self)
        ensures
            e == Error::EmptyRows,
    {
        Error::EmptyRows
    }

    /// The text of this error's message.
    pub open spec fn message(self) -> Seq<char> {
        match self {
            Error::Custom { message } => message@,
            Error::TooManyRows { expected } => "query result has more rows than the expected "@
                + decimal(expected as nat),
            Error::EmptyRows => "query result is empty"@,
            Error::NoSuchTable { table } => "no such table "@ + table@,
            Error::NoSuchColumn { column } => "no such column "@ + column@,
            Error::NoSuchIndex { index } => "no such column "@ + decimal(index as nat),
            Error::TableHasNoColumn { table, column } => "table "@ + table@ + " has no column "@
                + column@,
            Error::DuplicateColumn { table } => "table "@ + table@
                + " is given more than one value for a column"@,
            Error::IncorrectWidth { table, found, expected } => "incorrect width for table "@
                + table@ + " (found "@ + decimal(found as nat) + ", expected "@ + decimal(
                expected as nat,
            ) + ")"@,
            Error::TypeMismatch { op } => "type mismatch for op "@ + op.symbol(),
            Error::OutOfRange { table } => "serial number out of range for table "@ + table@,
        }
    }

    /// Format this error as a message.
    pub fn to_string(&self) -> (r: String)
        ensures
            r@ == self.message(),
    {
        match self {
            Error::Custom { message } => message.clone(),
            Error::TooManyRows { expected } => concat2(
                "query result has more rows than the expected ",
                to_decimal(*expected as u64).as_str(),
            ),
            Error::EmptyRows => String::from_str("query result is empty"),
            Error::NoSuchTable { table } => concat2("no such table ", table.as_str()),
            Error::NoSuchColumn { column } => concat2("no such column ", column.as_str()),
            Error::NoSuchIndex { index } => concat2(
                "no such column ",
                to_decimal(*index as u64).as_str(),
            ),
            Error::TableHasNoColumn { table, column } => {
                let mut out = concat3("table ", table.as_str(), " has no column ");
                out.append(column.as_str());
                out
            },
            Error::DuplicateColumn { table } => concat3(
                "table ",
                table.as_str(),
                " is given more than one value for a column",
            ),
            Error::IncorrectWidth { table, found, expected } => {
                let mut out = concat3("incorrect width for table ", table.as_str(), " (found ");
                out.append(to_decimal(*found as u64).as_str());
                out.append(", expected ");
                out.append(to_decimal(*expected as u64).as_str());
                out.append(")");
                out
            },
            Error::TypeMismatch { op } => concat2("type mismatch for op ", op.to_string().as_str()),
            Error::OutOfRange { table } => concat2(
                "serial number out of range for table ",
                table.as_str(),
            ),
        }
    }
}

/// A SQL primitive data type.
#[derive(Clone, Copy, Debug, PartialEq, Eq, Structural)]
pub enum Type {
    Text,
    Int4,
    Int8,
    UInt4,
    UInt8,
    Serial,
}

impl Type {
    /// The name of this type in a schema.
    pub open spec fn name(self) -> Seq<char> {
        match self {
            Type::Text => "text"@,
            Type::Int4 => "int4"@,
            Type::Int8 => "int8"@,
            Type::UInt4 => "uint4"@,
            Type::UInt8 => "uint8"@,
            Type::Serial => "serial"@,
        }
    }

    /// Format this type as its name in a schema.
    pub fn to_string(&self) -> (r: String)
        ensures
            r@ == self.name(),
    {
        match self {
            Type::Text => String::from_str("text"),
            Type::Int4 => String::from_str("int4"),
            Type::Int8 => String::from_str("int8"),
            Type::UInt4 => String::from_str("uint4"),
            Type::UInt8 => String::from_str("uint8"),
            Type::Serial => String::from_str("serial"),
        }
    }
}

/// A comparison operator in a `WHERE` or `JOIN` condition.
#[derive(Clone, Copy, Debug, PartialEq, Eq, Structural)]
pub enum Op {
    Eq,
    Ne,
    Ge,
    Gt,
    Le,
    Lt,
}

impl Op {
    /// The SQL spelling of this operator.
    pub open spec fn symbol(self) -> Seq<char> {
        match self {
            Op::Eq => "="@,
            Op::Ne => "!="@,
            Op::Ge => ">="@,
            Op::Gt => ">"@,
            Op::Le => "<="@,
            Op::Lt => "<"@,
        }
    }

    /// Format this operator as SQL.
    pub fn to_string(&self) -> (r: String)
        ensures
            r@ == self.symbol(),
    {
        match self {
            Op::Eq => String::from_str("="),
            Op::Ne => String::from_str("!="),
            Op::Ge => String::from_str(">="),
            Op::Gt => String::from_str(">"),
            Op::Le => String::from_str("<="),
            Op::Lt => String::from_str("<"),
        }
    }

    /// The outcome of this comparison on two integers.
    pub open spec fn holds(self, l: int, r: int) -> bool {
        match self {
            Op::Eq => l == r,
            Op::Ne => l != r,
            Op::Ge => l >= r,
            Op::Gt => l > r,
            Op::Le => l <= r,
            Op::Lt => l < r,
        }
    }
}

/// A primitive value supported by a SQL database.
#[derive(Debug, PartialEq, Eq)]
pub enum Value {
    /// A text string.
    Text(String),
    /// A 4-byte signed integer.
    Int4(i32),
    /// An 8-byte signed integer.
    Int8(i64),
    /// A 4-byte unsigned integer.
    UInt4(u32),
    /// An 8-byte unsigned integer.
    UInt8(u64),
    /// An auto-incrementing integer.
    Serial(u32),
}

impl Clone for Value {
    fn clone(&self) -> (r: Self)
        ensures
            r == *self,
    {
        match self {
            Value::Text(s) => Value::Text(s.clone()),
            Value::Int4(x) => Value::Int4(*x),
            Value::Int8(x) => Value::Int8(*x),
            Value::UInt4(x) => Value::UInt4(*x),
            Value::UInt8(x) => Value::UInt8(*x),
            Value::Serial(x) => Value::Serial(*x),
        }
    }
}

impl Value {
    /// The type of this value.
    pub open spec fn spec_ty(&self) -> Type {
        match *self {
            Value::Text(_) => Type::Text,
            Value::Int4(_) => Type::Int4,
            Value::Int8(_) => Type::Int8,
            Value::UInt4(_) => Type::UInt4,
            Value::UInt8(_) => Type::UInt8,
            Value::Serial(_) => Type::Serial,
        }
    }

    /// The type of this value.
    #[verifier::when_used_as_spec(spec_ty)]
    pub fn ty(&self) -> (t: Type)
        ensures
            t == self.spec_ty(),
    {
        match self {
            Value::Text(_) => Type::Text,
            Value::Int4(_) => Type::Int4,
            Value::Int8(_) => Type::Int8,
            Value::UInt4(_) => Type::UInt4,
            Value::UInt8(_) => Type::UInt8,
            Value::Serial(_) => Type::Serial,
        }
    }

    /// Whether two values have the same type and the same content.
    pub open spec fn same(self, other: Value) -> bool {
        match (self, other) {
            (Value::Text(l), Value::Text(r)) => l@ == r@,
            (Value::Int4(l), Value::Int4(r)) => l == r,
            (Value::Int8(l), Value::Int8(r)) => l == r,
            (Value::UInt4(l), Value::UInt4(r)) => l == r,
            (Value::UInt8(l), Value::UInt8(r)) => l == r,
            (Value::Serial(l), Value::Serial(r)) => l == r,
            _ => false,
        }
    }

    /// Test whether two values have the same type and the same content.
    pub fn is_same(&self, other: &Value) -> (r: bool)
        ensures
            r == self.same(*other),
    {
        match (self, other) {
            (Value::Text(l), Value::Text(r)) => *l == *r,
            (Value::Int4(l), Value::Int4(r)) => *l == *r,
            (Value::Int8(l), Value::Int8(r)) => *l == *r,
            (Value::UInt4(l), Value::UInt4(r)) => *l == *r,
            (Value::UInt8(l), Value::UInt8(r)) => *l == *r,
            (Value::Serial(l), Value::Serial(r)) => *l == *r,
            _ => false,
        }
    }

    /// The outcome of comparing two values with `op`, if they can be compared.
    ///
    /// Any two values can be tested for equality. An ordering exists only between two integers of
    /// the same type, serial numbers excluded.
    pub open spec fn compare(self, op: Op, other: Value) -> Option<bool> {
        match op {
            Op::Eq => Some(self.same(other)),
            Op::Ne => Some(!self.same(other)),
            _ => match (self, other) {
                (Value::Int4(l), Value::Int4(r)) => Some(op.holds(l as int, r as int)),
                (Value::Int8(l), Value::Int8(r)) => Some(op.holds(l as int, r as int)),
                (Value::UInt4(l), Value::UInt4(r)) => Some(op.holds(l as int, r as int)),
                (Value::UInt8(l), Value::UInt8(r)) => Some(op.holds(l as int, r as int)),
                _ => None,
            },
        }
    }

    /// Compare two values with `op`.
    ///
    /// # Errors
    ///
    /// Fails if `op` is an ordering and the values are not integers of the same type.
    pub fn test(&self, op: Op, other: &Value) -> (r: Result<bool, Error>)
        ensures
            r == match self.compare(op, *other) {
                Some(b) => Ok::<bool, Error>(b),
                None => Err(Error::TypeMismatch { op }),
            },
    {
        match op {
            Op::Eq => Ok(self.is_same(other)),
            Op::Ne => Ok(!self.is_same(other)),
            _ => match (self, other) {
                (Value::Int4(l), Value::Int4(r)) => Ok(
                    match op {
                        Op::Ge => *l >= *r,
                        Op::Gt => *l > *r,
                        Op::Le => *l <= *r,
                        _ => *l < *r,
                    },
                ),
                (Value::Int8(l), Value::Int8(r)) => Ok(
                    match op {
                        Op::Ge => *l >= *r,
                        Op::Gt => *l > *r,
                        Op::Le => *l <= *r,
                        _ => *l < *r,
                    },
                ),
                (Value::UInt4(l), Value::UInt4(r)) => Ok(
                    match op {
                        Op::Ge => *l >= *r,
                        Op::Gt => *l > *r,
                        Op::Le => *l <= *r,
                        _ => *l < *r,
                    },
                ),
                (Value::UInt8(l), Value::UInt8(r)) => Ok(
                    match op {
                        Op::Ge => *l >= *r,
                        Op::Gt => *l > *r,
                        Op::Le => *l <= *r,
                        _ => *l < *r,
                    },
                ),
                _ => Err(Error::TypeMismatch { op }),
            },
        }
    }
}

impl From<String> for Value {
    fn from(s: String) -> (v: Value) {
        Value::Text(s)
    }
}

impl vstd::std_specs::convert::FromSpecImpl<String> for Value {
    open spec fn obeys_from_spec() -> bool {
        true
    }

    open spec fn from_spec(s: String) -> Value {
        Value::Text(s)
    }
}

impl From<i32> for Value {
    fn from(x: i32) -> (v: Value) {
        Value::Int4(x)
    }
}

impl vstd::std_specs::convert::FromSpecImpl<i32> for Value {
    open spec fn obeys_from_spec() -> bool {
        true
    }

    open spec fn from_spec(x: i32) -> Value {
        Value::Int4(x)
    }
}

impl From<i64> for Value {
    fn from(x: i64) -> (v: Value) {
        Value::Int8(x)
    }
}

impl vstd::std_specs::convert::FromSpecImpl<i64> for Value {
    open spec fn obeys_from_spec() -> bool {
        true
    }

    open spec fn from_spec(x: i64) -> Value {
        Value::Int8(x)
    }
}

impl From<u32> for Value {
    fn from(x: u32) -> (v: Value) {
        Value::UInt4(x)
    }
}

impl vstd::std_specs::convert::FromSpecImpl<u32> for Value {
    open spec fn obeys_from_spec() -> bool {
        true
    }

    open spec fn from_spec(x: u32) -> Value {
        Value::UInt4(x)
    }
}

impl From<u64> for Value {
    fn from(x: u64) -> (v: Value) {
        Value::UInt8(x)
    }
}

impl vstd::std_specs::convert::FromSpecImpl<u64> for Value {
    open spec fn obeys_from_spec() -> bool {
        true
    }

    open spec fn from_spec(x: u64) -> Value {
        Value::UInt8(x)
    }
}

/// Escape the characters of an identifier: every double quote is doubled.
pub open spec fn escaped(s: Seq<char>) -> Seq<char>
    decreases s.len(),
{
    if s.len() == 0 {
        Seq::empty()
    } else if s.last() == '"' {
        escaped(s.drop_last()).push('"').push('"')
    } else {
        escaped(s.drop_last()).push(s.last())
    }
}

/// An identifier in double quotes, with the double quotes inside it doubled.
pub open spec fn quoted(s: Seq<char>) -> Seq<char> {
    seq!['"'] + escaped(s) + seq!['"']
}

/// Escape an identifier (table name, column name, etc.) for inclusion in a SQL query.
pub fn escape_ident(s: &str) -> (r: String)
    ensures
        r@ == quoted(s@),
{
    let mut out = String::new();
    push_char(&mut out, '"');
    let n = s.unicode_len();
    let mut i: usize = 0;
    while i < n
        invariant
            n == s@.len(),
            i <= n,
            out@ == seq!['"'] + escaped(s@.take(i as int)),
        decreases n - i,
    {
        let c = s.get_char(i);
        assert(s@.take(i + 1).drop_last() == s@.take(i as int));
        if c == '"' {
            push_char(&mut out, '"');
            push_char(&mut out, '"');
        } else {
            push_char(&mut out, c);
        }
        i += 1;
    }
    assert(s@.take(n as int) == s@);
    push_char(&mut out, '"');
    out
}

/// An identifier of a column in a SQL query.
#[derive(Debug, PartialEq, Eq)]
pub struct Column {
    /// The table that the column belongs to, if the name is qualified.
    pub table: Option<String>,
    /// The name of the column.
    pub name: String,
}

impl Clone for Column {
    fn clone(&self) -> (r: Self)
        ensures
            r == *self,
    {
        Column {
            table: match &self.table {
                Some(t) => Some(t.clone()),
                None => None,
            },
            name: self.name.clone(),
        }
    }
}

impl Column {
    /// A named column.
    pub fn named(name: String) -> (c: Self)
        ensures
            c == (Column { table: None, name }),
    {
        Column { name, table: None }
    }

    /// A named column, qualified by a table name.
    pub fn qualified(table: String, name: String) -> (c: Self)
        ensures
            c == (Column { table: Some(table), name }),
    {
        Column { table: Some(table), name }
    }

    /// The escaped form of this column name.
    pub open spec fn escaped(self) -> Seq<char> {
        match self.table {
            Some(table) => quoted(table@) + seq!['.'] + quoted(self.name@),
            None => quoted(self.name@),
        }
    }

    /// Escape this column name for interpolation into a SQL query.
    pub fn escape(&self) -> (r: String)
        ensures
            r@ == self.escaped(),
    {
        match &self.table {
            Some(table) => {
                let mut out = escape_ident(table.as_str());
                push_char(&mut out, '.');
                out.append(escape_ident(self.name.as_str()).as_str());
                proof {
                    assert(quoted(table@).push('.') =~= quoted(table@) + seq!['.']);
                }
                out
            },
            None => escape_ident(self.name.as_str()),
        }
    }

    /// The plain form of this column name: the table, if any, a dot, and the name.
    pub open spec fn text(self) -> Seq<char> {
        match self.table {
            Some(table) => table@ + seq!['.'] + self.name@,
            None => self.name@,
        }
    }

    /// Format this column name without escaping.
    pub fn to_string(&self) -> (r: String)
        ensures
            r@ == self.text(),
    {
        match &self.table {
            Some(table) => {
                let mut out = table.clone();
                push_char(&mut out, '.');
                out.append(self.name.as_str());
                proof {
                    assert(table@.push('.') =~= table@ + seq!['.']);
                }
                out
            },
            None => self.name.clone(),
        }
    }
}

/// A column in a list of columns selected from a query.
#[derive(Debug, PartialEq, Eq)]
pub enum SelectColumn {
    /// A single named column.
    Column(Column),
    /// Select all columns.
    All,
}

impl Clone for SelectColumn {
    fn clone(&self) -> (r: Self)
        ensures
            r == *self,
    {
        match self {
            SelectColumn::Column(c) => SelectColumn::Column(c.clone()),
            SelectColumn::All => SelectColumn::All,
        }
    }
}

impl SelectColumn {
    /// The plain form of this entry of a column list.
    pub open spec fn text(self) -> Seq<char> {
        match self {
            SelectColumn::Column(c) => c.text(),
            SelectColumn::All => "*"@,
        }
    }

    /// Format this entry of a column list.
    pub fn to_string(&self) -> (r: String)
        ensures
            r@ == self.text(),
    {
        match self {
            SelectColumn::Column(c) => c.to_string(),
            SelectColumn::All => String::from_str("*"),
        }
    }
}

/// A column in a schema.
///
/// This describes the structure and format of each entry in the column, along with column-level
/// metadata like the name.
#[derive(Debug, PartialEq, Eq)]
pub struct SchemaColumn {
    pub name: String,
    pub ty: Type,
}

impl Clone for SchemaColumn {
    fn clone(&self) -> (r: Self)
        ensures
            r == *self,
    {
        SchemaColumn { name: self.name.clone(), ty: self.ty }
    }
}

impl SchemaColumn {
    /// Create a column given a name and type.
    pub fn new(name: String, ty: Type) -> (c: Self)
        ensures
            c == (SchemaColumn { name, ty }),
    {
        SchemaColumn { name, ty }
    }

    /// The name of this column
    pub fn name(&self) -> (r: String)
        ensures
            r == self.name,
    {
        self.name.clone()
    }

    /// The type of this column
    pub fn ty(&self) -> (t: Type)
        ensures
            t == self.ty,
    {
        self.ty
    }

    /// The declaration of this column: its name, a space, and the name of its type.
    pub open spec fn text(self) -> Seq<char> {
        self.name@ + seq![' '] + self.ty.name()
    }

    /// Format this column as its declaration in a schema.
    pub fn to_string(&self) -> (r: String)
        ensures
            r@ == self.text(),
    {
        let mut out = self.name.clone();
        push_char(&mut out, ' ');
        out.append(self.ty.to_string().as_str());
        proof {
            assert(self.name@.push(' ') =~= self.name@ + seq![' ']);
        }
        out
    }
}

/// A `WHERE` clause.
#[derive(Debug, PartialEq, Eq)]
pub struct WhereClause {
    /// The column to filter.
    pub column: Column,
    /// The operation used to filter values of `column`.
    pub op: Op,
    /// Parameter to `op`.
    pub param: Value,
}

/// A `JOIN` clause.
#[derive(Debug, PartialEq, Eq)]
pub struct JoinClause {
    /// The table to join with.
    pub table: String,
    /// The LHS in the join condition.
    pub lhs: Column,
    /// The operation in the join condition.
    pub op: Op,
    /// The RHS in the join condition.
    pub rhs: Column,
}

/// A clause modifying a SQL statement.
#[derive(Debug, PartialEq, Eq)]
pub enum Clause {
    /// A `WHERE` clause.
    Where(WhereClause),
    /// A `JOIN` clause.
    Join(JoinClause),
}

impl Clone for WhereClause {
    fn clone(&self) -> (r: Self)
        ensures
            r == *self,
    {
        WhereClause { column: self.column.clone(), op: self.op, param: self.param.clone() }
    }
}

impl Clone for JoinClause {
    fn clone(&self) -> (r: Self)
        ensures
            r == *self,
    {
        JoinClause {
            table: self.table.clone(),
            lhs: self.lhs.clone(),
            op: self.op,
            rhs: self.rhs.clone(),
        }
    }
}

impl Clone for Clause {
    fn clone(&self) -> (r: Self)
        ensures
            r == *self,
    {
        match self {
            Clause::Where(w) => Clause::Where(w.clone()),
            Clause::Join(j) => Clause::Join(j.clone()),
        }
    }
}

/// A constraint on a set of columns in a table.
#[derive(Debug, PartialEq, Eq)]
pub enum ConstraintKind {
    PrimaryKey,
    Unique,
    ForeignKey { table: String },
}

impl Clone for ConstraintKind {
    fn clone(&self) -> (r: Self)
        ensures
            r == *self,
    {
        match self {
            ConstraintKind::PrimaryKey => ConstraintKind::PrimaryKey,
            ConstraintKind::Unique => ConstraintKind::Unique,
            ConstraintKind::ForeignKey { table } => ConstraintKind::ForeignKey {
                table: table.clone(),
            },
        }
    }
}

/// A row in the result of a query.
#[derive(Debug, PartialEq, Eq)]
pub struct Row {
    /// The values of the selected columns, in the order in which the columns were requested.
    pub values: Vec<Value>,
}

impl View for Row {
    type V = Seq<Value>;

    open spec fn view(&self) -> Seq<Value> {
        self.values@
    }
}

/// Copy a list of values.
pub fn clone_values(values: &Vec<Value>) -> (r: Vec<Value>)
    ensures
        r@ == values@,
{
    let mut out: Vec<Value> = Vec::new();
    let mut i: usize = 0;
    while i < values.len()
        invariant
            i <= values.len(),
            out@ == values@.take(i as int),
        decreases values.len() - i,
    {
        out.push(values[i].clone());
        proof {
            assert(values@.take(i + 1) =~= values@.take(i as int).push(values[i as int]));
        }
        i += 1;
    }
    proof {
        assert(values@.take(values.len() as int) =~= values@);
    }
    out
}

impl Clone for Row {
    fn clone(&self) -> (r: Self)
        ensures
            r@ == self@,
    {
        Row { values: clone_values(&self.values) }
    }
}

impl Row {
    /// A row with the given values.
    pub fn new(values: Vec<Value>) -> (r: Self)
        ensures
            r.values == values,
    {
        Row { values }
    }

    /// Get the value of `column` in this row.
    ///
    /// `column` is an index corresponding to the order in which columns were requested in the
    /// `SELECT` statement.
    ///
    /// # Errors
    ///
    /// This method will fail if the specified column does not exist.
    pub fn column(&self, column: usize) -> (r: Result<Value, Error>)
        ensures
            column < self@.len() ==> r == Ok::<Value, Error>(self@[column as int]),
            column >= self@.len() ==> r == Err::<Value, Error>(Error::NoSuchIndex { index: column }),
    {
        if column < self.values.len() {
            Ok(self.values[column].clone())
        } else {
            Err(Error::NoSuchIndex { index: column })
        }
    }
}

/// A `SELECT` query which can be executed against the database.
///
/// The query represents a statement of the form `SELECT columns FROM table`, refined by its
/// clauses.
#[derive(Debug)]
pub struct Select {
    /// The columns to include in the query results.
    pub columns: Vec<SelectColumn>,
    /// The table to select from.
    pub table: String,
    /// The clauses refining the query, in the order in which they were added.
    pub clauses: Vec<Clause>,
}

impl Select {
    /// Start a `SELECT` query.
    pub fn new(columns: Vec<SelectColumn>, table: String) -> (q: Self)
        ensures
            q.columns == columns,
            q.table == table,
            q.clauses@ == Seq::<Clause>::empty(),
    {
        Select { columns, table, clauses: Vec::new() }
    }

    /// Add a clause to the query.
    pub fn clause(self, clause: Clause) -> (q: Self)
        ensures
            q.columns == self.columns,
            q.table == self.table,
            q.clauses@ == self.clauses@.push(clause),
    {
        let mut q = self;
        q.clauses.push(clause);
        q
    }

    /// Add a `WHERE` clause to the query.
    pub fn filter(self, column: Column, op: Op, param: Value) -> (q: Self)
        ensures
            q.columns == self.columns,
            q.table == self.table,
            q.clauses@ == self.clauses@.push(Clause::Where(WhereClause { column, op, param })),
    {
        self.clause(Clause::Where(WhereClause { column, op, param }))
    }

    /// Add a `JOIN` clause to the query.
    pub fn join(self, table: String, lhs: Column, op: Op, rhs: Column) -> (q: Self)
        ensures
            q.columns == self.columns,
            q.table == self.table,
            q.clauses@ == self.clauses@.push(Clause::Join(JoinClause { table, lhs, op, rhs })),
    {
        self.clause(Clause::Join(JoinClause { table, lhs, op, rhs }))
    }

    /// Add multiple clauses to the query.
    pub fn clauses(self, clauses: Vec<Clause>) -> (q: Self)
        ensures
            q.columns == self.columns,
            q.table == self.table,
            q.clauses@ == self.clauses@ + clauses@,
    {
        let mut q = self;
        let mut clauses = clauses;
        q.clauses.append(&mut clauses);
        q
    }
}

/// An `INSERT` statement which can be executed against the database.
///
/// Every row must hold one value for each of the named columns.
#[derive(Debug)]
pub struct Insert {
    /// The table to insert into.
    pub table: String,
    /// The names of the columns into which values are inserted.
    pub columns: Vec<String>,
    /// The rows to insert.
    pub rows: Vec<Vec<Value>>,
}

impl Insert {
    /// Start an `INSERT` statement.
    pub fn new(table: String, columns: Vec<String>) -> (q: Self)
        ensures
            q.table == table,
            q.columns == columns,
            q.rows@ == Seq::<Vec<Value>>::empty(),
    {
        Insert { table, columns, rows: Vec::new() }
    }

    /// Add rows to insert.
    pub fn rows(self, rows: Vec<Vec<Value>>) -> (q: Self)
        ensures
            q.table == self.table,
            q.columns == self.columns,
            q.rows@ == self.rows@ + rows@,
    {
        let mut q = self;
        let mut rows = rows;
        q.rows.append(&mut rows);
        q
    }
}

/// A constraint together with the names of the columns that it applies to.
#[derive(Debug, PartialEq, Eq)]
pub struct Constraint {
    pub kind: ConstraintKind,
    pub columns: Vec<String>,
}

/// A `CREATE TABLE` statement which can be executed against the database.
///
/// The statement has the form `CREATE TABLE IF NOT EXISTS table (columns constraints)`.
#[derive(Debug)]
pub struct CreateTable {
    /// The name of the table.
    pub table: String,
    /// The columns of the table.
    pub columns: Vec<SchemaColumn>,
    /// The constraints on the table, in the order in which they were added.
    pub constraints: Vec<Constraint>,
}

impl CreateTable {
    /// Start a `CREATE TABLE` statement.
    pub fn new(table: String, columns: Vec<SchemaColumn>) -> (q: Self)
        ensures
            q.table == table,
            q.columns == columns,
            q.constraints@ == Seq::<Constraint>::empty(),
    {
        CreateTable { table, columns, constraints: Vec::new() }
    }

    /// Add a constraint to the table.
    pub fn constraint(self, kind: ConstraintKind, columns: Vec<String>) -> (q: Self)
        ensures
            q.table == self.table,
            q.columns == self.columns,
            q.constraints@ == self.constraints@.push(Constraint { kind, columns }),
    {
        let mut q = self;
        q.constraints.push(Constraint { kind, columns });
        q
    }

    /// Add a list of constraints to the table.
    pub fn constraints(self, constraints: Vec<Constraint>) -> (q: Self)
        ensures
            q.table == self.table,
            q.columns == self.columns,
            q.constraints@ == self.constraints@ + constraints@,
    {
        let mut q = self;
        let mut constraints = constraints;
        q.constraints.append(&mut constraints);
        q
    }
}

/// An `ALTER TABLE` statement which can be executed against the database.
///
/// The statement has the form `ALTER TABLE table actions...`.
#[derive(Debug)]
pub struct AlterTable {
    /// The name of the table.
    pub table: String,
    /// The constraints to add to the table, in the order in which they were added.
    pub constraints: Vec<Constraint>,
}

impl AlterTable {
    /// Start an `ALTER TABLE` statement.
    pub fn new(table: String) -> (q: Self)
        ensures
            q.table == table,
            q.constraints@ == Seq::<Constraint>::empty(),
    {
        AlterTable { table, constraints: Vec::new() }
    }

    /// Add a constraint to the table.
    pub fn add_constraint(self, kind: ConstraintKind, columns: Vec<String>) -> (q: Self)
        ensures
            q.table == self.table,
            q.constraints@ == self.constraints@.push(Constraint { kind, columns }),
    {
        let mut q = self;
        q.constraints.push(Constraint { kind, columns });
        q
    }

    /// Add a list of constraints to the table.
    pub fn add_constraints(self, constraints: Vec<Constraint>) -> (q: Self)
        ensures
            q.table == self.table,
            q.constraints@ == self.constraints@ + constraints@,
    {
        let mut q = self;
        let mut constraints = constraints;
        q.constraints.append(&mut constraints);
        q
    }
}

/// The position of the first failed item of a stream, or its length if there is none.
pub open spec fn first_error(stream: Seq<Result<Row, Error>>) -> int
    decreases stream.len(),
{
    if stream.len() == 0 {
        0
    } else if stream[0] is Err {
        0
    } else {
        1 + first_error(stream.drop_first())
    }
}

/// The rows of a stream, up to its first failed item.
pub open spec fn rows_before_error(stream: Seq<Result<Row, Error>>) -> Seq<Row> {
    Seq::new(first_error(stream) as nat, |i: int| stream[i]->Ok_0)
}

/// Facts about the first failed item of a stream.
pub proof fn lemma_first_error(stream: Seq<Result<Row, Error>>)
    ensures
        0 <= first_error(stream) <= stream.len(),
        forall|i: int| 0 <= i < first_error(stream) ==> (#[trigger] stream[i]) is Ok,
        first_error(stream) < stream.len() ==> stream[first_error(stream)] is Err,
    decreases stream.len(),
{
    if stream.len() > 0 && stream[0] is Ok {
        let rest = stream.drop_first();
        lemma_first_error(rest);
        assert forall|i: int| 0 <= i < first_error(stream) implies (#[trigger] stream[i]) is Ok by {
            if i > 0 {
                assert(stream[i] == rest[i - 1]);
            }
        }
        if first_error(stream) < stream.len() {
            assert(stream[first_error(stream)] == rest[first_error(rest)]);
        }
    }
}

/// Collect the results of a query.
///
/// This always succeeds on a stream of rows, however many there are.
///
/// # Errors
///
/// This function fails with the first failure of the stream, if there is one.
pub fn many(stream: Vec<Result<Row, Error>>) -> (r: Result<Vec<Row>, Error>)
    ensures
        first_error(stream@) == stream@.len() ==> (r matches Ok(rows) && rows@
            == rows_before_error(stream@)),
        first_error(stream@) < stream@.len() ==> r == Err::<Vec<Row>, Error>(
            stream@[first_error(stream@)]->Err_0,
        ),
{
    let ghost initial = stream@;
    proof {
        lemma_first_error(initial);
    }
    let mut reversed = reverse(stream);
    let mut rows: Vec<Row> = Vec::new();
    while reversed.len() > 0
        invariant
            initial == stream@,
            reversed.len() <= initial.len(),
            reversed@ == initial.reverse().take(reversed.len() as int),
            rows.len() == initial.len() - reversed.len(),
            rows.len() <= first_error(initial),
            forall|i: int| 0 <= i < rows.len() ==> (#[trigger] initial[i]) == Ok::<Row, Error>(rows[i]),
            forall|i: int| 0 <= i < first_error(initial) ==> (#[trigger] initial[i]) is Ok,
            first_error(initial) < initial.len() ==> initial[first_error(initial)] is Err,
            first_error(initial) <= initial.len(),
        decreases reversed.len(),
    {
        let ghost k = rows.len() as int;
        let ghost before = reversed@;
        let item = reversed.pop().unwrap();
        proof {
            assert(item == before.last());
            assert(before.last() == initial.reverse()[before.len() - 1]);
            assert(item == initial[k]);
            assert(reversed@ =~= initial.reverse().take(reversed.len() as int));
        }
        match item {
            Ok(row) => {
                rows.push(row);
            },
            Err(e) => {
                proof {
                    if k < first_error(initial) {
                        assert(initial[k] is Ok);
                    }
                }
                return Err(e);
            },
        }
    }
    proof {
        assert(rows@ =~= rows_before_error(initial));
    }
    Ok(rows)
}

/// Take the result of a query which is expected to return either 0 or 1 rows.
///
/// # Errors
///
/// This function will fail if the stream does not hold exactly 0 or 1 items, or with the
/// failure of its only item.
pub fn opt(stream: Vec<Result<Row, Error>>) -> (r: Result<Option<Row>, Error>)
    ensures
        stream@.len() == 0 ==> r == Ok::<Option<Row>, Error>(None),
        stream@.len() == 1 ==> r == match stream@[0] {
            Ok(row) => Ok::<Option<Row>, Error>(Some(row)),
            Err(e) => Err(e),
        },
        stream@.len() >= 2 ==> r == Err::<Option<Row>, Error>(Error::TooManyRows { expected: 1 }),
{
    let mut stream = stream;
    if stream.len() == 0 {
        return Ok(None);
    }
    if stream.len() > 1 {
        return Err(Error::too_many_rows(1));
    }
    match stream.pop().unwrap() {
        Ok(row) => Ok(Some(row)),
        Err(e) => Err(e),
    }
}

/// Take the result of a query which is expected to return a single row.
///
/// # Errors
///
/// This function will fail if the stream does not hold exactly one item, or with the failure
/// of its only item.
pub fn one(stream: Vec<Result<Row, Error>>) -> (r: Result<Row, Error>)
    ensures
        stream@.len() == 0 ==> r == Err::<Row, Error>(Error::EmptyRows),
        stream@.len() == 1 ==> r == stream@[0],
        stream@.len() >= 2 ==> r == Err::<Row, Error>(Error::TooManyRows { expected: 1 }),
{
    match opt(stream) {
        Ok(Some(row)) => Ok(row),
        Ok(None) => Err(Error::empty_rows()),
        Err(e) => Err(e),
    }
}

/// Reverse the order of a list.
pub fn reverse<T>(items: Vec<T>) -> (r: Vec<T>)
    ensures
        r@ == items@.reverse(),
{
    let ghost initial = items@;
    let mut items = items;
    let mut out: Vec<T> = Vec::new();
    while items.len() > 0
        invariant
            items.len() <= initial.len(),
            items@ == initial.take(items.len() as int),
            out.len() == initial.len() - items.len(),
            forall|i: int| 0 <= i < out.len() ==> (#[trigger] out[i]) == initial[initial.len() - 1 - i],
        decreases items.len(),
    {
        let ghost before = items@;
        let item = items.pop().unwrap();
        proof {
            assert(item == before.last());
            assert(items@ =~= initial.take(items.len() as int));
        }
        out.push(item);
    }
    proof {
        assert(out@ =~= initial.reverse());
    }
    out
}

} // verus!
