//! Mock instantiation of the abstract [`db`](super) interface.
//!
//! This instantiation is built on a simple in-memory database. It is useful for testing in
//! isolation from an actual database.

use super::{
    clone_values, AlterTable, Clause, Column, CreateTable, Error, Insert, Op, Row, SchemaColumn,
    Select, SelectColumn, Type, Value,
};
use crate::array::{check_permutation, is_permutation, is_permuted, lemma_permutation_onto, permute};
use crate::text::{
    distinct, find, find_last, last_position, lemma_last_position, lemma_position, position, str_eq,
};
use vstd::prelude::*;
use vstd::string::*;

verus! {

/// The names of a list of columns.
pub open spec fn names(columns: Seq<SchemaColumn>) -> Seq<String> {
    columns.map_values(|c: SchemaColumn| c.name)
}

/// The contents of a list of rows.
pub open spec fn contents(rows: Seq<Vec<Value>>) -> Seq<Seq<Value>> {
    rows.map_values(|r: Vec<Value>| r@)
}

/// Whether a column is filled in by the database.
pub open spec fn is_serial(column: SchemaColumn) -> bool {
    column.ty == Type::Serial
}

/// Whether a column requires an explicit value.
pub open spec fn is_explicit(column: SchemaColumn) -> bool {
    column.ty != Type::Serial
}

/// The mathematical value of an in-memory table.
///
/// Each row is a map from the names of the columns to values: it holds one value for each
/// column, in the order of the columns, the auto-incrementing columns first.
pub struct TableView {
    pub name: String,
    /// The auto-incrementing columns.
    pub serial_cols: Seq<SchemaColumn>,
    /// The columns that require explicit values.
    pub explicit_cols: Seq<SchemaColumn>,
    pub rows: Seq<Seq<Value>>,
}

impl TableView {
    /// An empty table with the given columns.
    pub open spec fn new(name: String, schema: Seq<SchemaColumn>) -> TableView {
        TableView {
            name,
            serial_cols: schema.filter(|c: SchemaColumn| is_serial(c)),
            explicit_cols: schema.filter(|c: SchemaColumn| is_explicit(c)),
            rows: Seq::empty(),
        }
    }

    /// The columns of this table.
    pub open spec fn schema(self) -> Seq<SchemaColumn> {
        self.serial_cols + self.explicit_cols
    }

    /// Whether every row holds one value for each column, with its position in the table,
    /// counting from 1, in the columns that the database fills in, and the rows and the columns
    /// can be counted by a machine.
    pub open spec fn wf(self) -> bool {
        &&& self.rows.len() <= i32::MAX
        &&& self.schema().len() <= usize::MAX
        &&& forall|i: int|
            0 <= i < self.rows.len() ==> (#[trigger] self.rows[i]).len() == self.schema().len()
        &&& forall|i: int, s: int|
            0 <= i < self.rows.len() && 0 <= s < self.serial_cols.len() ==> (
            #[trigger] self.rows[i][s]) == Value::Int4((i + 1) as i32)
    }

    /// The row that is stored for `row`, a list of values for the explicit columns in their
    /// order, when the table holds `count` rows: the columns that are filled in by the database
    /// get the next serial number.
    pub open spec fn stored(self, row: Seq<Value>, count: int) -> Seq<Value> {
        Seq::new(self.serial_cols.len(), |s: int| Value::Int4((count + 1) as i32)) + row
    }

    /// The reason, if any, why `rows` cannot be appended.
    pub open spec fn append_rejection(self, rows: Seq<Seq<Value>>) -> Option<Error> {
        if exists|j: int|
            0 <= j < rows.len() && (#[trigger] rows[j]).len() != self.explicit_cols.len() {
            let j = choose|j: int|
                0 <= j < rows.len() && (#[trigger] rows[j]).len() != self.explicit_cols.len()
                    && forall|k: int|
                    0 <= k < j ==> (#[trigger] rows[k]).len() == self.explicit_cols.len();
            Some(
                Error::IncorrectWidth {
                    table: self.name,
                    found: self.explicit_cols.len() as usize,
                    expected: rows[j].len() as usize,
                },
            )
        } else if self.rows.len() + rows.len() > i32::MAX {
            Some(Error::OutOfRange { table: self.name })
        } else {
            None
        }
    }

    /// This table after `rows`, lists of values for the explicit columns in their order, are
    /// appended.
    pub open spec fn append(self, rows: Seq<Seq<Value>>) -> Result<TableView, Error> {
        match self.append_rejection(rows) {
            Some(e) => Err(e),
            None => Ok(
                TableView {
                    name: self.name,
                    serial_cols: self.serial_cols,
                    explicit_cols: self.explicit_cols,
                    rows: self.rows + Seq::new(
                        rows.len(),
                        |j: int| self.stored(rows[j], self.rows.len() + j),
                    ),
                },
            ),
        }
    }

    /// The values of `row`, a list of values for the columns `columns`, in the order of the
    /// explicit columns of this table: each explicit column gets the value which `row` holds at
    /// the position where `columns` names that column.
    pub open spec fn arranged(self, columns: Seq<String>, row: Seq<Value>) -> Seq<Value> {
        Seq::new(
            self.explicit_cols.len(),
            |t: int|
                match position(columns, self.explicit_cols[t].name@) {
                    Some(i) => row[i],
                    None => Value::Int4(0),
                },
        )
    }

    /// The reason, if any, why rows cannot be inserted into the columns `columns`.
    pub open spec fn insert_rejection(self, columns: Seq<String>, rows: Seq<Seq<Value>>) -> Option<
        Error,
    > {
        let explicit = names(self.explicit_cols);
        if exists|i: int| 0 <= i < columns.len() && position(explicit, #[trigger] columns[i]@) is None {
            let i = choose|i: int|
                0 <= i < columns.len() && position(explicit, #[trigger] columns[i]@) is None
                    && forall|j: int|
                    0 <= j < i ==> position(explicit, #[trigger] columns[j]@) is Some;
            Some(Error::TableHasNoColumn { table: self.name, column: columns[i] })
        } else if columns.len() != explicit.len() {
            Some(
                Error::IncorrectWidth {
                    table: self.name,
                    found: explicit.len() as usize,
                    expected: columns.len() as usize,
                },
            )
        } else if !distinct(columns) {
            Some(Error::DuplicateColumn { table: self.name })
        } else {
            None
        }
    }

    /// This table after the insertion of `rows`, lists of values for the columns `columns`.
    pub open spec fn insert(self, columns: Seq<String>, rows: Seq<Seq<Value>>) -> Result<
        TableView,
        Error,
    > {
        match self.insert_rejection(columns, rows) {
            Some(e) => Err(e),
            None => match self.append_rejection(rows) {
                Some(e) => Err(e),
                None => self.append(rows.map_values(|row: Seq<Value>| self.arranged(columns, row))),
            },
        }
    }

    /// The position of the column with the given name: where several columns have that name,
    /// the last of them.
    pub open spec fn column(self, name: Seq<char>) -> Option<int> {
        last_position(names(self.schema()), name)
    }

    /// The value that the row at position `row` holds under the column with the given name.
    pub open spec fn value(self, row: int, name: Seq<char>) -> Option<Value> {
        match self.column(name) {
            Some(c) => Some(self.rows[row][c]),
            None => None,
        }
    }
}

/// An in-memory table.
#[derive(Debug)]
pub struct Table {
    name: String,
    serial_cols: Vec<SchemaColumn>,
    explicit_cols: Vec<SchemaColumn>,
    rows: Vec<Vec<Value>>,
}

impl View for Table {
    type V = TableView;

    closed spec fn view(&self) -> TableView {
        TableView {
            name: self.name,
            serial_cols: self.serial_cols@,
            explicit_cols: self.explicit_cols@,
            rows: contents(self.rows@),
        }
    }
}

impl Table {
    /// An empty table with the given name and columns.
    #[verifier::loop_isolation(false)]
    pub fn new(name: String, schema: Vec<SchemaColumn>) -> (t: Self)
        ensures
            t@ == TableView::new(name, schema@),
            t@.wf(),
    {
        // Separate the auto-incrementing columns from the columns that require explicit values.
        let mut serial_cols: Vec<SchemaColumn> = Vec::new();
        let mut explicit_cols: Vec<SchemaColumn> = Vec::new();
        let mut i: usize = 0;
        while i < schema.len()
            invariant
                i <= schema.len(),
                serial_cols@ == schema@.take(i as int).filter(|c: SchemaColumn| is_serial(c)),
                explicit_cols@ == schema@.take(i as int).filter(|c: SchemaColumn| is_explicit(c)),
                serial_cols@.len() + explicit_cols@.len() == i,
            decreases schema.len() - i,
        {
            proof {
                assert(schema@.take(i + 1) =~= schema@.take(i as int).push(schema@[i as int]));
                schema@.take(i as int).lemma_filter_push(
                    schema@[i as int],
                    |c: SchemaColumn| is_serial(c),
                );
                schema@.take(i as int).lemma_filter_push(
                    schema@[i as int],
                    |c: SchemaColumn| is_explicit(c),
                );
            }
            let column = schema[i].clone();
            match column.ty {
                Type::Serial => serial_cols.push(column),
                _ => explicit_cols.push(column),
            }
            i += 1;
        }
        proof {
            assert(schema@.take(schema.len() as int) =~= schema@);
        }
        let t = Table { name, serial_cols, explicit_cols, rows: Vec::new() };
        proof {
            assert(t@.rows =~= Seq::empty());
        }
        t
    }

    /// The name of this table.
    pub fn name(&self) -> (r: &String)
        ensures
            *r == self@.name,
    {
        &self.name
    }

    /// The columns of this table: the auto-incrementing columns, then the others.
    #[verifier::loop_isolation(false)]
    pub fn schema(&self) -> (r: Vec<SchemaColumn>)
        ensures
            r@ == self@.schema(),
    {
        let mut out: Vec<SchemaColumn> = Vec::new();
        let mut i: usize = 0;
        while i < self.serial_cols.len()
            invariant
                i <= self.serial_cols.len(),
                out@ == self.serial_cols@.take(i as int),
            decreases self.serial_cols.len() - i,
        {
            out.push(self.serial_cols[i].clone());
            proof {
                assert(self.serial_cols@.take(i + 1) =~= self.serial_cols@.take(i as int).push(
                    self.serial_cols@[i as int],
                ));
            }
            i += 1;
        }
        let mut k: usize = 0;
        while k < self.explicit_cols.len()
            invariant
                k <= self.explicit_cols.len(),
                out@ == self.serial_cols@ + self.explicit_cols@.take(k as int),
            decreases self.explicit_cols.len() - k,
        {
            out.push(self.explicit_cols[k].clone());
            proof {
                assert(self.explicit_cols@.take(k + 1) =~= self.explicit_cols@.take(k as int).push(
                    self.explicit_cols@[k as int],
                ));
                assert(self.serial_cols@.take(self.serial_cols.len() as int) =~= self.serial_cols@);
                assert((self.serial_cols@ + self.explicit_cols@.take(k as int)).push(
                    self.explicit_cols@[k as int],
                ) =~= self.serial_cols@ + self.explicit_cols@.take(k + 1));
            }
            k += 1;
        }
        proof {
            assert(self.serial_cols@.take(self.serial_cols.len() as int) =~= self.serial_cols@);
            assert(self.explicit_cols@.take(self.explicit_cols.len() as int)
                =~= self.explicit_cols@);
        }
        out
    }

    /// The names of the columns that require explicit values.
    fn explicit_names(&self) -> (r: Vec<String>)
        ensures
            r@ == names(self@.explicit_cols),
    {
        let mut out: Vec<String> = Vec::new();
        let mut i: usize = 0;
        while i < self.explicit_cols.len()
            invariant
                i <= self.explicit_cols.len(),
                out@.len() == i,
                forall|k: int| 0 <= k < i ==> (#[trigger] out@[k]) == self.explicit_cols@[k].name,
            decreases self.explicit_cols.len() - i,
        {
            out.push(self.explicit_cols[i].name.clone());
            i += 1;
        }
        proof {
            assert(out@ =~= names(self@.explicit_cols));
        }
        out
    }

    /// The names of all columns.
    fn column_names(&self) -> (r: Vec<String>)
        ensures
            r@ == names(self@.schema()),
    {
        let schema = self.schema();
        let mut out: Vec<String> = Vec::new();
        let mut i: usize = 0;
        while i < schema.len()
            invariant
                i <= schema.len(),
                out@.len() == i,
                forall|k: int| 0 <= k < i ==> (#[trigger] out@[k]) == schema@[k].name,
            decreases schema.len() - i,
        {
            out.push(schema[i].name.clone());
            i += 1;
        }
        proof {
            assert(out@ =~= names(schema@));
        }
        out
    }

    /// Append rows, lists of values for the explicit columns in their order, to this table.
    ///
    /// The auto-incrementing columns are filled in.
    ///
    /// # Errors
    ///
    /// The table is left unchanged if a row does not hold one value for each explicit column, or
    /// if the serial numbers are exhausted.
    #[verifier::loop_isolation(false)]
    pub fn append(&mut self, rows: Vec<Vec<Value>>) -> (r: Result<(), Error>)
        requires
            old(self)@.wf(),
        ensures
            final(self)@.wf(),
            match old(self)@.append(contents(rows@)) {
                Ok(t) => r == Ok::<(), Error>(()) && final(self)@ == t,
                Err(e) => r == Err::<(), Error>(e) && final(self)@ == old(self)@,
            },
    {
        let ghost before = self@;
        let ghost given = contents(rows@);
        let ghost held = self.rows@;
        // We require a value for all columns except the serial columns (which are
        // auto-incremented).
        let width = self.explicit_cols.len();
        let mut j: usize = 0;
        while j < rows.len()
            invariant
                j <= rows.len(),
                forall|k: int| 0 <= k < j ==> (#[trigger] rows@[k])@.len() == width,
            decreases rows.len() - j,
        {
            if rows[j].len() != width {
                proof {
                    assert(given[j as int].len() != width);
                    assert forall|k: int| 0 <= k < j implies (#[trigger] given[k]).len() == width by {
                        assert(rows@[k]@.len() == width);
                    }
                }
                return Err(
                    Error::IncorrectWidth {
                        table: self.name.clone(),
                        found: width,
                        expected: rows[j].len(),
                    },
                );
            }
            j += 1;
        }
        proof {
            assert forall|k: int| 0 <= k < rows.len() implies (#[trigger] given[k]).len() == width by {
                assert(rows@[k]@.len() == width);
            }
        }
        if rows.len() > i32::MAX as usize || self.rows.len() > i32::MAX as usize - rows.len() {
            return Err(Error::OutOfRange { table: self.name.clone() });
        }
        let mut rows = rows;
        let mut k: usize = 0;
        while k < rows.len()
            invariant
                k <= rows.len(),
                rows@.len() == given.len(),
                self.rows@.len() == held.len() + k,
                self.name == before.name,
                self.serial_cols@ == before.serial_cols,
                self.explicit_cols@ == before.explicit_cols,
                forall|a: int| 0 <= a < held.len() ==> (#[trigger] self.rows@[a]) == held[a],
                forall|a: int|
                    0 <= a < k ==> (#[trigger] self.rows@[held.len() + a])@ == before.stored(
                        given[a],
                        held.len() + a,
                    ),
                forall|a: int| k <= a < rows.len() ==> (#[trigger] rows@[a])@ == given[a],
            decreases rows.len() - k,
        {
            // Auto-increment the serial columns.
            let serial: i32 = (self.rows.len() + 1) as i32;
            let mut stored: Vec<Value> = Vec::new();
            let mut s: usize = 0;
            while s < self.serial_cols.len()
                invariant
                    s <= self.serial_cols.len(),
                    stored@ == Seq::new(s as nat, |x: int| Value::Int4(serial)),
                decreases self.serial_cols.len() - s,
            {
                stored.push(Value::Int4(serial));
                proof {
                    assert(stored@ =~= Seq::new((s + 1) as nat, |x: int| Value::Int4(serial)));
                }
                s += 1;
            }
            // Take the rest of the values from the input.
            stored.append(&mut rows[k]);
            proof {
                assert(stored@ =~= before.stored(given[k as int], held.len() + k));
            }
            self.rows.push(stored);
            k += 1;
        }
        proof {
            assert(before.append_rejection(given) is None);
            let after = before.append(given)->Ok_0;
            assert(self@.rows.len() == after.rows.len());
            assert forall|a: int| 0 <= a < after.rows.len() implies self@.rows[a] == after.rows[a] by {
                if a < held.len() {
                    assert(self.rows@[a] == held[a]);
                    assert(before.rows[a] == held[a]@);
                } else {
                    assert(self.rows@[held.len() + (a - held.len())]@ == before.stored(
                        given[a - held.len()],
                        held.len() + (a - held.len()),
                    ));
                }
            }
            assert(self@.rows =~= after.rows);
            assert forall|a: int| 0 <= a < self@.rows.len() implies (#[trigger] self@.rows[a]).len()
                == self@.schema().len() by {
                if a < held.len() {
                    assert(before.rows[a].len() == before.schema().len());
                }
            }
            assert forall|a: int, s: int|
                0 <= a < self@.rows.len() && 0 <= s < self@.serial_cols.len() implies (
            #[trigger] self@.rows[a][s]) == Value::Int4((a + 1) as i32) by {
                if a < held.len() {
                    assert(before.rows[a][s] == Value::Int4((a + 1) as i32));
                }
            }
        }
        Ok(())
    }

    /// Insert rows, given as lists of values for the columns `columns`, into this table.
    ///
    /// The values are reordered to the order of the columns of the table where `columns` names
    /// them in another order, and the rows are appended.
    ///
    /// # Errors
    ///
    /// The table is left unchanged if `columns` names a column which the table does not have,
    /// if it does not name every explicit column exactly once, if a row does not hold one value
    /// for each of the columns, or if the serial numbers are exhausted.
    #[verifier::loop_isolation(false)]
    pub fn insert(&mut self, columns: &Vec<String>, rows: Vec<Vec<Value>>) -> (r: Result<(), Error>)
        requires
            old(self)@.wf(),
        ensures
            final(self)@.wf(),
            match old(self)@.insert(columns@, contents(rows@)) {
                Ok(t) => r == Ok::<(), Error>(()) && final(self)@ == t,
                Err(e) => r == Err::<(), Error>(e) && final(self)@ == old(self)@,
            },
    {
        let ghost before = self@;
        let ghost explicit = names(before.explicit_cols);
        let ghost given = contents(rows@);
        let explicit_names = self.explicit_names();
        let width = columns.len();
        // A permutation of column indices mapping positions in the input rows to the positions
        // of the corresponding columns in the table schema.
        let mut targets: Vec<usize> = Vec::new();
        let mut i: usize = 0;
        while i < width
            invariant
                i <= width,
                targets@.len() == i,
                forall|k: int|
                    0 <= k < i ==> position(explicit, #[trigger] columns@[k]@) == Some(
                        targets@[k] as int,
                    ),
            decreases width - i,
        {
            match find(&explicit_names, columns[i].as_str()) {
                Some(col) => {
                    targets.push(col);
                },
                None => {
                    return Err(
                        Error::TableHasNoColumn {
                            table: self.name.clone(),
                            column: columns[i].clone(),
                        },
                    );
                },
            }
            i += 1;
        }
        if width != self.explicit_cols.len() {
            return Err(
                Error::IncorrectWidth {
                    table: self.name.clone(),
                    found: self.explicit_cols.len(),
                    expected: width,
                },
            );
        }
        proof {
            assert forall|k: int| 0 <= k < width implies (#[trigger] targets@[k]) < width by {
                lemma_position(explicit, columns@[k]@);
            }
            lemma_targets_distinct(explicit, columns@, targets@);
        }
        if !check_permutation(&targets) {
            return Err(Error::DuplicateColumn { table: self.name.clone() });
        }
        let mut rows = rows;
        let mut j: usize = 0;
        while j < rows.len()
            invariant
                j <= rows.len(),
                rows@.len() == given.len(),
                forall|k: int|
                    0 <= k < j ==> (#[trigger] rows@[k])@ == before.arranged(columns@, given[k]),
                forall|k: int| 0 <= k < j ==> (#[trigger] given[k]).len() == width,
                forall|k: int| j <= k < rows.len() ==> (#[trigger] rows@[k])@ == given[k],
            decreases rows.len() - j,
        {
            if rows[j].len() != width {
                return Err(
                    Error::IncorrectWidth {
                        table: self.name.clone(),
                        found: width,
                        expected: rows[j].len(),
                    },
                );
            }
            let ghost row = rows@[j as int]@;
            permute(&mut rows[j], &targets);
            proof {
                let permuted = rows@[j as int]@;
                let expected = before.arranged(columns@, row);
                assert forall|t: int| 0 <= t < width implies permuted[t] == expected[t] by {
                    lemma_source(explicit, columns@, targets@, t);
                    let a = position(columns@, before.explicit_cols[t].name@)->Some_0;
                    assert(permuted[targets@[a] as int] == row[a]);
                }
                assert(permuted =~= expected);
            }
            j += 1;
        }
        proof {
            assert(before.insert_rejection(columns@, given) is None);
            assert(before.append_rejection(given) is None || before.append_rejection(given)
                == Some(Error::OutOfRange { table: before.name }));
            let arranged = given.map_values(|row: Seq<Value>| before.arranged(columns@, row));
            assert(contents(rows@) =~= arranged);
            assert(before.append_rejection(arranged) == before.append_rejection(given)) by {
                assert forall|k: int| 0 <= k < arranged.len() implies (#[trigger] arranged[k]).len()
                    == width by {}
            }
        }
        self.append(rows)
    }
}

/// The targets of pairwise different columns are pairwise different, and conversely.
pub proof fn lemma_targets_distinct(explicit: Seq<String>, columns: Seq<String>, targets: Seq<usize>)
    requires
        targets.len() == columns.len(),
        forall|k: int|
            0 <= k < columns.len() ==> position(explicit, #[trigger] columns[k]@) == Some(
                targets[k] as int,
            ),
        forall|k: int| 0 <= k < targets.len() ==> (#[trigger] targets[k]) < targets.len(),
    ensures
        is_permutation(targets) <==> distinct(columns),
{
    if distinct(columns) {
        assert forall|i: int, j: int| 0 <= i < j < targets.len() implies (#[trigger] targets[i]) != (
        #[trigger] targets[j]) by {
            lemma_position(explicit, columns[i]@);
            lemma_position(explicit, columns[j]@);
            assert(columns[i]@ != columns[j]@);
        }
    }
    if is_permutation(targets) {
        assert forall|i: int, j: int| 0 <= i < j < columns.len() implies (#[trigger] columns[i])@ != (
        #[trigger] columns[j])@ by {
            assert(targets[i] != targets[j]);
        }
    }
}

/// Where `columns` names every explicit column exactly once, the value for the explicit column
/// at position `t` is found at the position where `columns` names that column, and the target
/// of that position is `t`.
pub proof fn lemma_source(explicit: Seq<String>, columns: Seq<String>, targets: Seq<usize>, t: int)
    requires
        targets.len() == columns.len(),
        columns.len() == explicit.len(),
        forall|k: int|
            0 <= k < columns.len() ==> position(explicit, #[trigger] columns[k]@) == Some(
                targets[k] as int,
            ),
        is_permutation(targets),
        0 <= t < explicit.len(),
    ensures
        position(columns, explicit[t]@) matches Some(a) && 0 <= a < columns.len() && targets[a]
            == t,
{
    lemma_permutation_onto(targets, t);
    let a = choose|a: int| 0 <= a < targets.len() && targets[a] == t;
    lemma_position(explicit, columns[a]@);
    lemma_position(columns, explicit[t]@);
    let b = position(columns, explicit[t]@)->Some_0;
    lemma_position(explicit, columns[b]@);
}

/// The names of a list of tables.
pub open spec fn table_names(tables: Seq<TableView>) -> Seq<String> {
    tables.map_values(|t: TableView| t.name)
}

/// The position of the table with the given name, if there is one.
pub open spec fn lookup(tables: Seq<TableView>, name: Seq<char>) -> Option<int> {
    position(table_names(tables), name)
}

/// Whether the tables of a database are consistent: no two have the same name, and every row
/// holds one value for each column of its table.
pub open spec fn wf(tables: Seq<TableView>) -> bool {
    &&& tables.len() <= usize::MAX
    &&& distinct(table_names(tables))
    &&& forall|i: int| 0 <= i < tables.len() ==> (#[trigger] tables[i]).wf()
}

/// The tables of a database after a table with the given name and columns is created: nothing
/// changes where a table of that name exists.
pub open spec fn created(tables: Seq<TableView>, name: String, schema: Seq<SchemaColumn>) -> Seq<
    TableView,
> {
    if lookup(tables, name@) is Some {
        tables
    } else {
        tables.push(TableView::new(name, schema))
    }
}

/// The tables of a database after `rows`, lists of values for the explicit columns in their
/// order, are appended to the table with the given name.
pub open spec fn appended(tables: Seq<TableView>, table: String, rows: Seq<Seq<Value>>) -> Result<
    Seq<TableView>,
    Error,
> {
    match lookup(tables, table@) {
        None => Err(Error::NoSuchTable { table }),
        Some(i) => match tables[i].append(rows) {
            Ok(t) => Ok(tables.update(i, t)),
            Err(e) => Err(e),
        },
    }
}

/// The tables of a database after the insertion of `rows`, lists of values for the columns
/// `columns`, into the table with the given name.
pub open spec fn inserted(
    tables: Seq<TableView>,
    table: String,
    columns: Seq<String>,
    rows: Seq<Seq<Value>>,
) -> Result<Seq<TableView>, Error> {
    match lookup(tables, table@) {
        None => Err(Error::NoSuchTable { table }),
        Some(i) => match tables[i].insert(columns, rows) {
            Ok(t) => Ok(tables.update(i, t)),
            Err(e) => Err(e),
        },
    }
}

/// A table keeps its name and its columns when rows are appended or inserted.
pub proof fn lemma_insert_keeps_schema(table: TableView, columns: Seq<String>, rows: Seq<Seq<Value>>)
    ensures
        table.insert(columns, rows) matches Ok(t) ==> t.name == table.name && t.serial_cols
            == table.serial_cols && t.explicit_cols == table.explicit_cols,
        table.append(rows) matches Ok(t) ==> t.name == table.name && t.serial_cols
            == table.serial_cols && t.explicit_cols == table.explicit_cols,
{
}

/// A connection to the in-memory database.
#[derive(Debug)]
pub struct Connection {
    tables: Vec<Table>,
}

impl View for Connection {
    type V = Seq<TableView>;

    closed spec fn view(&self) -> Seq<TableView> {
        self.tables@.map_values(|t: Table| t@)
    }
}

impl Connection {
    /// Whether the tables of this database are consistent.
    pub open spec fn wf(&self) -> bool {
        wf(self@)
    }

    /// Create a new database and connect to it.
    ///
    /// This will create a connection to a fresh, empty database. It will not be connected or
    /// related to any previous connection or database.
    pub fn create() -> (db: Self)
        ensures
            db@ == Seq::<TableView>::empty(),
            db.wf(),
    {
        let db = Connection { tables: Vec::new() };
        proof {
            assert(db@ =~= Seq::<TableView>::empty());
        }
        db
    }

    /// Find the table with the given name.
    fn find_table(&self, name: &str) -> (r: Option<usize>)
        ensures
            r matches Some(i) ==> lookup(self@, name@) == Some(i as int) && i < self.tables@.len(),
            r is None ==> lookup(self@, name@) is None,
    {
        let mut i: usize = 0;
        while i < self.tables.len()
            invariant
                i <= self.tables.len(),
                forall|j: int| 0 <= j < i ==> (#[trigger] table_names(self@)[j])@ != name@,
            decreases self.tables.len() - i,
        {
            if str_eq(self.tables[i].name.as_str(), name) {
                proof {
                    assert(table_names(self@)[i as int] == self.tables@[i as int].name);
                    lemma_position(table_names(self@), name@);
                }
                return Some(i);
            }
            proof {
                assert(table_names(self@)[i as int] == self.tables@[i as int].name);
            }
            i += 1;
        }
        proof {
            lemma_position(table_names(self@), name@);
        }
        None
    }

    /// Create a table with the given column names.
    ///
    /// Nothing happens if a table with the given name exists.
    pub fn create_table(&mut self, table: String, columns: Vec<SchemaColumn>) -> (r: Result<
        (),
        Error,
    >)
        requires
            old(self).wf(),
        ensures
            final(self).wf(),
            r == Ok::<(), Error>(()),
            final(self)@ == created(old(self)@, table, columns@),
    {
        let ghost before = self@;
        match self.find_table(table.as_str()) {
            Some(_) => {},
            None => {
                let created = Table::new(table, columns);
                self.tables.push(created);
                let count = self.tables.len();
                proof {
                    assert(self@.len() == count);
                    assert(self@ =~= before.push(created@));
                    lemma_position(table_names(before), table@);
                    assert forall|i: int, j: int| 0 <= i < j < self@.len() implies (
                    #[trigger] table_names(self@)[i])@ != (#[trigger] table_names(self@)[j])@ by {
                        if j < before.len() {
                            assert(table_names(before)[i] == table_names(self@)[i]);
                            assert(table_names(before)[j] == table_names(self@)[j]);
                        } else {
                            assert(table_names(before)[i] == table_names(self@)[i]);
                        }
                    }
                    assert forall|i: int| 0 <= i < self@.len() implies (#[trigger] self@[i]).wf() by {
                        if i < before.len() {
                            assert(before[i].wf());
                        }
                    }
                }
            },
        }
        Ok(())
    }

    /// Create a table with the given column names and row values.
    ///
    /// Each row holds one value for each column which is not auto-incrementing, in the order of
    /// the columns.
    ///
    /// # Errors
    ///
    /// No row is added if a row does not hold one value for each explicit column of the table,
    /// or if the serial numbers are exhausted.
    pub fn create_table_with_rows(
        &mut self,
        table: String,
        columns: Vec<SchemaColumn>,
        rows: Vec<Vec<Value>>,
    ) -> (r: Result<(), Error>)
        requires
            old(self).wf(),
        ensures
            final(self).wf(),
            match appended(created(old(self)@, table, columns@), table, contents(rows@)) {
                Ok(tables) => r == Ok::<(), Error>(()) && final(self)@ == tables,
                Err(e) => r == Err::<(), Error>(e) && final(self)@ == created(
                    old(self)@,
                    table,
                    columns@,
                ),
            },
    {
        let name = table.clone();
        let _ = self.create_table(table, columns);
        self.append(&name, rows)
    }

    /// Append rows to the table with the given name.
    fn append(&mut self, table: &String, rows: Vec<Vec<Value>>) -> (r: Result<(), Error>)
        requires
            old(self).wf(),
        ensures
            final(self).wf(),
            match appended(old(self)@, *table, contents(rows@)) {
                Ok(tables) => r == Ok::<(), Error>(()) && final(self)@ == tables,
                Err(e) => r == Err::<(), Error>(e) && final(self)@ == old(self)@,
            },
    {
        let ghost before = self@;
        match self.find_table(table.as_str()) {
            None => Err(Error::NoSuchTable { table: table.clone() }),
            Some(i) => {
                proof {
                    assert(before[i as int].wf());
                }
                let r = self.tables[i].append(rows);
                proof {
                    lemma_updated(before, self@, i as int);
                }
                r
            },
        }
    }

    /// Insert rows into the given columns of the table with the given name.
    fn insert_rows(&mut self, table: &String, columns: &Vec<String>, rows: Vec<Vec<Value>>) -> (r: Result<
        (),
        Error,
    >)
        requires
            old(self).wf(),
        ensures
            final(self).wf(),
            match inserted(old(self)@, *table, columns@, contents(rows@)) {
                Ok(tables) => r == Ok::<(), Error>(()) && final(self)@ == tables,
                Err(e) => r == Err::<(), Error>(e) && final(self)@ == old(self)@,
            },
    {
        let ghost before = self@;
        match self.find_table(table.as_str()) {
            None => Err(Error::NoSuchTable { table: table.clone() }),
            Some(i) => {
                proof {
                    assert(before[i as int].wf());
                }
                let r = self.tables[i].insert(columns, rows);
                proof {
                    lemma_insert_keeps_schema(before[i as int], columns@, contents(rows@));
                    lemma_updated(before, self@, i as int);
                }
                r
            },
        }
    }

    /// Start an `ALTER TABLE` statement.
    ///
    /// The statement will affect `table`. Actions to perform on the table can be specified using
    /// the methods on the [`AlterTable`] object before executing the statement.
    pub fn alter_table(&self, table: String) -> (q: AlterTable)
        ensures
            q.table == table,
            q.constraints@ == Seq::<super::Constraint>::empty(),
    {
        AlterTable::new(table)
    }

    /// Start a `SELECT` query.
    ///
    /// `columns` indicates the columns to include in the query results. The query can be
    /// refined, for example by adding a `WHERE` clause, using the appropriate methods on the
    /// [`Select`] object before running it.
    pub fn select(&self, columns: Vec<SelectColumn>, table: String) -> (q: Select)
        ensures
            q.columns == columns,
            q.table == table,
            q.clauses@ == Seq::<Clause>::empty(),
    {
        Select::new(columns, table)
    }

    /// Start an `INSERT` query.
    ///
    /// `table` indicates the table to insert into and `columns` the names of the columns in that
    /// table into which values should be inserted.
    pub fn insert(&self, table: String, columns: Vec<String>) -> (q: Insert)
        ensures
            q.table == table,
            q.columns == columns,
            q.rows@ == Seq::<Vec<Value>>::empty(),
    {
        Insert::new(table, columns)
    }

    /// The number of tables.
    pub fn len(&self) -> (n: usize)
        ensures
            n == self@.len(),
    {
        self.tables.len()
    }

    /// The schema of the table with the given name, if there is one.
    ///
    /// The schema of a table consists of a list of column schemas.
    pub fn table_schema(&self, table: &str) -> (r: Option<Vec<SchemaColumn>>)
        ensures
            match lookup(self@, table@) {
                Some(i) => r matches Some(columns) && columns@ == self@[i].schema(),
                None => r is None,
            },
    {
        match self.find_table(table) {
            Some(i) => Some(self.tables[i].schema()),
            None => None,
        }
    }

    /// The schema of this database.
    ///
    /// The schema lists the tables, in the order in which they were created: the name of each
    /// table with the schema of the table.
    pub fn schema(&self) -> (r: Vec<(String, Vec<SchemaColumn>)>)
        ensures
            r@.len() == self@.len(),
            forall|i: int|
                0 <= i < r@.len() ==> (#[trigger] r@[i]).0 == self@[i].name && r@[i].1@
                    == self@[i].schema(),
    {
        let mut out: Vec<(String, Vec<SchemaColumn>)> = Vec::new();
        let mut i: usize = 0;
        while i < self.tables.len()
            invariant
                i <= self.tables.len(),
                out@.len() == i,
                forall|k: int|
                    0 <= k < i ==> (#[trigger] out@[k]).0 == self@[k].name && out@[k].1@
                        == self@[k].schema(),
            decreases self.tables.len() - i,
        {
            out.push((self.tables[i].name.clone(), self.tables[i].schema()));
            i += 1;
        }
        out
    }
}

/// A database stays consistent when one of its tables changes but keeps its name.
proof fn lemma_updated(before: Seq<TableView>, after: Seq<TableView>, i: int)
    requires
        wf(before),
        0 <= i < before.len(),
        after.len() == before.len(),
        after[i].wf(),
        after[i].name == before[i].name,
        forall|j: int| 0 <= j < before.len() && j != i ==> after[j] == before[j],
    ensures
        wf(after),
        after == before.update(i, after[i]),
{
    assert(after =~= before.update(i, after[i]));
    assert(table_names(after) =~= table_names(before));
    assert forall|j: int| 0 <= j < after.len() implies (#[trigger] after[j]).wf() by {
        if j != i {
            assert(before[j].wf());
        }
    }
}

impl CreateTable {
    /// Create the table.
    ///
    /// The in-memory database does not enforce constraints. Nothing happens if a table with the
    /// name of the table exists.
    pub fn execute(self, db: &mut Connection) -> (r: Result<(), Error>)
        requires
            old(db).wf(),
        ensures
            final(db).wf(),
            r == Ok::<(), Error>(()),
            final(db)@ == created(old(db)@, self.table, self.columns@),
    {
        db.create_table(self.table, self.columns)
    }
}

impl AlterTable {
    /// Do the table alteration.
    ///
    /// The in-memory database does not enforce constraints, so this leaves it as it is.
    pub fn execute(self, db: &mut Connection) -> (r: Result<(), Error>)
        ensures
            r == Ok::<(), Error>(()),
            *final(db) == *old(db),
    {
        Ok(())
    }
}

impl Insert {
    /// Do the insertion.
    ///
    /// The values of each row are stored under the names of the columns of this statement,
    /// whatever the order in which it names them.
    ///
    /// # Errors
    ///
    /// The database is left unchanged if the table does not exist, if the statement names a
    /// column which the table does not have or does not name every explicit column exactly once,
    /// if a row does not hold one value for each of the columns, or if the serial numbers are
    /// exhausted.
    pub fn execute(self, db: &mut Connection) -> (r: Result<(), Error>)
        requires
            old(db).wf(),
        ensures
            final(db).wf(),
            match inserted(old(db)@, self.table, self.columns@, contents(self.rows@)) {
                Ok(tables) => r == Ok::<(), Error>(()) && final(db)@ == tables,
                Err(e) => r == Err::<(), Error>(e) && final(db)@ == old(db)@,
            },
    {
        db.insert_rows(&self.table, &self.columns, self.rows)
    }
}

/// The right-hand side of a condition: a parameter, or a column of a source of the query.
pub enum Operand {
    Param(Value),
    Column(usize, usize),
}

/// The contents of a list of rows of a join: each holds, for each source of the query, the
/// position of a row of that source.
pub open spec fn combinations(combos: Seq<Vec<usize>>) -> Seq<Seq<usize>> {
    combos.map_values(|c: Vec<usize>| c@)
}

/// The names of the sources of a query: the table that it selects from, then the tables that it
/// joins.
pub open spec fn source_names(tables: Seq<TableView>, sources: Seq<usize>) -> Seq<String> {
    sources.map_values(|t: usize| tables[t as int].name)
}

/// Where a column of a query is found: at a position among the sources, and at a position among
/// the columns of that source.
///
/// A qualified column is a column of the first source of that name; another column is a column
/// of the table that the query selects from.
pub open spec fn resolved(tables: Seq<TableView>, sources: Seq<usize>, column: Column) -> Option<
    (usize, usize),
> {
    let source = match column.table {
        Some(t) => position(source_names(tables, sources), t@),
        None => Some(0int),
    };
    match source {
        Some(s) => match tables[sources[s] as int].column(column.name@) {
            Some(c) => Some((s as usize, c as usize)),
            None => None,
        },
        None => None,
    }
}

/// Whether every source is a table of the database.
pub open spec fn valid_sources(tables: Seq<TableView>, sources: Seq<usize>) -> bool {
    &&& sources.len() > 0
    &&& forall|s: int| 0 <= s < sources.len() ==> (#[trigger] sources[s]) < tables.len()
}

/// Whether a row of a join holds the position of a row for each source.
pub open spec fn valid_combo(tables: Seq<TableView>, sources: Seq<usize>, combo: Seq<usize>) -> bool {
    &&& combo.len() == sources.len()
    &&& forall|s: int|
        0 <= s < sources.len() ==> (#[trigger] combo[s]) < tables[sources[s] as int].rows.len()
}

/// Whether every row of a join holds the position of a row for each source.
pub open spec fn valid_combos(
    tables: Seq<TableView>,
    sources: Seq<usize>,
    combos: Seq<Seq<usize>>,
) -> bool {
    forall|i: int| 0 <= i < combos.len() ==> valid_combo(tables, sources, #[trigger] combos[i])
}

/// Whether a place is that of a column of a source.
pub open spec fn valid_at(tables: Seq<TableView>, sources: Seq<usize>, at: (usize, usize)) -> bool {
    &&& at.0 < sources.len()
    &&& at.1 < tables[sources[at.0 as int] as int].schema().len()
}

/// The value of a column in a row of a join.
pub open spec fn value_at(
    tables: Seq<TableView>,
    sources: Seq<usize>,
    combo: Seq<usize>,
    at: (usize, usize),
) -> Value {
    tables[sources[at.0 as int] as int].rows[combo[at.0 as int] as int][at.1 as int]
}

/// The value of the right-hand side of a condition in a row of a join.
pub open spec fn operand_value(
    tables: Seq<TableView>,
    sources: Seq<usize>,
    combo: Seq<usize>,
    operand: Operand,
) -> Value {
    match operand {
        Operand::Param(v) => v,
        Operand::Column(s, c) => value_at(tables, sources, combo, (s, c)),
    }
}

/// The outcome of a condition in a row of a join, if its two sides can be compared.
pub open spec fn outcome(
    tables: Seq<TableView>,
    sources: Seq<usize>,
    combo: Seq<usize>,
    lhs: (usize, usize),
    op: Op,
    rhs: Operand,
) -> Option<bool> {
    value_at(tables, sources, combo, lhs).compare(
        op,
        operand_value(tables, sources, combo, rhs),
    )
}

/// The test of whether a row of a join meets a condition.
pub open spec fn meets(
    tables: Seq<TableView>,
    sources: Seq<usize>,
    lhs: (usize, usize),
    op: Op,
    rhs: Operand,
) -> spec_fn(Seq<usize>) -> bool {
    |combo: Seq<usize>| outcome(tables, sources, combo, lhs, op, rhs) == Some(true)
}

/// The rows of a join which meet a condition, in their order.
///
/// The condition must have an outcome in every row.
pub open spec fn kept(
    tables: Seq<TableView>,
    sources: Seq<usize>,
    combos: Seq<Seq<usize>>,
    lhs: (usize, usize),
    op: Op,
    rhs: Operand,
) -> Result<Seq<Seq<usize>>, Error> {
    if exists|i: int|
        0 <= i < combos.len() && outcome(tables, sources, #[trigger] combos[i], lhs, op, rhs) is None {
        Err(Error::TypeMismatch { op })
    } else {
        Ok(combos.filter(meets(tables, sources, lhs, op, rhs)))
    }
}

/// Every row of a join paired with every one of `n` rows of another source: the rows of the
/// join in their order, each with the rows of the other source in their order.
pub open spec fn pairs(combos: Seq<Seq<usize>>, n: usize) -> Seq<Seq<usize>>
    decreases combos.len(),
{
    if combos.len() == 0 {
        Seq::empty()
    } else {
        pairs(combos.drop_last(), n) + Seq::new(n as nat, |k: int| combos.last().push(k as usize))
    }
}

/// The rows of the table that a query selects from, as rows of a join with a single source.
pub open spec fn base_rows(n: usize) -> Seq<Seq<usize>> {
    Seq::new(n as nat, |i: int| seq![i as usize])
}

/// The join of a row of a join with a table, under a `JOIN` clause.
pub open spec fn join_step(
    tables: Seq<TableView>,
    sources: Seq<usize>,
    combos: Seq<Seq<usize>>,
    join: super::JoinClause,
) -> Result<(Seq<usize>, Seq<Seq<usize>>), Error> {
    match lookup(tables, join.table@) {
        None => Err(Error::NoSuchTable { table: join.table }),
        Some(t) => {
            let sources = sources.push(t as usize);
            match resolved(tables, sources, join.lhs) {
                None => Err(Error::NoSuchColumn { column: join.lhs.name }),
                Some(lhs) => match resolved(tables, sources, join.rhs) {
                    None => Err(Error::NoSuchColumn { column: join.rhs.name }),
                    Some(rhs) => match kept(
                        tables,
                        sources,
                        pairs(combos, tables[t].rows.len() as usize),
                        lhs,
                        join.op,
                        Operand::Column(rhs.0, rhs.1),
                    ) {
                        Err(e) => Err(e),
                        Ok(combos) => Ok((sources, combos)),
                    },
                },
            }
        },
    }
}

/// The sources of a query and the rows of their join: the rows of the table that the query
/// selects from, joined with a table under each `JOIN` clause in turn.
pub open spec fn joined(tables: Seq<TableView>, base: String, clauses: Seq<Clause>) -> Result<
    (Seq<usize>, Seq<Seq<usize>>),
    Error,
>
    decreases clauses.len(),
{
    if clauses.len() == 0 {
        match lookup(tables, base@) {
            None => Err(Error::NoSuchTable { table: base }),
            Some(t) => Ok((seq![t as usize], base_rows(tables[t].rows.len() as usize))),
        }
    } else {
        match joined(tables, base, clauses.drop_last()) {
            Err(e) => Err(e),
            Ok((sources, combos)) => match clauses.last() {
                Clause::Where(_) => Ok((sources, combos)),
                Clause::Join(join) => join_step(tables, sources, combos, join),
            },
        }
    }
}

/// The rows of a join which meet a `WHERE` clause.
pub open spec fn filter_step(
    tables: Seq<TableView>,
    sources: Seq<usize>,
    combos: Seq<Seq<usize>>,
    clause: super::WhereClause,
) -> Result<Seq<Seq<usize>>, Error> {
    match resolved(tables, sources, clause.column) {
        None => Err(Error::NoSuchColumn { column: clause.column.name }),
        Some(lhs) => kept(tables, sources, combos, lhs, clause.op, Operand::Param(clause.param)),
    }
}

/// The rows of a join which meet every `WHERE` clause, applied in turn.
pub open spec fn filtered(
    tables: Seq<TableView>,
    sources: Seq<usize>,
    combos: Seq<Seq<usize>>,
    clauses: Seq<Clause>,
) -> Result<Seq<Seq<usize>>, Error>
    decreases clauses.len(),
{
    if clauses.len() == 0 {
        Ok(combos)
    } else {
        match filtered(tables, sources, combos, clauses.drop_last()) {
            Err(e) => Err(e),
            Ok(combos) => match clauses.last() {
                Clause::Join(_) => Ok(combos),
                Clause::Where(clause) => filter_step(tables, sources, combos, clause),
            },
        }
    }
}

/// The places of all columns of the first `count` sources, source by source.
pub open spec fn all_columns(tables: Seq<TableView>, sources: Seq<usize>, count: int) -> Seq<
    (usize, usize),
>
    decreases count,
{
    if count <= 0 {
        Seq::empty()
    } else {
        all_columns(tables, sources, count - 1) + Seq::new(
            tables[sources[count - 1] as int].schema().len(),
            |c: int| ((count - 1) as usize, c as usize),
        )
    }
}

/// The places of the columns that a query selects.
pub open spec fn places(tables: Seq<TableView>, sources: Seq<usize>, columns: Seq<SelectColumn>) -> Result<
    Seq<(usize, usize)>,
    Error,
>
    decreases columns.len(),
{
    if columns.len() == 0 {
        Ok(Seq::empty())
    } else {
        match places(tables, sources, columns.drop_last()) {
            Err(e) => Err(e),
            Ok(found) => match columns.last() {
                SelectColumn::All => Ok(found + all_columns(tables, sources, sources.len() as int)),
                SelectColumn::Column(column) => match resolved(tables, sources, column) {
                    None => Err(Error::NoSuchColumn { column: column.name }),
                    Some(at) => Ok(found.push(at)),
                },
            },
        }
    }
}

/// The values of the selected columns in a row of a join.
pub open spec fn projected(
    tables: Seq<TableView>,
    sources: Seq<usize>,
    combo: Seq<usize>,
    found: Seq<(usize, usize)>,
) -> Seq<Value> {
    Seq::new(found.len(), |i: int| value_at(tables, sources, combo, found[i]))
}

/// The rows that a query returns: the rows of the join of its sources which meet its `WHERE`
/// clauses, in their order, each with the values of the selected columns.
pub open spec fn selected(
    tables: Seq<TableView>,
    columns: Seq<SelectColumn>,
    table: String,
    clauses: Seq<Clause>,
) -> Result<Seq<Seq<Value>>, Error> {
    match joined(tables, table, clauses) {
        Err(e) => Err(e),
        Ok((sources, combos)) => match filtered(tables, sources, combos, clauses) {
            Err(e) => Err(e),
            Ok(combos) => match places(tables, sources, columns) {
                Err(e) => Err(e),
                Ok(found) => Ok(
                    Seq::new(combos.len(), |i: int| projected(tables, sources, combos[i], found)),
                ),
            },
        },
    }
}

impl Connection {
    /// The names of the sources of a query.
    fn source_names(&self, sources: &Vec<usize>) -> (r: Vec<String>)
        requires
            valid_sources(self@, sources@),
        ensures
            r@ == source_names(self@, sources@),
    {
        let mut out: Vec<String> = Vec::new();
        let mut i: usize = 0;
        while i < sources.len()
            invariant
                i <= sources.len(),
                valid_sources(self@, sources@),
                out@.len() == i,
                forall|k: int| 0 <= k < i ==> (#[trigger] out@[k]) == self@[sources@[k] as int].name,
            decreases sources.len() - i,
        {
            out.push(self.tables[sources[i]].name.clone());
            i += 1;
        }
        proof {
            assert(out@ =~= source_names(self@, sources@));
        }
        out
    }

    /// Find the place of a column of a query.
    fn resolve(&self, sources: &Vec<usize>, column: &Column) -> (r: Option<(usize, usize)>)
        requires
            valid_sources(self@, sources@),
        ensures
            r == resolved(self@, sources@, *column),
            r matches Some(at) ==> valid_at(self@, sources@, at),
    {
        let source = match &column.table {
            Some(t) => {
                let names = self.source_names(sources);
                proof {
                    lemma_position(names@, t@);
                }
                find(&names, t.as_str())
            },
            None => Some(0),
        };
        match source {
            Some(s) => {
                let names = self.tables[sources[s]].column_names();
                proof {
                    lemma_last_position(names@, column.name@);
                }
                match find_last(&names, column.name.as_str()) {
                    Some(c) => Some((s, c)),
                    None => None,
                }
            },
            None => None,
        }
    }

    /// The value of a column in a row of a join.
    fn value_at(&self, sources: &Vec<usize>, combo: &Vec<usize>, at: (usize, usize)) -> (r: &Value)
        requires
            self.wf(),
            valid_sources(self@, sources@),
            valid_combo(self@, sources@, combo@),
            valid_at(self@, sources@, at),
        ensures
            *r == value_at(self@, sources@, combo@, at),
    {
        proof {
            let t = sources@[at.0 as int] as int;
            assert(self@[t].wf());
            assert(self@[t].rows[combo@[at.0 as int] as int].len() == self@[t].schema().len());
        }
        &self.tables[sources[at.0]].rows[combo[at.0]][at.1]
    }

    /// Keep the rows of a join which meet a condition.
    #[verifier::loop_isolation(false)]
    fn keep(
        &self,
        sources: &Vec<usize>,
        combos: Vec<Vec<usize>>,
        lhs: (usize, usize),
        op: Op,
        rhs: &Operand,
    ) -> (r: Result<Vec<Vec<usize>>, Error>)
        requires
            self.wf(),
            valid_sources(self@, sources@),
            valid_combos(self@, sources@, combinations(combos@)),
            valid_at(self@, sources@, lhs),
            *rhs matches Operand::Column(s, c) ==> valid_at(self@, sources@, (s, c)),
        ensures
            match kept(self@, sources@, combinations(combos@), lhs, op, *rhs) {
                Ok(rows) => r matches Ok(out) && combinations(out@) == rows && valid_combos(
                    self@,
                    sources@,
                    rows,
                ),
                Err(e) => r == Err::<Vec<Vec<usize>>, Error>(e),
            },
    {
        let ghost given = combinations(combos@);
        let ghost test = meets(self@, sources@, lhs, op, *rhs);
        let mut combos = combos;
        let mut out: Vec<Vec<usize>> = Vec::new();
        let mut i: usize = 0;
        while i < combos.len()
            invariant
                i <= combos.len(),
                combos@.len() == given.len(),
                forall|k: int| i <= k < combos.len() ==> (#[trigger] combos@[k])@ == given[k],
                combinations(out@) == given.take(i as int).filter(test),
                forall|k: int|
                    0 <= k < i ==> outcome(self@, sources@, #[trigger] given[k], lhs, op, *rhs) is Some,
                valid_combos(self@, sources@, combinations(out@)),
            decreases combos.len() - i,
        {
            proof {
                assert(valid_combo(self@, sources@, given[i as int]));
            }
            let left = self.value_at(sources, &combos[i], lhs);
            let right = match rhs {
                Operand::Param(v) => v,
                Operand::Column(s, c) => self.value_at(sources, &combos[i], (*s, *c)),
            };
            let ghost before = combinations(out@);
            proof {
                assert(given.take(i + 1) =~= given.take(i as int).push(given[i as int]));
                given.take(i as int).lemma_filter_push(given[i as int], test);
            }
            match left.test(op, right) {
                Err(e) => {
                    return Err(e);
                },
                Ok(true) => {
                    let mut combo: Vec<usize> = Vec::new();
                    std::mem::swap(&mut combo, &mut combos[i]);
                    out.push(combo);
                    proof {
                        assert(combinations(out@) =~= before.push(given[i as int]));
                        assert forall|k: int| 0 <= k < combinations(out@).len() implies valid_combo(
                            self@,
                            sources@,
                            #[trigger] combinations(out@)[k],
                        ) by {
                            if k < before.len() {
                                assert(combinations(out@)[k] == before[k]);
                            }
                        }
                    }
                },
                Ok(false) => {},
            }
            i += 1;
        }
        proof {
            assert(given.take(given.len() as int) =~= given);
        }
        Ok(out)
    }

    /// Pair every row of a join with every one of `n` rows of another source.
    #[verifier::loop_isolation(false)]
    fn pairs(combos: &Vec<Vec<usize>>, n: usize) -> (r: Vec<Vec<usize>>)
        ensures
            combinations(r@) == pairs(combinations(combos@), n),
    {
        let ghost given = combinations(combos@);
        let mut out: Vec<Vec<usize>> = Vec::new();
        let mut i: usize = 0;
        proof {
            assert(combinations(out@) =~= pairs(given.take(0), n));
        }
        while i < combos.len()
            invariant
                i <= combos.len(),
                combinations(out@) == pairs(given.take(i as int), n),
            decreases combos.len() - i,
        {
            let ghost before = combinations(out@);
            let mut k: usize = 0;
            while k < n
                invariant
                    k <= n,
                    i < combos.len(),
                    combinations(out@) == before + Seq::new(
                        k as nat,
                        |x: int| given[i as int].push(x as usize),
                    ),
                decreases n - k,
            {
                let mut combo: Vec<usize> = Vec::new();
                let mut s: usize = 0;
                while s < combos[i].len()
                    invariant
                        s <= combos@[i as int]@.len(),
                        combo@ == combos@[i as int]@.take(s as int),
                    decreases combos@[i as int]@.len() - s,
                {
                    combo.push(combos[i][s]);
                    proof {
                        assert(combos@[i as int]@.take(s + 1) =~= combos@[i as int]@.take(
                            s as int,
                        ).push(combos@[i as int]@[s as int]));
                    }
                    s += 1;
                }
                proof {
                    assert(combos@[i as int]@.take(combos@[i as int]@.len() as int)
                        =~= combos@[i as int]@);
                }
                combo.push(k);
                let ghost previous = combinations(out@);
                out.push(combo);
                proof {
                    assert(combinations(out@) =~= previous.push(given[i as int].push(k)));
                    assert(combinations(out@) =~= before + Seq::new(
                        (k + 1) as nat,
                        |x: int| given[i as int].push(x as usize),
                    ));
                }
                k += 1;
            }
            proof {
                assert(given.take(i + 1).drop_last() =~= given.take(i as int));
                assert(given.take(i + 1).last() == given[i as int]);
            }
            i += 1;
        }
        proof {
            assert(given.take(given.len() as int) =~= given);
        }
        out
    }
}

/// The rows of a join stay rows of a join when they are paired with the rows of another source.
proof fn lemma_pairs_valid(
    tables: Seq<TableView>,
    sources: Seq<usize>,
    combos: Seq<Seq<usize>>,
    t: usize,
)
    requires
        valid_sources(tables, sources),
        valid_combos(tables, sources, combos),
        t < tables.len(),
        tables[t as int].rows.len() <= usize::MAX,
    ensures
        valid_sources(tables, sources.push(t)),
        valid_combos(
            tables,
            sources.push(t),
            pairs(combos, tables[t as int].rows.len() as usize),
        ),
    decreases combos.len(),
{
    let n = tables[t as int].rows.len() as usize;
    let extended = sources.push(t);
    if combos.len() > 0 {
        assert forall|i: int| 0 <= i < combos.drop_last().len() implies valid_combo(
            tables,
            sources,
            #[trigger] combos.drop_last()[i],
        ) by {
            assert(combos.drop_last()[i] == combos[i]);
        }
        lemma_pairs_valid(tables, sources, combos.drop_last(), t);
        let shorter = pairs(combos.drop_last(), n);
        let all = pairs(combos, n);
        assert(valid_combo(tables, sources, combos.last()));
        assert forall|i: int| 0 <= i < all.len() implies valid_combo(
            tables,
            extended,
            #[trigger] all[i],
        ) by {
            if i < shorter.len() {
                assert(all[i] == shorter[i]);
            } else {
                let k = i - shorter.len();
                assert(all[i] == combos.last().push(k as usize));
            }
        }
    }
}

/// The contents of a list of rows.
pub open spec fn row_contents(rows: Seq<Row>) -> Seq<Seq<Value>> {
    rows.map_values(|r: Row| r@)
}

impl Connection {
    /// Find the sources of a query and join their rows.
    #[verifier::loop_isolation(false)]
    fn join(&self, query: &Select) -> (r: Result<(Vec<usize>, Vec<Vec<usize>>), Error>)
        requires
            self.wf(),
        ensures
            match joined(self@, query.table, query.clauses@) {
                Ok((sources, combos)) => r matches Ok((s, c)) && s@ == sources && combinations(c@)
                    == combos && valid_sources(self@, sources) && valid_combos(
                    self@,
                    sources,
                    combos,
                ),
                Err(e) => r == Err::<(Vec<usize>, Vec<Vec<usize>>), Error>(e),
            },
    {
        let ghost clauses = query.clauses@;
        let base = match self.find_table(query.table.as_str()) {
            Some(t) => t,
            None => {
                proof {
                    lemma_joined_fails(self@, query.table, clauses, 0);
                }
                return Err(Error::NoSuchTable { table: query.table.clone() });
            },
        };
        let mut sources: Vec<usize> = Vec::new();
        sources.push(base);
        let mut combos: Vec<Vec<usize>> = Vec::new();
        let mut row: usize = 0;
        while row < self.tables[base].rows.len()
            invariant
                row <= self.tables@[base as int].rows@.len(),
                combinations(combos@) == base_rows(row),
            decreases self.tables@[base as int].rows@.len() - row,
        {
            let mut combo: Vec<usize> = Vec::new();
            combo.push(row);
            let ghost before = combinations(combos@);
            combos.push(combo);
            proof {
                assert(combo@ =~= seq![row]);
                assert(combinations(combos@) =~= before.push(seq![row]));
                assert(combinations(combos@) =~= base_rows((row + 1) as usize));
            }
            row += 1;
        }
        proof {
            assert(sources@ =~= seq![base]);
            assert(clauses.take(0) =~= Seq::<Clause>::empty());
            assert(self@[base as int].rows.len() == self.tables@[base as int].rows@.len());
        }
        let mut i: usize = 0;
        while i < query.clauses.len()
            invariant
                i <= clauses.len(),
                joined(self@, query.table, clauses.take(i as int)) == Ok::<
                    (Seq<usize>, Seq<Seq<usize>>),
                    Error,
                >((sources@, combinations(combos@))),
                valid_sources(self@, sources@),
                valid_combos(self@, sources@, combinations(combos@)),
            decreases clauses.len() - i,
        {
            proof {
                assert(clauses.take(i + 1).drop_last() =~= clauses.take(i as int));
                assert(clauses.take(i + 1).last() == clauses[i as int]);
            }
            match &query.clauses[i] {
                Clause::Where(_) => {},
                Clause::Join(join) => {
                    let ghost step = join_step(self@, sources@, combinations(combos@), *join);
                    let t = match self.find_table(join.table.as_str()) {
                        Some(t) => t,
                        None => {
                            proof {
                                lemma_joined_fails(self@, query.table, clauses, i + 1);
                            }
                            return Err(Error::NoSuchTable { table: join.table.clone() });
                        },
                    };
                    let count = self.tables[t].rows.len();
                    proof {
                        assert(self@[t as int].rows.len() == count);
                        lemma_pairs_valid(self@, sources@, combinations(combos@), t);
                    }
                    let paired = Self::pairs(&combos, count);
                    sources.push(t);
                    let lhs = match self.resolve(&sources, &join.lhs) {
                        Some(at) => at,
                        None => {
                            proof {
                                lemma_joined_fails(self@, query.table, clauses, i + 1);
                            }
                            return Err(Error::NoSuchColumn { column: join.lhs.name.clone() });
                        },
                    };
                    let rhs = match self.resolve(&sources, &join.rhs) {
                        Some(at) => at,
                        None => {
                            proof {
                                lemma_joined_fails(self@, query.table, clauses, i + 1);
                            }
                            return Err(Error::NoSuchColumn { column: join.rhs.name.clone() });
                        },
                    };
                    combos = match self.keep(
                        &sources,
                        paired,
                        lhs,
                        join.op,
                        &Operand::Column(rhs.0, rhs.1),
                    ) {
                        Ok(kept) => kept,
                        Err(e) => {
                            proof {
                                lemma_joined_fails(self@, query.table, clauses, i + 1);
                            }
                            return Err(e);
                        },
                    };
                },
            }
            i += 1;
        }
        proof {
            assert(clauses.take(clauses.len() as int) =~= clauses);
        }
        Ok((sources, combos))
    }

    /// Keep the rows of a join which meet the `WHERE` clauses of a query.
    #[verifier::loop_isolation(false)]
    fn filter(&self, query: &Select, sources: &Vec<usize>, combos: Vec<Vec<usize>>) -> (r: Result<
        Vec<Vec<usize>>,
        Error,
    >)
        requires
            self.wf(),
            valid_sources(self@, sources@),
            valid_combos(self@, sources@, combinations(combos@)),
        ensures
            match filtered(self@, sources@, combinations(combos@), query.clauses@) {
                Ok(rows) => r matches Ok(out) && combinations(out@) == rows && valid_combos(
                    self@,
                    sources@,
                    rows,
                ),
                Err(e) => r == Err::<Vec<Vec<usize>>, Error>(e),
            },
    {
        let ghost clauses = query.clauses@;
        let ghost given = combinations(combos@);
        let mut combos = combos;
        proof {
            assert(clauses.take(0) =~= Seq::<Clause>::empty());
        }
        let mut i: usize = 0;
        while i < query.clauses.len()
            invariant
                i <= clauses.len(),
                filtered(self@, sources@, given, clauses.take(i as int)) == Ok::<
                    Seq<Seq<usize>>,
                    Error,
                >(combinations(combos@)),
                valid_combos(self@, sources@, combinations(combos@)),
            decreases clauses.len() - i,
        {
            proof {
                assert(clauses.take(i + 1).drop_last() =~= clauses.take(i as int));
                assert(clauses.take(i + 1).last() == clauses[i as int]);
            }
            match &query.clauses[i] {
                Clause::Join(_) => {},
                Clause::Where(clause) => {
                    let lhs = match self.resolve(sources, &clause.column) {
                        Some(at) => at,
                        None => {
                            proof {
                                lemma_filtered_fails(self@, sources@, given, clauses, i + 1);
                            }
                            return Err(Error::NoSuchColumn { column: clause.column.name.clone() });
                        },
                    };
                    combos = match self.keep(
                        sources,
                        combos,
                        lhs,
                        clause.op,
                        &Operand::Param(clause.param.clone()),
                    ) {
                        Ok(kept) => kept,
                        Err(e) => {
                            proof {
                                lemma_filtered_fails(self@, sources@, given, clauses, i + 1);
                            }
                            return Err(e);
                        },
                    };
                },
            }
            i += 1;
        }
        proof {
            assert(clauses.take(clauses.len() as int) =~= clauses);
        }
        Ok(combos)
    }

    /// Find the places of the columns that a query selects.
    #[verifier::loop_isolation(false)]
    fn places(&self, query: &Select, sources: &Vec<usize>) -> (r: Result<Vec<(usize, usize)>, Error>)
        requires
            self.wf(),
            valid_sources(self@, sources@),
        ensures
            match places(self@, sources@, query.columns@) {
                Ok(found) => r matches Ok(out) && out@ == found && forall|i: int|
                    0 <= i < found.len() ==> valid_at(self@, sources@, #[trigger] found[i]),
                Err(e) => r == Err::<Vec<(usize, usize)>, Error>(e),
            },
    {
        let ghost columns = query.columns@;
        let mut found: Vec<(usize, usize)> = Vec::new();
        proof {
            assert(columns.take(0) =~= Seq::<SelectColumn>::empty());
        }
        let mut i: usize = 0;
        while i < query.columns.len()
            invariant
                i <= columns.len(),
                places(self@, sources@, columns.take(i as int)) == Ok::<Seq<(usize, usize)>, Error>(
                    found@,
                ),
                forall|k: int| 0 <= k < found@.len() ==> valid_at(self@, sources@, #[trigger] found@[k]),
            decreases columns.len() - i,
        {
            proof {
                assert(columns.take(i + 1).drop_last() =~= columns.take(i as int));
                assert(columns.take(i + 1).last() == columns[i as int]);
            }
            match &query.columns[i] {
                SelectColumn::Column(column) => {
                    match self.resolve(sources, column) {
                        Some(at) => {
                            found.push(at);
                        },
                        None => {
                            proof {
                                lemma_places_fails(self@, sources@, columns, i + 1);
                            }
                            return Err(Error::NoSuchColumn { column: column.name.clone() });
                        },
                    }
                },
                SelectColumn::All => {
                    let ghost before = found@;
                    let mut s: usize = 0;
                    while s < sources.len()
                        invariant
                            s <= sources.len(),
                            found@ == before + all_columns(self@, sources@, s as int),
                            forall|k: int|
                                0 <= k < found@.len() ==> valid_at(
                                    self@,
                                    sources@,
                                    #[trigger] found@[k],
                                ),
                        decreases sources.len() - s,
                    {
                        let ghost outer = found@;
                        let width = self.tables[sources[s]].schema().len();
                        let mut c: usize = 0;
                        while c < width
                            invariant
                                c <= width,
                                s < sources.len(),
                                width == self@[sources@[s as int] as int].schema().len(),
                                found@ == outer + Seq::new(c as nat, |x: int| (s, x as usize)),
                                forall|k: int|
                                    0 <= k < found@.len() ==> valid_at(
                                        self@,
                                        sources@,
                                        #[trigger] found@[k],
                                    ),
                            decreases width - c,
                        {
                            found.push((s, c));
                            proof {
                                assert(found@ =~= outer + Seq::new(
                                    (c + 1) as nat,
                                    |x: int| (s, x as usize),
                                ));
                            }
                            c += 1;
                        }
                        proof {
                            assert(found@ =~= before + all_columns(self@, sources@, s + 1));
                        }
                        s += 1;
                    }
                },
            }
            i += 1;
        }
        proof {
            assert(columns.take(columns.len() as int) =~= columns);
        }
        Ok(found)
    }

    /// Run a query.
    #[verifier::loop_isolation(false)]
    fn run(&self, query: &Select) -> (r: Result<Vec<Row>, Error>)
        requires
            self.wf(),
        ensures
            match selected(self@, query.columns@, query.table, query.clauses@) {
                Ok(rows) => r matches Ok(out) && row_contents(out@) == rows,
                Err(e) => r == Err::<Vec<Row>, Error>(e),
            },
    {
        let (sources, combos) = match self.join(query) {
            Ok(joined) => joined,
            Err(e) => {
                return Err(e);
            },
        };
        let combos = match self.filter(query, &sources, combos) {
            Ok(combos) => combos,
            Err(e) => {
                return Err(e);
            },
        };
        let found = match self.places(query, &sources) {
            Ok(found) => found,
            Err(e) => {
                return Err(e);
            },
        };
        let mut rows: Vec<Row> = Vec::new();
        let mut i: usize = 0;
        while i < combos.len()
            invariant
                i <= combos.len(),
                rows@.len() == i,
                forall|k: int|
                    0 <= k < i ==> (#[trigger] rows@[k])@ == projected(
                        self@,
                        sources@,
                        combos@[k]@,
                        found@,
                    ),
            decreases combos.len() - i,
        {
            proof {
                assert(valid_combo(self@, sources@, combinations(combos@)[i as int]));
            }
            let mut values: Vec<Value> = Vec::new();
            let mut c: usize = 0;
            while c < found.len()
                invariant
                    c <= found.len(),
                    i < combos.len(),
                    values@.len() == c,
                    forall|k: int|
                        0 <= k < c ==> (#[trigger] values@[k]) == value_at(
                            self@,
                            sources@,
                            combos@[i as int]@,
                            found@[k],
                        ),
                decreases found.len() - c,
            {
                values.push(self.value_at(&sources, &combos[i], found[c]).clone());
                c += 1;
            }
            proof {
                assert(values@ =~= projected(self@, sources@, combos@[i as int]@, found@));
            }
            rows.push(Row::new(values));
            i += 1;
        }
        proof {
            let expected = selected(self@, query.columns@, query.table, query.clauses@)->Ok_0;
            assert(row_contents(rows@) =~= expected);
        }
        Ok(rows)
    }
}

/// The join of the sources of a query fails where it fails under some of the first clauses.
proof fn lemma_joined_fails(tables: Seq<TableView>, base: String, clauses: Seq<Clause>, n: int)
    requires
        0 <= n <= clauses.len(),
        joined(tables, base, clauses.take(n)) is Err,
    ensures
        joined(tables, base, clauses) == joined(tables, base, clauses.take(n)),
    decreases clauses.len() - n,
{
    if n < clauses.len() {
        assert(clauses.take(n + 1).drop_last() =~= clauses.take(n));
        lemma_joined_fails(tables, base, clauses, n + 1);
    } else {
        assert(clauses.take(n) =~= clauses);
    }
}

/// The filter of the rows of a join fails where it fails under some of the first clauses.
proof fn lemma_filtered_fails(
    tables: Seq<TableView>,
    sources: Seq<usize>,
    combos: Seq<Seq<usize>>,
    clauses: Seq<Clause>,
    n: int,
)
    requires
        0 <= n <= clauses.len(),
        filtered(tables, sources, combos, clauses.take(n)) is Err,
    ensures
        filtered(tables, sources, combos, clauses) == filtered(
            tables,
            sources,
            combos,
            clauses.take(n),
        ),
    decreases clauses.len() - n,
{
    if n < clauses.len() {
        assert(clauses.take(n + 1).drop_last() =~= clauses.take(n));
        lemma_filtered_fails(tables, sources, combos, clauses, n + 1);
    } else {
        assert(clauses.take(n) =~= clauses);
    }
}

/// The search for the selected columns fails where it fails for some of the first columns.
proof fn lemma_places_fails(
    tables: Seq<TableView>,
    sources: Seq<usize>,
    columns: Seq<SelectColumn>,
    n: int,
)
    requires
        0 <= n <= columns.len(),
        places(tables, sources, columns.take(n)) is Err,
    ensures
        places(tables, sources, columns) == places(tables, sources, columns.take(n)),
    decreases columns.len() - n,
{
    if n < columns.len() {
        assert(columns.take(n + 1).drop_last() =~= columns.take(n));
        lemma_places_fails(tables, sources, columns, n + 1);
    } else {
        assert(columns.take(n) =~= columns);
    }
}

impl Select {
    /// Run the query and get a stream of results.
    ///
    /// The stream holds one item for each row that the query returns, in the order of the
    /// rows, or a single failure.
    pub fn stream(&self, db: &Connection) -> (r: Vec<Result<Row, Error>>)
        requires
            db.wf(),
        ensures
            match selected(db@, self.columns@, self.table, self.clauses@) {
                Ok(rows) => r@.len() == rows.len() && forall|i: int|
                    0 <= i < rows.len() ==> ((#[trigger] r@[i]) matches Ok(row) && row@ == rows[i]),
                Err(e) => r@ == seq![Err::<Row, Error>(e)],
            },
    {
        let mut out: Vec<Result<Row, Error>> = Vec::new();
        match db.run(self) {
            Err(e) => {
                out.push(Err(e));
                proof {
                    assert(out@ =~= seq![Err::<Row, Error>(e)]);
                }
            },
            Ok(rows) => {
                let ghost given = rows@;
                let mut rows = super::reverse(rows);
                while rows.len() > 0
                    invariant
                        rows.len() <= given.len(),
                        rows@ == given.reverse().take(rows.len() as int),
                        out@.len() == given.len() - rows.len(),
                        forall|i: int|
                            0 <= i < out@.len() ==> (#[trigger] out@[i]) == Ok::<Row, Error>(
                                given[i],
                            ),
                    decreases rows.len(),
                {
                    let ghost before = rows@;
                    let row = rows.pop().unwrap();
                    proof {
                        assert(row == before.last());
                        assert(rows@ =~= given.reverse().take(rows.len() as int));
                    }
                    out.push(Ok(row));
                }
                proof {
                    let expected = selected(db@, self.columns@, self.table, self.clauses@)->Ok_0;
                    assert(row_contents(given) == expected);
                    assert forall|i: int| 0 <= i < expected.len() implies ((#[trigger] out@[i]) matches Ok(
                        row,
                    ) && row@ == expected[i]) by {
                        assert(row_contents(given)[i] == given[i]@);
                    }
                }
            },
        }
        out
    }

    /// Run the query and collect the results.
    ///
    /// # Errors
    ///
    /// This method fails where the query fails: if it names a table or a column which does not
    /// exist, or compares values which cannot be compared.
    pub fn many(&self, db: &Connection) -> (r: Result<Vec<Row>, Error>)
        requires
            db.wf(),
        ensures
            match selected(db@, self.columns@, self.table, self.clauses@) {
                Ok(rows) => r matches Ok(out) && row_contents(out@) == rows,
                Err(e) => r == Err::<Vec<Row>, Error>(e),
            },
    {
        db.run(self)
    }

    /// Run the query, which is expected to return either 0 or 1 rows.
    ///
    /// # Errors
    ///
    /// This method will fail if the query fails or does not return exactly 0 or 1 rows.
    pub fn opt(&self, db: &Connection) -> (r: Result<Option<Row>, Error>)
        requires
            db.wf(),
        ensures
            match selected(db@, self.columns@, self.table, self.clauses@) {
                Ok(rows) => if rows.len() == 0 {
                    r == Ok::<Option<Row>, Error>(None)
                } else if rows.len() == 1 {
                    r matches Ok(Some(row)) && row@ == rows[0]
                } else {
                    r == Err::<Option<Row>, Error>(Error::TooManyRows { expected: 1 })
                },
                Err(e) => r == Err::<Option<Row>, Error>(e),
            },
    {
        super::opt(self.stream(db))
    }

    /// Run the query, which is expected to return a single row.
    ///
    /// # Errors
    ///
    /// This method will fail if the query fails or does not return exactly one row.
    pub fn one(&self, db: &Connection) -> (r: Result<Row, Error>)
        requires
            db.wf(),
        ensures
            match selected(db@, self.columns@, self.table, self.clauses@) {
                Ok(rows) => if rows.len() == 0 {
                    r == Err::<Row, Error>(Error::EmptyRows)
                } else if rows.len() == 1 {
                    r matches Ok(row) && row@ == rows[0]
                } else {
                    r == Err::<Row, Error>(Error::TooManyRows { expected: 1 })
                },
                Err(e) => r == Err::<Row, Error>(e),
            },
    {
        super::one(self.stream(db))
    }
}

/// Where rows can be inserted into the columns `columns` of a table, the explicit columns of
/// the table have pairwise different names, and each is named by `columns` exactly once.
pub proof fn lemma_insert_columns(table: TableView, columns: Seq<String>, rows: Seq<Seq<Value>>)
    requires
        table.insert_rejection(columns, rows) is None,
    ensures
        columns.len() == table.explicit_cols.len(),
        distinct(columns),
        distinct(names(table.explicit_cols)),
        forall|i: int|
            0 <= i < columns.len() ==> (position(names(table.explicit_cols), #[trigger] columns[i]@) matches Some(
                t,
            ) && 0 <= t < columns.len() && position(columns, table.explicit_cols[t].name@) == Some(
                i,
            )),
        forall|t: int|
            0 <= t < table.explicit_cols.len() ==> (position(
                columns,
                (#[trigger] table.explicit_cols[t]).name@,
            ) matches Some(i) && 0 <= i < columns.len() && position(
                names(table.explicit_cols),
                columns[i]@,
            ) == Some(t)),
{
    let explicit = names(table.explicit_cols);
    let targets = Seq::new(columns.len(), |i: int| position(explicit, columns[i]@)->Some_0);
    assert forall|k: int| 0 <= k < columns.len() implies position(explicit, #[trigger] columns[k]@)
        == Some(targets[k]) && 0 <= targets[k] < targets.len() && explicit[targets[k]]@
        == columns[k]@ by {
        lemma_position(explicit, columns[k]@);
    }
    assert forall|a: int, b: int| 0 <= a < b < targets.len() implies (#[trigger] targets[a]) != (
    #[trigger] targets[b]) by {
        assert(columns[a]@ != columns[b]@);
        assert(explicit[targets[a]]@ == columns[a]@);
        assert(explicit[targets[b]]@ == columns[b]@);
    }
    assert forall|t: int| 0 <= t < table.explicit_cols.len() implies (position(
        columns,
        (#[trigger] table.explicit_cols[t]).name@,
    ) matches Some(i) && 0 <= i < columns.len() && position(explicit, columns[i]@) == Some(t)) by {
        crate::array::lemma_injective_onto(targets, t);
        let a = choose|a: int| 0 <= a < targets.len() && targets[a] == t;
        assert(explicit[t] == table.explicit_cols[t].name);
        assert(explicit[targets[a]]@ == columns[a]@);
        lemma_position(columns, explicit[t]@);
        let b = position(columns, explicit[t]@)->Some_0;
        if b != a {
            assert(columns[b]@ != columns[a]@);
        }
    }
    assert forall|a: int, b: int| 0 <= a < b < explicit.len() implies (#[trigger] explicit[a])@ != (
    #[trigger] explicit[b])@ by {
        assert(explicit[a] == table.explicit_cols[a].name);
        assert(explicit[b] == table.explicit_cols[b].name);
        let i = position(columns, table.explicit_cols[a].name@)->Some_0;
        let j = position(columns, table.explicit_cols[b].name@)->Some_0;
        assert(position(explicit, columns[i]@) == Some(a));
        assert(position(explicit, columns[j]@) == Some(b));
        lemma_position(columns, explicit[a]@);
        lemma_position(columns, explicit[b]@);
    }
    assert forall|i: int| 0 <= i < columns.len() implies (position(
        explicit,
        #[trigger] columns[i]@,
    ) matches Some(t) && 0 <= t < columns.len() && position(columns, table.explicit_cols[t].name@)
        == Some(i)) by {
        let t = targets[i];
        assert(explicit[t] == table.explicit_cols[t].name);
        lemma_position(columns, explicit[t]@);
        let k = position(columns, explicit[t]@)->Some_0;
        if k != i {
            if k < i {
                assert(columns[k]@ != columns[i]@);
            } else {
                assert(columns[i]@ != columns[k]@);
            }
        }
    }
}

/// Inserting rows stores each value under the name of its column, whatever the order in which
/// the statement names the columns: in the row that is stored for the row at position `j`, the
/// value under the name of the column at position `i` of `columns` is the value at position `i`
/// of that row.
pub proof fn lemma_insert_stores_values_under_columns(
    table: TableView,
    columns: Seq<String>,
    rows: Seq<Seq<Value>>,
    j: int,
    i: int,
)
    requires
        table.insert(columns, rows) is Ok,
        0 <= j < rows.len(),
        0 <= i < columns.len(),
    ensures
        table.insert(columns, rows)->Ok_0.value(table.rows.len() + j, columns[i]@) == Some(
            rows[j][i],
        ),
{
    lemma_insert_columns(table, columns, rows);
    let after = table.insert(columns, rows)->Ok_0;
    let explicit = names(table.explicit_cols);
    let all = names(after.schema());
    let t = position(explicit, columns[i]@)->Some_0;
    lemma_position(explicit, columns[i]@);
    lemma_last_position(all, columns[i]@);
    let at = table.serial_cols.len() + t;
    assert(all[at] == explicit[t]);
    let found = last_position(all, columns[i]@)->Some_0;
    if found != at {
        let other = found - table.serial_cols.len();
        assert(all[found] == explicit[other]);
        if other < t {
            assert(explicit[other]@ != explicit[t]@);
        } else {
            assert(explicit[t]@ != explicit[other]@);
        }
    }
    let arranged = rows.map_values(|row: Seq<Value>| table.arranged(columns, row));
    assert(after.rows[table.rows.len() + j] == table.stored(arranged[j], table.rows.len() + j));
    assert(explicit[t] == table.explicit_cols[t].name);
}

} // verus!
