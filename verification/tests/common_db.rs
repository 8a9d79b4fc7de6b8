use model::array::{check_permutation, permute};
use model::sql::db::{
    escape_ident, many, one, opt, reverse, AlterTable, Clause, Column, ConstraintKind,
    CreateTable, Error, Insert, JoinClause, Op, Row, SchemaColumn, Select, SelectColumn, Type,
    Value, WhereClause,
};
use model::text::{concat2, concat3, find, find_last, to_decimal};

fn row(values: Vec<Value>) -> Row {
    Row::new(values)
}

#[test]
fn escape_ident_wraps_in_quotes() {
    assert_eq!(escape_ident("users"), "\"users\"");
    assert_eq!(escape_ident(""), "\"\"");
}

#[test]
fn escape_ident_doubles_quotes() {
    assert_eq!(escape_ident("a\"b"), "\"a\"\"b\"");
    assert_eq!(escape_ident("\""), "\"\"\"\"");
}

#[test]
fn escape_ident_keeps_other_characters() {
    assert_eq!(escape_ident("a b;--é"), "\"a b;--é\"");
}

#[test]
fn column_named_has_no_table() {
    let c = Column::named("c".to_string());
    assert_eq!(c.table, None);
    assert_eq!(c.name, "c");
    assert_eq!(c.escape(), "\"c\"");
    assert_eq!(c.to_string(), "c");
}

#[test]
fn column_qualified_escapes_both_parts() {
    let c = Column::qualified("t\"x".to_string(), "c".to_string());
    assert_eq!(c.table, Some("t\"x".to_string()));
    assert_eq!(c.escape(), "\"t\"\"x\".\"c\"");
    assert_eq!(c.to_string(), "t\"x.c");
}

#[test]
fn select_column_to_string() {
    assert_eq!(SelectColumn::All.to_string(), "*");
    assert_eq!(
        SelectColumn::Column(Column::qualified("t".to_string(), "c".to_string())).to_string(),
        "t.c"
    );
}

#[test]
fn schema_column_accessors() {
    let c = SchemaColumn::new("id".to_string(), Type::Serial);
    assert_eq!(c.name(), "id");
    assert_eq!(c.ty(), Type::Serial);
    assert_eq!(c.to_string(), "id serial");
    assert_eq!(c.clone(), c);
}

#[test]
fn type_names() {
    assert_eq!(Type::Text.to_string(), "text");
    assert_eq!(Type::Int4.to_string(), "int4");
    assert_eq!(Type::Int8.to_string(), "int8");
    assert_eq!(Type::UInt4.to_string(), "uint4");
    assert_eq!(Type::UInt8.to_string(), "uint8");
    assert_eq!(Type::Serial.to_string(), "serial");
}

#[test]
fn operator_symbols() {
    assert_eq!(Op::Eq.to_string(), "=");
    assert_eq!(Op::Ne.to_string(), "!=");
    assert_eq!(Op::Ge.to_string(), ">=");
    assert_eq!(Op::Gt.to_string(), ">");
    assert_eq!(Op::Le.to_string(), "<=");
    assert_eq!(Op::Lt.to_string(), "<");
}

#[test]
fn value_types() {
    assert_eq!(Value::Text("x".to_string()).ty(), Type::Text);
    assert_eq!(Value::Int4(1).ty(), Type::Int4);
    assert_eq!(Value::Int8(1).ty(), Type::Int8);
    assert_eq!(Value::UInt4(1).ty(), Type::UInt4);
    assert_eq!(Value::UInt8(1).ty(), Type::UInt8);
    assert_eq!(Value::Serial(1).ty(), Type::Serial);
}

#[test]
fn value_is_same_compares_type_and_content() {
    assert!(Value::Text("a".to_string()).is_same(&Value::Text("a".to_string())));
    assert!(!Value::Text("a".to_string()).is_same(&Value::Text("b".to_string())));
    assert!(Value::Int4(3).is_same(&Value::Int4(3)));
    assert!(!Value::Int4(3).is_same(&Value::Int8(3)));
    assert!(!Value::UInt4(3).is_same(&Value::Serial(3)));
}

#[test]
fn value_test_equality_between_any_values() {
    assert_eq!(Value::Int4(1).test(Op::Eq, &Value::Int4(1)), Ok(true));
    assert_eq!(Value::Int4(1).test(Op::Eq, &Value::Text("1".to_string())), Ok(false));
    assert_eq!(Value::Int4(1).test(Op::Ne, &Value::Text("1".to_string())), Ok(true));
    assert_eq!(
        Value::Text("baz".to_string()).test(Op::Ne, &Value::Text("baz".to_string())),
        Ok(false)
    );
}

#[test]
fn value_test_orders_integers_of_one_type() {
    assert_eq!(Value::Int4(-1).test(Op::Lt, &Value::Int4(0)), Ok(true));
    assert_eq!(Value::Int4(0).test(Op::Lt, &Value::Int4(0)), Ok(false));
    assert_eq!(Value::Int8(5).test(Op::Ge, &Value::Int8(5)), Ok(true));
    assert_eq!(Value::UInt4(5).test(Op::Gt, &Value::UInt4(5)), Ok(false));
    assert_eq!(Value::UInt8(4).test(Op::Le, &Value::UInt8(5)), Ok(true));
}

#[test]
fn value_test_rejects_ordering_of_other_values() {
    assert_eq!(
        Value::Int4(1).test(Op::Lt, &Value::Int8(2)),
        Err(Error::TypeMismatch { op: Op::Lt })
    );
    assert_eq!(
        Value::Text("a".to_string()).test(Op::Ge, &Value::Text("b".to_string())),
        Err(Error::TypeMismatch { op: Op::Ge })
    );
    assert_eq!(
        Value::Serial(1).test(Op::Gt, &Value::Serial(2)),
        Err(Error::TypeMismatch { op: Op::Gt })
    );
}

#[test]
fn row_column_by_index() {
    let r = row(vec![Value::Int4(7), Value::Text("x".to_string())]);
    assert_eq!(r.column(0), Ok(Value::Int4(7)));
    assert_eq!(r.column(1), Ok(Value::Text("x".to_string())));
    assert_eq!(r.column(2), Err(Error::NoSuchIndex { index: 2 }));
}

#[test]
fn one_on_no_rows_is_empty_rows() {
    assert_eq!(one(vec![]), Err(Error::EmptyRows));
}

#[test]
fn one_on_one_row_is_that_row() {
    assert_eq!(one(vec![Ok(row(vec![Value::Int4(1)]))]), Ok(row(vec![Value::Int4(1)])));
}

#[test]
fn one_on_two_rows_is_too_many_rows() {
    let stream = vec![Ok(row(vec![Value::Int4(1)])), Ok(row(vec![Value::Int4(2)]))];
    assert_eq!(one(stream), Err(Error::TooManyRows { expected: 1 }));
}

#[test]
fn opt_on_no_rows_is_none() {
    assert_eq!(opt(vec![]), Ok(None));
}

#[test]
fn opt_on_one_row_is_some() {
    assert_eq!(opt(vec![Ok(row(vec![Value::Int4(1)]))]), Ok(Some(row(vec![Value::Int4(1)]))));
}

#[test]
fn opt_on_three_rows_is_too_many_rows() {
    let stream = vec![Ok(row(vec![])), Ok(row(vec![])), Ok(row(vec![]))];
    assert_eq!(opt(stream), Err(Error::TooManyRows { expected: 1 }));
}

#[test]
fn opt_passes_on_the_failure_of_its_only_item() {
    assert_eq!(opt(vec![Err(Error::EmptyRows)]), Err(Error::EmptyRows));
}

#[test]
fn many_always_succeeds_on_rows() {
    assert_eq!(many(vec![]), Ok(vec![]));
    let stream = vec![Ok(row(vec![Value::Int4(1)])), Ok(row(vec![Value::Int4(2)]))];
    assert_eq!(many(stream), Ok(vec![row(vec![Value::Int4(1)]), row(vec![Value::Int4(2)])]));
}

#[test]
fn many_fails_with_the_first_failure() {
    let stream = vec![
        Ok(row(vec![])),
        Err(Error::NoSuchTable { table: "a".to_string() }),
        Err(Error::NoSuchTable { table: "b".to_string() }),
    ];
    assert_eq!(many(stream), Err(Error::NoSuchTable { table: "a".to_string() }));
}

#[test]
fn reverse_reverses() {
    assert_eq!(reverse(vec![1, 2, 3]), vec![3, 2, 1]);
    assert_eq!(reverse(Vec::<u8>::new()), Vec::<u8>::new());
}

#[test]
fn error_constructors() {
    assert_eq!(Error::custom("x".to_string()), Error::Custom { message: "x".to_string() });
    assert_eq!(Error::too_many_rows(1), Error::TooManyRows { expected: 1 });
    assert_eq!(Error::empty_rows(), Error::EmptyRows);
}

#[test]
fn error_messages() {
    assert_eq!(Error::custom("boom".to_string()).to_string(), "boom");
    assert_eq!(
        Error::too_many_rows(1).to_string(),
        "query result has more rows than the expected 1"
    );
    assert_eq!(Error::empty_rows().to_string(), "query result is empty");
    assert_eq!(Error::NoSuchTable { table: "t".to_string() }.to_string(), "no such table t");
    assert_eq!(Error::NoSuchColumn { column: "c".to_string() }.to_string(), "no such column c");
    assert_eq!(Error::NoSuchIndex { index: 12 }.to_string(), "no such column 12");
    assert_eq!(
        Error::TableHasNoColumn { table: "t".to_string(), column: "c".to_string() }.to_string(),
        "table t has no column c"
    );
    assert_eq!(
        Error::DuplicateColumn { table: "t".to_string() }.to_string(),
        "table t is given more than one value for a column"
    );
    assert_eq!(
        Error::IncorrectWidth { table: "t".to_string(), found: 2, expected: 3 }.to_string(),
        "incorrect width for table t (found 2, expected 3)"
    );
    assert_eq!(Error::TypeMismatch { op: Op::Lt }.to_string(), "type mismatch for op <");
    assert_eq!(
        Error::OutOfRange { table: "t".to_string() }.to_string(),
        "serial number out of range for table t"
    );
}

#[test]
fn select_builder_collects_clauses_in_order() {
    let w = WhereClause {
        column: Column::named("a".to_string()),
        op: Op::Eq,
        param: Value::Int4(1),
    };
    let j = JoinClause {
        table: "u".to_string(),
        lhs: Column::named("a".to_string()),
        op: Op::Eq,
        rhs: Column::named("b".to_string()),
    };
    let q = Select::new(vec![SelectColumn::All], "t".to_string())
        .filter(Column::named("a".to_string()), Op::Eq, Value::Int4(1))
        .join(
            "u".to_string(),
            Column::named("a".to_string()),
            Op::Eq,
            Column::named("b".to_string()),
        )
        .clause(Clause::Where(w.clone()))
        .clauses(vec![Clause::Join(j.clone())]);
    assert_eq!(q.table, "t");
    assert_eq!(q.columns, vec![SelectColumn::All]);
    assert_eq!(
        q.clauses,
        vec![
            Clause::Where(w.clone()),
            Clause::Join(j.clone()),
            Clause::Where(w),
            Clause::Join(j)
        ]
    );
}

#[test]
fn insert_builder_collects_rows_in_order() {
    let q = Insert::new("t".to_string(), vec!["a".to_string()])
        .rows(vec![vec![Value::Int4(1)]])
        .rows(vec![vec![Value::Int4(2)], vec![Value::Int4(3)]]);
    assert_eq!(q.table, "t");
    assert_eq!(q.columns, vec!["a".to_string()]);
    assert_eq!(
        q.rows,
        vec![vec![Value::Int4(1)], vec![Value::Int4(2)], vec![Value::Int4(3)]]
    );
}

#[test]
fn create_table_builder_collects_constraints() {
    let q = CreateTable::new("t".to_string(), vec![SchemaColumn::new("a".to_string(), Type::Int4)])
        .constraint(ConstraintKind::PrimaryKey, vec!["a".to_string()])
        .constraints(vec![]);
    assert_eq!(q.constraints.len(), 1);
    assert_eq!(q.constraints[0].kind, ConstraintKind::PrimaryKey);
    assert_eq!(q.constraints[0].columns, vec!["a".to_string()]);
}

#[test]
fn alter_table_builder_collects_constraints() {
    let q = AlterTable::new("t".to_string())
        .add_constraint(ConstraintKind::Unique, vec!["a".to_string()])
        .add_constraint(
            ConstraintKind::ForeignKey { table: "u".to_string() },
            vec!["b".to_string()],
        )
        .add_constraints(vec![]);
    assert_eq!(q.table, "t");
    assert_eq!(q.constraints.len(), 2);
    assert_eq!(q.constraints[1].kind, ConstraintKind::ForeignKey { table: "u".to_string() });
}

#[test]
fn check_permutation_accepts_permutations_only() {
    assert!(check_permutation(&vec![]));
    assert!(check_permutation(&vec![2, 0, 1]));
    assert!(!check_permutation(&vec![0, 0, 1]));
    assert!(!check_permutation(&vec![0, 3, 1]));
}

#[test]
fn permute_moves_each_element_to_its_target() {
    let mut values = vec!["a".to_string(), "b".to_string(), "c".to_string()];
    permute(&mut values, &vec![2, 0, 1]);
    assert_eq!(values, vec!["b".to_string(), "c".to_string(), "a".to_string()]);
    let mut empty: Vec<u8> = vec![];
    permute(&mut empty, &vec![]);
    assert_eq!(empty, Vec::<u8>::new());
}

#[test]
fn to_decimal_formats_numbers() {
    assert_eq!(to_decimal(0), "0");
    assert_eq!(to_decimal(7), "7");
    assert_eq!(to_decimal(10), "10");
    assert_eq!(to_decimal(1234567890), "1234567890");
    assert_eq!(to_decimal(u64::MAX), "18446744073709551615");
}

#[test]
fn concat_joins_strings() {
    assert_eq!(concat2("ab", "cd"), "abcd");
    assert_eq!(concat3("a", "", "c"), "ac");
}

#[test]
fn find_gives_first_and_last_positions() {
    let names = vec!["a".to_string(), "b".to_string(), "a".to_string()];
    assert_eq!(find(&names, "a"), Some(0));
    assert_eq!(find_last(&names, "a"), Some(2));
    assert_eq!(find(&names, "b"), Some(1));
    assert_eq!(find(&names, "c"), None);
    assert_eq!(find_last(&names, "ab"), None);
}
