use model::sql::db::mock::Connection;
use model::sql::db::{
    AlterTable, Column, ConstraintKind, CreateTable, Error, Insert, Op, Row, SchemaColumn, Select,
    SelectColumn, Type, Value,
};

fn text(s: &str) -> Value {
    Value::Text(s.to_string())
}

fn column(table: &str, name: &str) -> SelectColumn {
    SelectColumn::Column(Column::qualified(table.to_string(), name.to_string()))
}

fn test_resources() -> Connection {
    let mut db = Connection::create();
    db.create_table_with_rows(
        "test_resources".to_string(),
        vec![
            SchemaColumn::new("id".to_string(), Type::Serial),
            SchemaColumn::new("field1".to_string(), Type::Int4),
            SchemaColumn::new("field2".to_string(), Type::Text),
        ],
        vec![
            vec![Value::Int4(0), text("foo")],
            vec![Value::Int4(1), text("bar")],
            vec![Value::Int4(1), text("baz")],
        ],
    )
    .unwrap();
    db
}

fn all_of_test_resources() -> Select {
    Select::new(
        vec![
            column("test_resources", "id"),
            column("test_resources", "field1"),
            column("test_resources", "field2"),
        ],
        "test_resources".to_string(),
    )
}

#[test]
fn create_makes_an_empty_database() {
    let db = Connection::create();
    assert_eq!(db.len(), 0);
    assert_eq!(db.schema(), vec![]);
}

#[test]
fn create_table_puts_serial_columns_first() {
    let mut db = Connection::create();
    db.create_table(
        "t".to_string(),
        vec![
            SchemaColumn::new("a".to_string(), Type::Int4),
            SchemaColumn::new("id".to_string(), Type::Serial),
            SchemaColumn::new("b".to_string(), Type::Text),
        ],
    )
    .unwrap();
    assert_eq!(
        db.table_schema("t"),
        Some(vec![
            SchemaColumn::new("id".to_string(), Type::Serial),
            SchemaColumn::new("a".to_string(), Type::Int4),
            SchemaColumn::new("b".to_string(), Type::Text),
        ])
    );
    assert_eq!(db.table_schema("u"), None);
}

#[test]
fn create_table_is_idempotent() {
    let mut db = test_resources();
    db.create_table("test_resources".to_string(), vec![SchemaColumn::new("x".to_string(), Type::Text)])
        .unwrap();
    assert_eq!(db.len(), 1);
    assert_eq!(db.table_schema("test_resources").unwrap().len(), 3);
    assert_eq!(all_of_test_resources().many(&db).unwrap().len(), 3);
}

#[test]
fn create_table_statement_ignores_constraints() {
    let mut db = Connection::create();
    CreateTable::new("t".to_string(), vec![SchemaColumn::new("a".to_string(), Type::Int4)])
        .constraint(ConstraintKind::Unique, vec!["a".to_string()])
        .execute(&mut db)
        .unwrap();
    Insert::new("t".to_string(), vec!["a".to_string()])
        .rows(vec![vec![Value::Int4(1)], vec![Value::Int4(1)]])
        .execute(&mut db)
        .unwrap();
    let q = Select::new(vec![SelectColumn::All], "t".to_string());
    assert_eq!(q.many(&db).unwrap().len(), 2);
}

#[test]
fn alter_table_leaves_the_database_as_it_is() {
    let mut db = test_resources();
    AlterTable::new("no_such_table".to_string())
        .add_constraint(ConstraintKind::PrimaryKey, vec!["id".to_string()])
        .execute(&mut db)
        .unwrap();
    assert_eq!(db.len(), 1);
}

#[test]
fn schema_lists_tables_in_order_of_creation() {
    let mut db = Connection::create();
    db.create_table("b".to_string(), vec![]).unwrap();
    db.create_table("a".to_string(), vec![SchemaColumn::new("x".to_string(), Type::Text)])
        .unwrap();
    assert_eq!(
        db.schema(),
        vec![
            ("b".to_string(), vec![]),
            ("a".to_string(), vec![SchemaColumn::new("x".to_string(), Type::Text)]),
        ]
    );
}

#[test]
fn select_returns_rows_in_insertion_order_with_serial_ids() {
    let db = test_resources();
    assert_eq!(
        all_of_test_resources().many(&db).unwrap(),
        vec![
            Row::new(vec![Value::Int4(1), Value::Int4(0), text("foo")]),
            Row::new(vec![Value::Int4(2), Value::Int4(1), text("bar")]),
            Row::new(vec![Value::Int4(3), Value::Int4(1), text("baz")]),
        ]
    );
}

#[test]
fn select_with_where_keeps_matching_rows() {
    let db = test_resources();
    let q = all_of_test_resources().filter(
        Column::qualified("test_resources".to_string(), "field1".to_string()),
        Op::Eq,
        Value::Int4(1),
    );
    assert_eq!(
        q.many(&db).unwrap(),
        vec![
            Row::new(vec![Value::Int4(2), Value::Int4(1), text("bar")]),
            Row::new(vec![Value::Int4(3), Value::Int4(1), text("baz")]),
        ]
    );
}

#[test]
fn select_conjoins_where_clauses() {
    let db = test_resources();
    let q = all_of_test_resources()
        .filter(Column::named("field1".to_string()), Op::Ge, Value::Int4(1))
        .filter(Column::named("field2".to_string()), Op::Ne, text("baz"));
    assert_eq!(q.many(&db).unwrap(), vec![Row::new(vec![Value::Int4(2), Value::Int4(1), text("bar")])]);
}

#[test]
fn select_all_columns() {
    let db = test_resources();
    let q = Select::new(vec![SelectColumn::All], "test_resources".to_string()).filter(
        Column::named("id".to_string()),
        Op::Eq,
        Value::Int4(1),
    );
    assert_eq!(q.many(&db).unwrap(), vec![Row::new(vec![Value::Int4(1), Value::Int4(0), text("foo")])]);
}

#[test]
fn select_from_missing_table_fails() {
    let db = test_resources();
    let q = Select::new(vec![SelectColumn::All], "nope".to_string());
    assert_eq!(q.many(&db), Err(Error::NoSuchTable { table: "nope".to_string() }));
    assert_eq!(q.stream(&db), vec![Err(Error::NoSuchTable { table: "nope".to_string() })]);
}

#[test]
fn select_unknown_column_fails() {
    let db = test_resources();
    let q = Select::new(vec![column("test_resources", "field3")], "test_resources".to_string());
    assert_eq!(q.many(&db), Err(Error::NoSuchColumn { column: "field3".to_string() }));
    let q = all_of_test_resources().filter(Column::named("x".to_string()), Op::Eq, Value::Int4(1));
    assert_eq!(q.many(&db), Err(Error::NoSuchColumn { column: "x".to_string() }));
    let q = Select::new(vec![column("other", "id")], "test_resources".to_string());
    assert_eq!(q.many(&db), Err(Error::NoSuchColumn { column: "id".to_string() }));
}

#[test]
fn select_ordering_of_text_fails() {
    let db = test_resources();
    let q = all_of_test_resources().filter(Column::named("field2".to_string()), Op::Lt, text("z"));
    assert_eq!(q.many(&db), Err(Error::TypeMismatch { op: Op::Lt }));
}

#[test]
fn stream_holds_one_item_for_each_row() {
    let db = test_resources();
    let stream = all_of_test_resources().stream(&db);
    assert_eq!(stream.len(), 3);
    assert_eq!(stream[0], Ok(Row::new(vec![Value::Int4(1), Value::Int4(0), text("foo")])));
}

#[test]
fn one_and_opt_on_queries() {
    let db = test_resources();
    let by_field1 = |v: i32| {
        all_of_test_resources().filter(Column::named("field1".to_string()), Op::Eq, Value::Int4(v))
    };
    assert_eq!(by_field1(7).one(&db), Err(Error::EmptyRows));
    assert_eq!(by_field1(7).opt(&db), Ok(None));
    assert_eq!(by_field1(7).many(&db), Ok(vec![]));
    let foo = Row::new(vec![Value::Int4(1), Value::Int4(0), text("foo")]);
    assert_eq!(by_field1(0).one(&db), Ok(foo.clone()));
    assert_eq!(by_field1(0).opt(&db), Ok(Some(foo)));
    assert_eq!(by_field1(1).one(&db), Err(Error::TooManyRows { expected: 1 }));
    assert_eq!(by_field1(1).opt(&db), Err(Error::TooManyRows { expected: 1 }));
    assert_eq!(by_field1(1).many(&db).unwrap().len(), 2);
}

#[test]
fn insert_in_non_canonical_order_stores_values_under_their_columns() {
    let mut db = test_resources();
    Insert::new("test_resources".to_string(), vec!["field2".to_string(), "field1".to_string()])
        .rows(vec![vec![text("qux"), Value::Int4(9)]])
        .execute(&mut db)
        .unwrap();
    let q = all_of_test_resources().filter(Column::named("id".to_string()), Op::Eq, Value::Int4(4));
    assert_eq!(q.one(&db), Ok(Row::new(vec![Value::Int4(4), Value::Int4(9), text("qux")])));
}

#[test]
fn connection_starts_statements() {
    let mut db = test_resources();
    let insert = db
        .insert("test_resources".to_string(), vec!["field1".to_string(), "field2".to_string()])
        .rows(vec![vec![Value::Int4(4), text("four")]]);
    insert.execute(&mut db).unwrap();
    let rows = db
        .select(vec![column("test_resources", "field2")], "test_resources".to_string())
        .filter(Column::named("field1".to_string()), Op::Eq, Value::Int4(4))
        .many(&db)
        .unwrap();
    assert_eq!(rows, vec![Row::new(vec![text("four")])]);
    let alter = db.alter_table("test_resources".to_string());
    assert_eq!(alter.table, "test_resources");
    alter.execute(&mut db).unwrap();
}

#[test]
fn insert_into_missing_table_fails() {
    let mut db = test_resources();
    let r = Insert::new("nope".to_string(), vec![]).execute(&mut db);
    assert_eq!(r, Err(Error::NoSuchTable { table: "nope".to_string() }));
}

#[test]
fn insert_into_unknown_column_fails() {
    let mut db = test_resources();
    let r = Insert::new("test_resources".to_string(), vec!["field1".to_string(), "x".to_string()])
        .rows(vec![vec![Value::Int4(1), Value::Int4(2)]])
        .execute(&mut db);
    assert_eq!(
        r,
        Err(Error::TableHasNoColumn { table: "test_resources".to_string(), column: "x".to_string() })
    );
    assert_eq!(all_of_test_resources().many(&db).unwrap().len(), 3);
}

#[test]
fn insert_with_too_few_columns_fails() {
    let mut db = test_resources();
    let r = Insert::new("test_resources".to_string(), vec!["field1".to_string()])
        .rows(vec![vec![Value::Int4(1)]])
        .execute(&mut db);
    assert_eq!(
        r,
        Err(Error::IncorrectWidth { table: "test_resources".to_string(), found: 2, expected: 1 })
    );
}

#[test]
fn insert_with_a_column_twice_fails() {
    let mut db = test_resources();
    let r = Insert::new("test_resources".to_string(), vec!["field1".to_string(), "field1".to_string()])
        .rows(vec![vec![Value::Int4(1), Value::Int4(2)]])
        .execute(&mut db);
    assert_eq!(r, Err(Error::DuplicateColumn { table: "test_resources".to_string() }));
}

#[test]
fn insert_with_a_short_row_fails_as_a_whole() {
    let mut db = test_resources();
    let r = Insert::new("test_resources".to_string(), vec!["field1".to_string(), "field2".to_string()])
        .rows(vec![vec![Value::Int4(1), text("ok")], vec![Value::Int4(2)]])
        .execute(&mut db);
    assert_eq!(
        r,
        Err(Error::IncorrectWidth { table: "test_resources".to_string(), found: 2, expected: 1 })
    );
    assert_eq!(all_of_test_resources().many(&db).unwrap().len(), 3);
}

#[test]
fn create_table_with_rows_checks_the_width() {
    let mut db = Connection::create();
    let r = db.create_table_with_rows(
        "t".to_string(),
        vec![SchemaColumn::new("id".to_string(), Type::Serial)],
        vec![vec![Value::Int4(1)]],
    );
    assert_eq!(r, Err(Error::IncorrectWidth { table: "t".to_string(), found: 0, expected: 1 }));
    assert_eq!(db.len(), 1);
}

#[test]
fn join_pairs_rows_which_meet_the_condition() {
    let mut db = Connection::create();
    db.create_table_with_rows(
        "lefts".to_string(),
        vec![
            SchemaColumn::new("id".to_string(), Type::Serial),
            SchemaColumn::new("field".to_string(), Type::Int4),
        ],
        vec![vec![Value::Int4(10)], vec![Value::Int4(20)]],
    )
    .unwrap();
    db.create_table_with_rows(
        "nodes".to_string(),
        vec![
            SchemaColumn::new("id".to_string(), Type::Serial),
            SchemaColumn::new("left".to_string(), Type::Int4),
        ],
        vec![vec![Value::Int4(2)], vec![Value::Int4(1)], vec![Value::Int4(3)]],
    )
    .unwrap();
    let q = Select::new(vec![column("nodes", "id"), column("lefts", "field")], "nodes".to_string())
        .join(
            "lefts".to_string(),
            Column::qualified("nodes".to_string(), "left".to_string()),
            Op::Eq,
            Column::qualified("lefts".to_string(), "id".to_string()),
        );
    assert_eq!(
        q.many(&db).unwrap(),
        vec![
            Row::new(vec![Value::Int4(1), Value::Int4(20)]),
            Row::new(vec![Value::Int4(2), Value::Int4(10)]),
        ]
    );
    let missing = Select::new(vec![SelectColumn::All], "nodes".to_string()).join(
        "rights".to_string(),
        Column::named("left".to_string()),
        Op::Eq,
        Column::qualified("rights".to_string(), "id".to_string()),
    );
    assert_eq!(missing.many(&db), Err(Error::NoSuchTable { table: "rights".to_string() }));
}
