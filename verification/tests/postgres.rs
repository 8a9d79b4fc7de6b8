use model::sql::db::postgres::{bind, OutOfRange, Param};
use model::sql::db::{
    AlterTable, Column, ConstraintKind, CreateTable, Insert, Op, SchemaColumn, Select,
    SelectColumn, Type, Value,
};

fn column(table: &str, name: &str) -> Column {
    Column::qualified(table.to_string(), name.to_string())
}

#[test]
fn select_without_clauses() {
    let q = Select::new(vec![SelectColumn::All], "t".to_string());
    assert_eq!(q.to_sql(), ("SELECT * FROM t ".to_string(), vec![]));
    let q = Select::new(vec![], "t".to_string());
    assert_eq!(q.to_sql().0, "SELECT  FROM t ");
}

#[test]
fn select_numbers_its_parameters() {
    let q = Select::new(
        vec![SelectColumn::Column(column("t", "a")), SelectColumn::Column(column("t", "b"))],
        "t".to_string(),
    )
    .filter(column("t", "a"), Op::Eq, Value::Int4(1))
    .filter(Column::named("b".to_string()), Op::Ne, Value::Text("baz".to_string()));
    assert_eq!(
        q.to_sql(),
        (
            "SELECT t.a, t.b FROM t WHERE t.a = $1 AND b != $2".to_string(),
            vec![Value::Int4(1), Value::Text("baz".to_string())]
        )
    );
}

#[test]
fn select_renders_joins_before_conditions() {
    let q = Select::new(vec![SelectColumn::Column(column("nodes", "id"))], "nodes".to_string())
        .filter(column("lefts", "field"), Op::Ge, Value::Int8(0))
        .join("lefts".to_string(), column("nodes", "left"), Op::Eq, column("lefts", "id"));
    assert_eq!(
        q.to_sql(),
        (
            "SELECT nodes.id FROM nodes JOIN lefts ON nodes.left = lefts.id WHERE lefts.field >= $1"
                .to_string(),
            vec![Value::Int8(0)]
        )
    );
}

#[test]
fn select_never_writes_a_value_into_the_text() {
    let injection = "'; DROP TABLE t; --";
    let with = |value: &str| {
        Select::new(vec![SelectColumn::All], "t".to_string())
            .filter(Column::named("a".to_string()), Op::Eq, Value::Text(value.to_string()))
            .to_sql()
    };
    assert_eq!(with(injection).0, with("harmless").0);
    assert_eq!(with(injection).1, vec![Value::Text(injection.to_string())]);
    assert!(!with(injection).0.contains("DROP"));
}

#[test]
fn insert_numbers_its_parameters_through_all_rows() {
    let q = Insert::new("t".to_string(), vec!["a".to_string(), "b".to_string()]).rows(vec![
        vec![Value::Int4(1), Value::Text("x".to_string())],
        vec![Value::Int4(2), Value::Text("y".to_string())],
    ]);
    assert_eq!(
        q.to_sql(),
        Some((
            "INSERT INTO t (a,b) VALUES ($1,$2),($3,$4)".to_string(),
            vec![
                Value::Int4(1),
                Value::Text("x".to_string()),
                Value::Int4(2),
                Value::Text("y".to_string())
            ]
        ))
    );
}

#[test]
fn insert_with_many_parameters() {
    let rows = (0..12).map(|i| vec![Value::Int4(i)]).collect::<Vec<_>>();
    let (text, params) = Insert::new("t".to_string(), vec!["a".to_string()]).rows(rows).to_sql().unwrap();
    assert!(text.ends_with("($9),($10),($11),($12)"));
    assert_eq!(params.len(), 12);
}

#[test]
fn insert_without_rows() {
    let q = Insert::new("t".to_string(), vec!["a".to_string()]);
    assert_eq!(q.to_sql(), Some(("INSERT INTO t (a) VALUES ".to_string(), vec![])));
}

#[test]
fn insert_of_uneven_rows_is_not_rendered() {
    let q = Insert::new("t".to_string(), vec!["a".to_string()])
        .rows(vec![vec![Value::Int4(1)], vec![]]);
    assert_eq!(q.to_sql(), None);
}

#[test]
fn create_table_declares_columns_and_constraints() {
    let q = CreateTable::new(
        "test_resources".to_string(),
        vec![
            SchemaColumn::new("id".to_string(), Type::Serial),
            SchemaColumn::new("a".to_string(), Type::Int4),
            SchemaColumn::new("b".to_string(), Type::Int8),
            SchemaColumn::new("c".to_string(), Type::UInt4),
            SchemaColumn::new("d".to_string(), Type::UInt8),
            SchemaColumn::new("e".to_string(), Type::Text),
        ],
    );
    assert_eq!(
        q.to_sql(),
        "CREATE TABLE IF NOT EXISTS test_resources (id serial,a int4,b int8,c int8,d int8,e text)"
    );
    let q = CreateTable::new("t".to_string(), vec![SchemaColumn::new("a".to_string(), Type::Int4)])
        .constraint(ConstraintKind::PrimaryKey, vec!["a".to_string()])
        .constraint(ConstraintKind::Unique, vec!["a".to_string(), "b".to_string()])
        .constraint(ConstraintKind::ForeignKey { table: "u".to_string() }, vec!["a".to_string()]);
    assert_eq!(
        q.to_sql(),
        "CREATE TABLE IF NOT EXISTS t (a int4,PRIMARY KEY (a),UNIQUE (a,b),FOREIGN KEY (a) \
         REFERENCES u)"
    );
}

#[test]
fn alter_table_adds_constraints() {
    let q = AlterTable::new("t".to_string())
        .add_constraint(ConstraintKind::Unique, vec!["a".to_string()])
        .add_constraint(ConstraintKind::ForeignKey { table: "u".to_string() }, vec!["b".to_string()]);
    assert_eq!(
        q.to_sql(),
        "ALTER TABLE t ADD UNIQUE (a),ADD FOREIGN KEY (b) REFERENCES u"
    );
}

#[test]
fn bind_converts_values_to_parameters() {
    assert_eq!(bind(Value::Text("x".to_string())), Ok(Param::Text("x".to_string())));
    assert_eq!(bind(Value::Int4(-1)), Ok(Param::Int4(-1)));
    assert_eq!(bind(Value::Int8(-1)), Ok(Param::Int8(-1)));
    assert_eq!(bind(Value::UInt4(7)), Ok(Param::UInt4(7)));
    assert_eq!(bind(Value::Serial(7)), Ok(Param::UInt4(7)));
    assert_eq!(bind(Value::UInt8(u32::MAX as u64)), Ok(Param::UInt4(u32::MAX)));
    assert_eq!(
        bind(Value::UInt8(u32::MAX as u64 + 1)),
        Err(OutOfRange { value: u32::MAX as u64 + 1 })
    );
}
