use model::graphql::type_system::{
    Field, Has, Instance, IntCmpOp, IntPredicate, PluralField, PluralPredicate, Predicate, Record,
    Resource, ResourcePredicate, Scalar, ScalarKind, ScalarPredicate, Schema, SchemaError,
    StringCmpOp, StringPredicate, Type, Value,
};
use model::sql::db;
use model::sql::db::mock::Connection;
use model::sql::db::{SchemaColumn, SelectColumn};
use model::sql::ops::select::{ColumnMap, Relation};
use model::sql::ops::{
    column_name, column_name_of_field, insert, lower_scalar_type, register, scalar_to_value,
    select, table_name, value_to_scalar, Error, Feature, Layout,
};

fn field(name: &str, ty: Type) -> Field {
    Field::new(name.to_string(), ty)
}

fn resource(name: &str, plural_name: &str, fields: Vec<Field>) -> Resource {
    Resource {
        name: name.to_string(),
        plural_name: plural_name.to_string(),
        fields,
        plural_fields: vec![],
        id: 0,
        primary: None,
    }
}

fn number(x: i32) -> Instance {
    Instance::Scalar(Scalar::I32(x))
}

fn string(x: &str) -> Instance {
    Instance::Scalar(Scalar::String(x.to_string()))
}

fn int_is(op: IntCmpOp, x: i32) -> Predicate {
    Predicate::Scalar(ScalarPredicate::Int(IntPredicate::cmp(op, Value::Lit(Scalar::I32(x)))))
}

fn string_is(op: StringCmpOp, x: &str) -> Predicate {
    Predicate::Scalar(ScalarPredicate::String(StringPredicate::cmp(
        op,
        Value::Lit(Scalar::String(x.to_string())),
    )))
}

/// A simple test resource with scalar fields.
fn test_resource() -> Resource {
    resource(
        "TestResource",
        "TestResources",
        vec![
            field("id", Type::Scalar(ScalarKind::I32)),
            field("field1", Type::Scalar(ScalarKind::I32)),
            field("field2", Type::Scalar(ScalarKind::String)),
        ],
    )
}

fn test_resource_item(id: i32, field1: i32, field2: &str) -> Record {
    Record { resource: 0, fields: vec![number(id), number(field1), string(field2)] }
}

fn test_resource_layout() -> Layout {
    let mut schema = Schema::new();
    assert_eq!(schema.add(test_resource()), Ok(0));
    Layout::new(schema).unwrap()
}

fn test_resources_table(db: &mut Connection) {
    db.create_table(
        "test_resources".to_string(),
        vec![
            SchemaColumn::new("id".to_string(), db::Type::Serial),
            SchemaColumn::new("field1".to_string(), db::Type::Int4),
            SchemaColumn::new("field2".to_string(), db::Type::Text),
        ],
    )
    .unwrap();
}

fn three_test_resources() -> (Connection, Layout) {
    let layout = test_resource_layout();
    let mut db = Connection::create();
    db.create_table_with_rows(
        "test_resources".to_string(),
        vec![
            SchemaColumn::new("id".to_string(), db::Type::Serial),
            SchemaColumn::new("field1".to_string(), db::Type::Int4),
            SchemaColumn::new("field2".to_string(), db::Type::Text),
        ],
        vec![
            vec![db::Value::Int4(0), db::Value::Text("foo".to_string())],
            vec![db::Value::Int4(1), db::Value::Text("bar".to_string())],
            vec![db::Value::Int4(1), db::Value::Text("baz".to_string())],
        ],
    )
    .unwrap();
    (db, layout)
}

#[test]
fn test_round_trip_no_relations() {
    let layout = test_resource_layout();
    let mut db = Connection::create();
    test_resources_table(&mut db);

    insert::execute(
        &mut db,
        &layout,
        0,
        vec![
            vec![number(0), string("foo")],
            vec![number(1), string("bar")],
            vec![number(1), string("baz")],
        ],
    )
    .unwrap();
    assert_eq!(
        select::execute(&db, &layout, 0, None).unwrap(),
        vec![
            test_resource_item(1, 0, "foo"),
            test_resource_item(2, 1, "bar"),
            test_resource_item(3, 1, "baz"),
        ]
    );
}

#[test]
fn round_trip_continues_the_ids_of_the_rows_in_the_table() {
    let (mut db, layout) = three_test_resources();
    insert::execute(&mut db, &layout, 0, vec![vec![number(5), string("x")], vec![number(6), string("y")]])
        .unwrap();
    let items = select::execute(&db, &layout, 0, None).unwrap();
    assert_eq!(items.len(), 5);
    assert_eq!(items[3], test_resource_item(4, 5, "x"));
    assert_eq!(items[4], test_resource_item(5, 6, "y"));
}

#[test]
fn test_insert_owner() {
    // A resource that owns another resource (a one-one or one-many relationship).
    let mut schema = Schema::new();
    assert_eq!(schema.add(test_resource()), Ok(0));
    assert_eq!(
        schema.add(resource(
            "Owner",
            "Owners",
            vec![field("id", Type::Scalar(ScalarKind::I32)), field("owned", Type::Resource(0))],
        )),
        Ok(1)
    );
    let layout = Layout::new(schema).unwrap();

    let mut db = Connection::create();
    test_resources_table(&mut db);
    db.create_table(
        "owners".to_string(),
        vec![
            SchemaColumn::new("id".to_string(), db::Type::Serial),
            SchemaColumn::new("owned".to_string(), db::Type::Int4),
        ],
    )
    .unwrap();

    // First we have to insert something to own.
    insert::execute(&mut db, &layout, 0, vec![vec![number(0), string("foo")]]).unwrap();

    // Now insert something that owns the first resource.
    insert::execute(&mut db, &layout, 1, vec![vec![number(1)]]).unwrap();

    // Read it back.
    assert_eq!(
        select::execute(&db, &layout, 1, None).unwrap(),
        vec![Record {
            resource: 1,
            fields: vec![number(1), Instance::Resource(test_resource_item(1, 0, "foo"))],
        }]
    );
}

#[test]
fn insert_of_a_nested_resource_is_not_implemented() {
    let mut schema = Schema::new();
    schema.add(test_resource()).unwrap();
    schema
        .add(resource(
            "Owner",
            "Owners",
            vec![field("id", Type::Scalar(ScalarKind::I32)), field("owned", Type::Resource(0))],
        ))
        .unwrap();
    let layout = Layout::new(schema).unwrap();
    let mut db = Connection::create();
    register::execute(&mut db, &layout, 1).unwrap();
    let nested = Instance::Resource(test_resource_item(1, 0, "foo"));
    assert_eq!(
        insert::execute(&mut db, &layout, 1, vec![vec![nested]]),
        Err(Error::Unimplemented { feature: Feature::NestedResources })
    );
    assert_eq!(select::execute(&db, &layout, 1, None), Ok(vec![]));
}

#[test]
fn insert_checks_the_records() {
    let (mut db, layout) = three_test_resources();
    assert_eq!(
        insert::execute(&mut db, &layout, 0, vec![vec![number(0), string("ok")], vec![number(0)]]),
        Err(Error::IncorrectWidth { resource: "TestResource".to_string(), expected: 2, found: 1 })
    );
    assert_eq!(
        insert::execute(&mut db, &layout, 0, vec![vec![string("no"), string("ok")]]),
        Err(Error::TypeMismatch { expected: ScalarKind::I32, got: db::Type::Text })
    );
    assert_eq!(select::execute(&db, &layout, 0, None).unwrap().len(), 3);
}

#[test]
fn insert_passes_on_the_failure_of_the_database() {
    let layout = test_resource_layout();
    let mut db = Connection::create();
    assert_eq!(
        insert::execute(&mut db, &layout, 0, vec![vec![number(0), string("foo")]]),
        Err(Error::Sql { error: db::Error::NoSuchTable { table: "test_resources".to_string() } })
    );
}

#[test]
fn insert_statement_names_the_input_columns() {
    let layout = test_resource_layout();
    let q = insert::statement(&layout, 0, vec![vec![number(7), string("x")]]).unwrap();
    assert_eq!(q.table, "test_resources");
    assert_eq!(q.columns, vec!["field1".to_string(), "field2".to_string()]);
    assert_eq!(q.rows, vec![vec![db::Value::Int4(7), db::Value::Text("x".to_string())]]);
    assert_eq!(
        insert::build_row(&test_resource(), vec![number(7), string("x")]),
        Ok(vec![db::Value::Int4(7), db::Value::Text("x".to_string())])
    );
}

fn simple() -> Resource {
    resource(
        "Simple",
        "Simples",
        vec![
            field("id", Type::Scalar(ScalarKind::I32)),
            field("intField", Type::Scalar(ScalarKind::I32)),
            field("text-field", Type::Scalar(ScalarKind::String)),
        ],
    )
}

fn simples_schema() -> Vec<SchemaColumn> {
    vec![
        SchemaColumn::new("id".to_string(), db::Type::Serial),
        SchemaColumn::new("int_field".to_string(), db::Type::Int4),
        SchemaColumn::new("text_field".to_string(), db::Type::Text),
    ]
}

#[test]
fn test_simple() {
    let mut schema = Schema::new();
    schema.add(simple()).unwrap();
    let layout = Layout::new(schema).unwrap();
    let mut db = Connection::create();
    register::execute(&mut db, &layout, 0).unwrap();
    assert_eq!(db.table_schema("simples"), Some(simples_schema()));
}

#[test]
fn test_one_to_one() {
    let mut schema = Schema::new();
    schema.add(simple()).unwrap();
    schema
        .add(resource(
            "OneToOne",
            "OneToOnes",
            vec![field("id", Type::Scalar(ScalarKind::I32)), field("simple", Type::Resource(0))],
        ))
        .unwrap();
    let layout = Layout::new(schema).unwrap();
    let mut db = Connection::create();
    register::execute(&mut db, &layout, 1).unwrap();

    // Ensure the dependency table `simples` was created.
    assert_eq!(db.table_schema("simples"), Some(simples_schema()));

    // Check the table with the relation, implemented as a foreign key.
    assert_eq!(
        db.table_schema("one_to_ones"),
        Some(vec![
            SchemaColumn::new("id".to_string(), db::Type::Serial),
            SchemaColumn::new("simple".to_string(), db::Type::Int8),
        ])
    );
}

#[test]
fn register_is_idempotent() {
    let mut schema = Schema::new();
    schema.add(simple()).unwrap();
    let layout = Layout::new(schema).unwrap();
    let mut db = Connection::create();
    register::execute(&mut db, &layout, 0).unwrap();
    insert::execute(&mut db, &layout, 0, vec![vec![number(1), string("a")]]).unwrap();
    register::execute(&mut db, &layout, 0).unwrap();
    assert_eq!(db.len(), 1);
    assert_eq!(select::execute(&db, &layout, 0, None).unwrap().len(), 1);
}

/// The schema of a bill tracker: states, districts, parties, legislators, bills and issues.
fn bills_schema() -> Schema {
    let id = || field("id", Type::Scalar(ScalarKind::I32));
    let text = |name: &str| field(name, Type::Scalar(ScalarKind::String));
    let mut schema = Schema::new();
    let mut state = resource("State", "States", vec![id(), text("abbreviation"), text("name")]);
    state.primary = Some(1);
    let state = schema.add(state).unwrap();
    let district = schema
        .add(resource(
            "District",
            "Districts",
            vec![id(), field("state", Type::Resource(state)), text("name"), text("locale")],
        ))
        .unwrap();
    let mut party = resource("Party", "Parties", vec![id(), text("abbreviation"), text("name")]);
    party.primary = Some(1);
    let party = schema.add(party).unwrap();
    let legislator = schema
        .add(resource(
            "Legislator",
            "Legislators",
            vec![
                id(),
                text("name"),
                field("state", Type::Resource(state)),
                field("district", Type::Resource(district)),
                field("party", Type::Resource(party)),
            ],
        ))
        .unwrap();
    let bill = schema
        .add(resource(
            "Bill",
            "Bills",
            vec![id(), text("name"), text("summary"), field("state", Type::Resource(state))],
        ))
        .unwrap();
    let issue = schema.add(resource("Issue", "Issues", vec![id(), text("name")])).unwrap();
    let plural = |name: &str, singular: usize, inverse: Option<usize>| {
        PluralField::new(name.to_string(), singular, inverse)
    };
    schema.add_plural_field(state, plural("bills", bill, Some(3))).unwrap();
    schema.add_plural_field(state, plural("legislators", legislator, Some(2))).unwrap();
    schema.add_plural_field(state, plural("districts", district, Some(1))).unwrap();
    schema.add_plural_field(district, plural("representatives", legislator, Some(3))).unwrap();
    schema.add_plural_field(bill, plural("sponsors", legislator, None)).unwrap();
    schema.add_plural_field(bill, plural("issues", issue, None)).unwrap();
    schema.add_plural_field(legislator, plural("sponsored_bills", bill, None)).unwrap();
    schema.add_plural_field(party, plural("members", legislator, Some(4))).unwrap();
    schema.add_plural_field(issue, plural("bills", bill, None)).unwrap();
    schema
}

#[test]
fn test_register_schema() {
    let layout = Layout::new(bills_schema()).unwrap();
    let mut db = Connection::create();
    for r in 0..6 {
        register::execute(&mut db, &layout, r).unwrap();
    }

    // As a smoketest, make sure all the resources were registered.
    let mut resources = db.schema().into_iter().map(|(name, _)| name).collect::<Vec<_>>();
    resources.sort();
    assert_eq!(resources, ["bills", "districts", "issues", "legislators", "parties", "states"]);
}

#[test]
fn register_follows_cycles_once() {
    let layout = Layout::new(bills_schema()).unwrap();
    // An issue refers to its bills, a bill to its state and, through its sponsors, to all others.
    let statements = register::dependencies(&layout, 5);
    let mut registered = statements.iter().map(|d| d.resource).collect::<Vec<_>>();
    registered.sort();
    assert_eq!(registered, vec![0, 1, 2, 3, 4, 5]);
    for dependency in &statements {
        assert_eq!(dependency.statement.table, layout.tables[dependency.resource]);
        assert_eq!(
            dependency.statement.columns.len(),
            layout.schema.resource(dependency.resource).fields.len()
        );
    }
    // A party refers to its members only: no bill is reached from a state alone.
    let mut db = Connection::create();
    register::execute(&mut db, &layout, 5).unwrap();
    assert_eq!(db.len(), 6);
}

#[test]
fn register_creates_the_tables_of_reachable_resources_only() {
    let mut schema = Schema::new();
    schema.add(simple()).unwrap();
    schema.add(test_resource()).unwrap();
    let layout = Layout::new(schema).unwrap();
    let mut db = Connection::create();
    register::execute(&mut db, &layout, 1).unwrap();
    assert_eq!(db.len(), 1);
    assert!(db.table_schema("test_resources").is_some());
}

#[test]
fn select_test_resource_predicate() {
    let (db, layout) = three_test_resources();
    let resources = vec![
        test_resource_item(1, 0, "foo"),
        test_resource_item(2, 1, "bar"),
        test_resource_item(3, 1, "baz"),
    ];

    // Test a single sub-predicate.
    let predicate = ResourcePredicate::Has(Has::new(3, 0).field(1, int_is(IntCmpOp::EQ, 1)));
    assert_eq!(select::execute(&db, &layout, 0, Some(predicate)).unwrap(), &resources[1..]);

    // Test multiple sub-predicates.
    let predicate = ResourcePredicate::Has(
        Has::new(3, 0)
            .field(1, int_is(IntCmpOp::EQ, 1))
            .field(2, string_is(StringCmpOp::NE, "baz")),
    );
    assert_eq!(select::execute(&db, &layout, 0, Some(predicate)).unwrap(), &resources[1..2]);

    // Test no sub-predicates.
    let predicate = ResourcePredicate::Has(Has::new(3, 0));
    assert_eq!(select::execute(&db, &layout, 0, Some(predicate)).unwrap(), resources);
}

#[test]
fn type_system_test_resource_predicate() {
    let (db, layout) = three_test_resources();
    let fields = |items: Vec<Record>| {
        items.into_iter().map(|item| (item.fields[1].clone(), item.fields[2].clone())).collect::<Vec<_>>()
    };
    let resources = vec![(number(0), string("foo")), (number(1), string("bar")), (number(1), string("baz"))];

    // Test a single sub-predicate.
    let predicate = ResourcePredicate::Has(Has::new(3, 0).field(1, int_is(IntCmpOp::EQ, 1)));
    assert_eq!(
        fields(select::execute(&db, &layout, 0, Some(predicate)).unwrap()),
        &resources[1..]
    );

    // Test multiple sub-predicates.
    let predicate = ResourcePredicate::Has(
        Has::new(3, 0)
            .field(1, int_is(IntCmpOp::EQ, 1))
            .field(2, string_is(StringCmpOp::NE, "baz")),
    );
    assert_eq!(
        fields(select::execute(&db, &layout, 0, Some(predicate)).unwrap()),
        &resources[1..2]
    );

    // Test no sub-predicates.
    let predicate = ResourcePredicate::Has(Has::new(3, 0));
    assert_eq!(fields(select::execute(&db, &layout, 0, Some(predicate)).unwrap()), resources);
}

#[test]
fn insert_then_select_with_predicate() {
    let layout = test_resource_layout();
    let mut db = Connection::create();
    register::execute(&mut db, &layout, 0).unwrap();
    insert::execute(
        &mut db,
        &layout,
        0,
        vec![
            vec![number(0), string("foo")],
            vec![number(1), string("bar")],
            vec![number(1), string("baz")],
        ],
    )
    .unwrap();
    let predicate = ResourcePredicate::Has(Has::new(3, 0).field(1, int_is(IntCmpOp::EQ, 1)));
    assert_eq!(
        select::execute(&db, &layout, 0, Some(predicate)).unwrap(),
        vec![test_resource_item(2, 1, "bar"), test_resource_item(3, 1, "baz")]
    );
}

#[test]
fn predicates_with_integer_orderings() {
    let (db, layout) = three_test_resources();
    let ids = |op: IntCmpOp, x: i32| {
        let predicate = ResourcePredicate::Has(Has::new(3, 0).field(0, int_is(op, x)));
        select::execute(&db, &layout, 0, Some(predicate))
            .unwrap()
            .into_iter()
            .map(|item| item.fields[0].clone())
            .collect::<Vec<_>>()
    };
    assert_eq!(ids(IntCmpOp::EQ, 2), vec![number(2)]);
    assert_eq!(ids(IntCmpOp::NE, 2), vec![number(1), number(3)]);
    assert_eq!(ids(IntCmpOp::GE, 2), vec![number(2), number(3)]);
    assert_eq!(ids(IntCmpOp::GT, 2), vec![number(3)]);
    assert_eq!(ids(IntCmpOp::LE, 2), vec![number(1), number(2)]);
    assert_eq!(ids(IntCmpOp::LT, 2), vec![number(1)]);
}

#[test]
fn is_predicate_compares_for_equality() {
    let (db, layout) = three_test_resources();
    let predicate = ResourcePredicate::Has(Has::new(3, 0).field(
        2,
        Predicate::Scalar(ScalarPredicate::String(StringPredicate::is(Value::Lit(
            Scalar::String("bar".to_string()),
        )))),
    ));
    assert_eq!(
        select::execute(&db, &layout, 0, Some(predicate)).unwrap(),
        vec![test_resource_item(2, 1, "bar")]
    );
    let predicate = ResourcePredicate::Has(Has::new(3, 0).field(
        1,
        Predicate::Scalar(ScalarPredicate::Int(IntPredicate::is(Value::Lit(Scalar::I32(0))))),
    ));
    assert_eq!(
        select::execute(&db, &layout, 0, Some(predicate)).unwrap(),
        vec![test_resource_item(1, 0, "foo")]
    );
}

#[test]
fn is_predicate_on_a_resource_filters_by_the_primary_field() {
    let mut schema = Schema::new();
    let mut with_primary = test_resource();
    with_primary.primary = Some(2);
    schema.add(with_primary).unwrap();
    let layout = Layout::new(schema).unwrap();
    let (db, without_primary) = three_test_resources();
    let is = |x: &str| ResourcePredicate::Is(Box::new(string_is(StringCmpOp::EQ, x)));
    assert_eq!(
        select::execute(&db, &layout, 0, Some(is("baz"))).unwrap(),
        vec![test_resource_item(3, 1, "baz")]
    );
    assert_eq!(
        select::execute(&db, &without_primary, 0, Some(is("baz"))),
        Err(Error::InvalidPredicate { resource: "TestResource".to_string() })
    );
}

#[test]
fn predicates_which_do_not_fit_are_refused() {
    let (db, layout) = three_test_resources();
    let refused = Err(Error::InvalidPredicate { resource: "TestResource".to_string() });
    let has = |f: usize, p: Predicate| Some(ResourcePredicate::Has(Has::new(3, 0).field(f, p)));
    // A string comparison on an integer, and an integer comparison on a string.
    assert_eq!(select::execute(&db, &layout, 0, has(1, string_is(StringCmpOp::EQ, "1"))), refused);
    assert_eq!(select::execute(&db, &layout, 0, has(2, int_is(IntCmpOp::EQ, 1))), refused);
    // A literal of another kind of integer.
    let other = Predicate::Scalar(ScalarPredicate::Int(IntPredicate::cmp(
        IntCmpOp::EQ,
        Value::Lit(Scalar::I64(1)),
    )));
    assert_eq!(select::execute(&db, &layout, 0, has(1, other)), refused);
    // A predicate on a resource for a scalar.
    let nested = Predicate::Resource(ResourcePredicate::Has(Has::new(0, 0)));
    assert_eq!(select::execute(&db, &layout, 0, has(1, nested)), refused);
}

#[test]
fn pattern_variables_are_not_implemented() {
    let (db, layout) = three_test_resources();
    let predicate = ResourcePredicate::Has(Has::new(3, 0).field(
        1,
        Predicate::Scalar(ScalarPredicate::Int(IntPredicate::cmp(IntCmpOp::EQ, Value::Var(0)))),
    ));
    // Nothing compiles a comparison with a pattern variable, at any depth.
    assert!(!predicate.is_implemented());
    let nested = ResourcePredicate::Has(Has::new(2, 0).field(1, Predicate::Resource(predicate)));
    assert!(!nested.is_implemented());
    let is = ResourcePredicate::Is(Box::new(Predicate::Resource(nested)));
    assert!(!is.is_implemented());
    let variable = ScalarPredicate::String(StringPredicate::is(Value::Var(3)));
    assert!(!variable.is_literal());
    // Comparisons with literals are compiled.
    let literal = ResourcePredicate::Has(Has::new(3, 0).field(1, int_is(IntCmpOp::EQ, 1)));
    assert!(literal.is_implemented());
    assert!(ResourcePredicate::Is(Box::new(string_is(StringCmpOp::EQ, "x"))).is_implemented());
    assert!(ResourcePredicate::Has(Has::new(3, 2)).is_implemented());
    assert!(select::execute(&db, &layout, 0, Some(literal)).is_ok());
}

#[test]
fn predicates_on_plural_fields_are_not_implemented() {
    let predicate = ResourcePredicate::Has(Has::new(3, 3).plural_field(
        2,
        PluralPredicate::Any(Predicate::Resource(ResourcePredicate::Has(Has::new(4, 3)))),
    ));
    assert!(!predicate.is_implemented());
    let nested = ResourcePredicate::Has(Has::new(4, 1).field(1, Predicate::Resource(predicate)));
    assert!(!nested.is_implemented());
    assert!(!Predicate::Resource(nested).is_implemented());
}

fn nodes() -> (Connection, Layout) {
    let leaf = |name: &str, plural: &str| {
        resource(
            name,
            plural,
            vec![field("id", Type::Scalar(ScalarKind::I32)), field("field", Type::Scalar(ScalarKind::I32))],
        )
    };
    let mut schema = Schema::new();
    assert_eq!(schema.add(leaf("Left", "Lefts")), Ok(0));
    assert_eq!(schema.add(leaf("Right", "Rights")), Ok(1));
    assert_eq!(
        schema.add(resource(
            "Node",
            "Nodes",
            vec![
                field("id", Type::Scalar(ScalarKind::I32)),
                field("left", Type::Resource(0)),
                field("right", Type::Resource(1)),
            ],
        )),
        Ok(2)
    );
    let layout = Layout::new(schema).unwrap();

    let mut db = Connection::create();
    let leaves = || {
        vec![
            SchemaColumn::new("id".to_string(), db::Type::Serial),
            SchemaColumn::new("field".to_string(), db::Type::Int4),
        ]
    };
    db.create_table_with_rows(
        "lefts".to_string(),
        leaves(),
        vec![vec![db::Value::Int4(0)], vec![db::Value::Int4(1)]],
    )
    .unwrap();
    db.create_table_with_rows(
        "rights".to_string(),
        leaves(),
        vec![vec![db::Value::Int4(0)], vec![db::Value::Int4(1)]],
    )
    .unwrap();
    db.create_table_with_rows(
        "nodes".to_string(),
        vec![
            SchemaColumn::new("id".to_string(), db::Type::Serial),
            SchemaColumn::new("left".to_string(), db::Type::Int4),
            SchemaColumn::new("right".to_string(), db::Type::Int4),
        ],
        vec![
            vec![db::Value::Int4(1), db::Value::Int4(2)],
            vec![db::Value::Int4(2), db::Value::Int4(2)],
        ],
    )
    .unwrap();
    (db, layout)
}

fn node(id: i32, left: (i32, i32), right: (i32, i32)) -> Record {
    Record {
        resource: 2,
        fields: vec![
            number(id),
            Instance::Resource(Record { resource: 0, fields: vec![number(left.0), number(left.1)] }),
            Instance::Resource(Record { resource: 1, fields: vec![number(right.0), number(right.1)] }),
        ],
    }
}

#[test]
fn test_join_filter() {
    let (db, layout) = nodes();

    // Select all.
    assert_eq!(
        select::execute(&db, &layout, 2, None).unwrap(),
        vec![node(1, (1, 0), (2, 1)), node(2, (2, 1), (2, 1))]
    );

    // Select with a WHERE clause.
    let predicate = ResourcePredicate::Has(Has::new(3, 0).field(
        1,
        Predicate::Resource(ResourcePredicate::Has(Has::new(2, 0).field(1, int_is(IntCmpOp::EQ, 0)))),
    ));
    assert_eq!(
        select::execute(&db, &layout, 2, Some(predicate)).unwrap(),
        vec![node(1, (1, 0), (2, 1))]
    );
}

#[test]
fn column_map_selects_nested_columns_and_joins_each_relation_once() {
    let (_, layout) = nodes();
    let mut columns = ColumnMap::new(&layout, 2);
    let column = |table: &str, name: &str| {
        SelectColumn::Column(db::Column::qualified(table.to_string(), name.to_string()))
    };
    assert_eq!(
        columns.columns,
        vec![
            column("nodes", "id"),
            column("lefts", "id"),
            column("lefts", "field"),
            column("nodes", "left"),
            column("rights", "id"),
            column("rights", "field"),
            column("nodes", "right"),
        ]
    );
    assert_eq!(columns.index(2, 0), Some(0));
    assert_eq!(columns.index(0, 1), Some(2));
    assert_eq!(columns.index(2, 2), Some(6));
    assert_eq!(columns.index(2, 3), None);
    assert_eq!(columns.index(3, 0), None);
    assert_eq!(columns.joins.len(), 2);
    assert_eq!(
        columns.joins[0].clause,
        db::JoinClause {
            table: "lefts".to_string(),
            lhs: db::Column::qualified("nodes".to_string(), "left".to_string()),
            op: db::Op::Eq,
            rhs: db::Column::qualified("lefts".to_string(), "id".to_string()),
        }
    );
    columns.join(&layout, 2, 1);
    assert_eq!(columns.joins.len(), 2);
}

#[test]
fn plan_puts_where_clauses_before_join_clauses() {
    let (_, layout) = nodes();
    let predicate = ResourcePredicate::Has(Has::new(3, 0).field(
        2,
        Predicate::Resource(ResourcePredicate::Has(Has::new(2, 0).field(1, int_is(IntCmpOp::GT, 0)))),
    ));
    let (query, columns) = select::plan(&layout, 2, Some(predicate), None).unwrap();
    assert_eq!(query.table, "nodes");
    assert_eq!(query.columns, columns.columns);
    assert_eq!(query.clauses.len(), 3);
    assert_eq!(
        query.clauses[0],
        db::Clause::Where(db::WhereClause {
            column: db::Column::qualified("rights".to_string(), "field".to_string()),
            op: db::Op::Gt,
            param: db::Value::Int4(0),
        })
    );
    assert!(matches!(query.clauses[1], db::Clause::Join(_)));
    assert!(matches!(query.clauses[2], db::Clause::Join(_)));
}

#[test]
fn load_relation_restricts_to_the_targets_of_the_owner() {
    let (db, mut_layout) = nodes();
    let mut schema = mut_layout.schema;
    schema.add_plural_field(0, PluralField::new("nodes".to_string(), 2, Some(1))).unwrap();
    schema.add_plural_field(1, PluralField::new("many".to_string(), 2, None)).unwrap();
    let layout = Layout::new(schema).unwrap();
    let left = |id: i32, field: i32| Record { resource: 0, fields: vec![number(id), number(field)] };
    assert_eq!(
        select::load_relation(&db, &layout, &left(2, 1), 0, None).unwrap(),
        vec![node(2, (2, 1), (2, 1))]
    );
    assert_eq!(select::load_relation(&db, &layout, &left(7, 1), 0, None).unwrap(), vec![]);
    // Only the targets of a one-to-many relation can be loaded.
    assert!(layout.schema.resource(0).plural_fields[0].is_one_to_many());
    assert!(!layout.schema.resource(1).plural_fields[0].is_one_to_many());
    assert!(!Relation::ManyToMany.is_many_to_one());
    let relation = Relation::ManyToOne {
        inverse: db::Column::qualified("nodes".to_string(), "left".to_string()),
        owner: 1,
    };
    assert!(relation.is_many_to_one());
    let (query, _) = select::plan(&layout, 2, None, Some(relation)).unwrap();
    assert_eq!(
        query.clauses[0],
        db::Clause::Where(db::WhereClause {
            column: db::Column::qualified("nodes".to_string(), "left".to_string()),
            op: db::Op::Eq,
            param: db::Value::Int4(1),
        })
    );
}

#[test]
fn select_fails_on_rows_of_another_type() {
    let layout = test_resource_layout();
    let mut db = Connection::create();
    db.create_table_with_rows(
        "test_resources".to_string(),
        vec![
            SchemaColumn::new("id".to_string(), db::Type::Serial),
            SchemaColumn::new("field1".to_string(), db::Type::Text),
            SchemaColumn::new("field2".to_string(), db::Type::Text),
        ],
        vec![vec![db::Value::Text("one".to_string()), db::Value::Text("foo".to_string())]],
    )
    .unwrap();
    assert_eq!(
        select::execute(&db, &layout, 0, None),
        Err(Error::TypeMismatch { expected: ScalarKind::I32, got: db::Type::Text })
    );
}

#[test]
fn select_passes_on_the_failure_of_the_database() {
    let layout = test_resource_layout();
    let db = Connection::create();
    assert_eq!(
        select::execute(&db, &layout, 0, None),
        Err(Error::Sql { error: db::Error::NoSuchTable { table: "test_resources".to_string() } })
    );
}

#[test]
fn names_are_converted_to_snake_case() {
    assert_eq!(table_name(&test_resource()), "test_resources");
    assert_eq!(column_name(&simple(), 1), "int_field");
    assert_eq!(column_name_of_field("text-field"), "text_field");
    assert_eq!(column_name_of_field("two words"), "two_words");
    assert_eq!(column_name_of_field("already_snake"), "already_snake");
    assert_eq!(column_name_of_field("field1"), "field1");
}

#[test]
fn layout_refuses_clashing_names() {
    let mut schema = Schema::new();
    schema.add(test_resource()).unwrap();
    schema.add(resource("Other", "test-resources", vec![field("id", Type::Scalar(ScalarKind::I32))]))
        .unwrap();
    assert_eq!(
        Layout::new(schema).map(|_| ()),
        Err(Error::ParseResource {
            resource: "Other".to_string(),
            error: "the name of the table is in use".to_string(),
        })
    );
    let mut schema = Schema::new();
    schema
        .add(resource(
            "Clash",
            "Clashes",
            vec![
                field("id", Type::Scalar(ScalarKind::I32)),
                field("fooBar", Type::Scalar(ScalarKind::I32)),
                field("foo_bar", Type::Scalar(ScalarKind::I32)),
            ],
        ))
        .unwrap();
    assert_eq!(
        Layout::new(schema).map(|_| ()),
        Err(Error::ParseResource {
            resource: "Clash".to_string(),
            error: "the names of the columns are not distinct".to_string(),
        })
    );
}

#[test]
fn schema_refuses_inconsistent_resources() {
    let mut schema = Schema::new();
    let mut no_id = test_resource();
    no_id.id = 3;
    assert_eq!(schema.add(no_id), Err(SchemaError::MissingId));
    let mut text_id = test_resource();
    text_id.id = 2;
    assert_eq!(schema.add(text_id), Err(SchemaError::MissingId));
    let mut no_primary = test_resource();
    no_primary.primary = Some(3);
    assert_eq!(schema.add(no_primary), Err(SchemaError::UnknownPrimary));
    let forward = resource(
        "Node",
        "Nodes",
        vec![field("id", Type::Scalar(ScalarKind::I32)), field("next", Type::Resource(0))],
    );
    assert_eq!(schema.add(forward), Err(SchemaError::UnknownResource));
    let mut plural = test_resource();
    plural.plural_fields = vec![PluralField::new("others".to_string(), 1, None)];
    assert_eq!(schema.add(plural), Err(SchemaError::UnknownSingular));
    assert_eq!(schema.len(), 0);
    let mut own = test_resource();
    own.plural_fields = vec![PluralField::new("same".to_string(), 0, None)];
    assert_eq!(schema.add(own), Ok(0));
    assert_eq!(
        schema.add_plural_field(1, PluralField::new("x".to_string(), 0, None)),
        Err(SchemaError::UnknownResource)
    );
    assert_eq!(
        schema.add_plural_field(0, PluralField::new("x".to_string(), 0, Some(1))),
        Err(SchemaError::UnknownSingular)
    );
    assert_eq!(schema.resource(0).plural_fields.len(), 1);
    assert_eq!(schema.resource(0).field_names(), vec!["id", "field1", "field2"]);
    assert!(schema.resource(0).is_id(0));
    assert!(!schema.resource(0).is_id(1));
}

#[test]
fn scalars_convert_to_values_and_back() {
    assert_eq!(scalar_to_value(Scalar::I32(-1)), db::Value::Int4(-1));
    assert_eq!(scalar_to_value(Scalar::I64(-1)), db::Value::Int8(-1));
    assert_eq!(scalar_to_value(Scalar::U32(1)), db::Value::UInt4(1));
    assert_eq!(scalar_to_value(Scalar::U64(1)), db::Value::UInt8(1));
    assert_eq!(scalar_to_value(Scalar::String("s".to_string())), db::Value::Text("s".to_string()));
    assert_eq!(value_to_scalar(ScalarKind::I32, db::Value::Int4(-1)), Ok(Scalar::I32(-1)));
    assert_eq!(value_to_scalar(ScalarKind::I64, db::Value::Int8(-1)), Ok(Scalar::I64(-1)));
    assert_eq!(value_to_scalar(ScalarKind::U32, db::Value::UInt4(1)), Ok(Scalar::U32(1)));
    assert_eq!(value_to_scalar(ScalarKind::U64, db::Value::UInt8(1)), Ok(Scalar::U64(1)));
    assert_eq!(
        value_to_scalar(ScalarKind::String, db::Value::Text("s".to_string())),
        Ok(Scalar::String("s".to_string()))
    );
    assert_eq!(
        value_to_scalar(ScalarKind::I32, db::Value::Int8(1)),
        Err(Error::TypeMismatch { expected: ScalarKind::I32, got: db::Type::Int8 })
    );
    assert_eq!(
        value_to_scalar(ScalarKind::U32, db::Value::Serial(1)),
        Err(Error::TypeMismatch { expected: ScalarKind::U32, got: db::Type::Serial })
    );
    assert_eq!(
        value_to_scalar(ScalarKind::String, db::Value::Int4(1)),
        Err(Error::TypeMismatch { expected: ScalarKind::String, got: db::Type::Int4 })
    );
    assert_eq!(lower_scalar_type(ScalarKind::I32), db::Type::Int4);
    assert_eq!(lower_scalar_type(ScalarKind::I64), db::Type::Int8);
    assert_eq!(lower_scalar_type(ScalarKind::U32), db::Type::UInt4);
    assert_eq!(lower_scalar_type(ScalarKind::U64), db::Type::UInt8);
    assert_eq!(lower_scalar_type(ScalarKind::String), db::Type::Text);
}

#[test]
fn ops_error_messages() {
    assert_eq!(Error::sql(db::Error::EmptyRows).to_string(), "query result is empty");
    assert_eq!(
        Error::ParseResource { resource: "R".to_string(), error: "bad".to_string() }.to_string(),
        "error parsing resource R: bad"
    );
    assert_eq!(
        Error::TypeMismatch { expected: ScalarKind::String, got: db::Type::Int4 }.to_string(),
        "type mismatch (expected string, got int4)"
    );
    assert_eq!(Error::custom("T", "bad").to_string(), "error building type T: bad");
    assert_eq!(Error::field("T", "f", "bad").to_string(), "error building field T::f: bad");
    assert_eq!(
        Error::Unimplemented { feature: Feature::NestedResources }.to_string(),
        "not implemented: nested resources"
    );
    assert_eq!(
        Error::IncorrectWidth { resource: "R".to_string(), expected: 2, found: 3 }.to_string(),
        "incorrect width for resource R (expected 2, found 3)"
    );
    assert_eq!(
        Error::InvalidPredicate { resource: "R".to_string() }.to_string(),
        "invalid predicate for resource R"
    );
}

#[test]
fn take_returns_a_sub_predicate_once() {
    let mut has = Has::new(2, 0).field(1, int_is(IntCmpOp::EQ, 1)).field(5, int_is(IntCmpOp::EQ, 2));
    assert_eq!(has.get(0), None);
    assert_eq!(has.get(1), Some(&int_is(IntCmpOp::EQ, 1)));
    assert_eq!(has.get(5), None);
    assert_eq!(has.take(1), Some(int_is(IntCmpOp::EQ, 1)));
    assert_eq!(has.take(1), None);
    assert_eq!(has.get(1), None);
    assert_eq!(has.take(0), None);
    assert_eq!(has.take(2), None);
}
