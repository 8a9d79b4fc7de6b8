use model::graphql::type_system::{
    Field, Has, Instance, IntCmpOp, IntPredicate, Predicate, Record, Resource, ResourcePredicate,
    Scalar, ScalarKind, ScalarPredicate, Schema, Type, Value,
};
use model::sql::data_source::{EmptyFields, PageRequest, SqlConnection, SqlDataSource};
use model::sql::db::mock::Connection;
use model::sql::ops::Layout;

fn source() -> SqlDataSource {
    let mut schema = Schema::new();
    schema
        .add(Resource {
            name: "Simple".to_string(),
            plural_name: "Simples".to_string(),
            fields: vec![
                Field::new("id".to_string(), Type::Scalar(ScalarKind::I32)),
                Field::new("field".to_string(), Type::Scalar(ScalarKind::I32)),
            ],
            plural_fields: vec![],
            id: 0,
            primary: None,
        })
        .unwrap();
    SqlDataSource::new(Connection::create(), Layout::new(schema).unwrap())
}

fn simple(id: i32, field: i32) -> Record {
    Record {
        resource: 0,
        fields: vec![Instance::Scalar(Scalar::I32(id)), Instance::Scalar(Scalar::I32(field))],
    }
}

fn page(first: Option<usize>, after: Option<usize>, last: Option<usize>, before: Option<usize>) -> PageRequest {
    PageRequest { first, after, last, before }
}

#[test]
fn data_source_registers_inserts_and_queries() {
    let mut conn = source();
    conn.register(0).unwrap();
    conn.insert(
        0,
        vec![vec![Instance::Scalar(Scalar::I32(0))], vec![Instance::Scalar(Scalar::I32(1))]],
    )
    .unwrap();

    // Select all elements.
    let results = conn.query(0, None).unwrap();
    let nodes = conn
        .load_page(&results, page(None, None, None, None))
        .into_iter()
        .map(|edge| edge.node)
        .collect::<Vec<_>>();
    assert_eq!(nodes, vec![simple(1, 0), simple(2, 1)]);

    // Select with a filter.
    let filter = ResourcePredicate::Has(Has::new(2, 0).field(
        1,
        Predicate::Scalar(ScalarPredicate::Int(IntPredicate::cmp(
            IntCmpOp::EQ,
            Value::Lit(Scalar::I32(1)),
        ))),
    ));
    let results = conn.query(0, Some(filter)).unwrap();
    let nodes = conn
        .load_page(&results, page(None, None, None, None))
        .into_iter()
        .map(|edge| edge.node)
        .collect::<Vec<_>>();
    assert_eq!(nodes, vec![simple(2, 1)]);
    assert_eq!(conn.db().len(), 1);
}

#[test]
fn connection_cursors() {
    let connection = SqlConnection::new(EmptyFields, vec![simple(1, 0), simple(2, 0), simple(3, 0)]);
    assert_eq!(*connection.fields(), EmptyFields);
    assert!(connection.has_next(&0));
    assert!(connection.has_next(&1));
    assert!(!connection.has_next(&2));
    assert!(!connection.has_next(&usize::MAX));
    assert!(!connection.has_previous(&0));
    assert!(connection.has_previous(&1));
    let empty = SqlConnection::empty(7u8);
    assert_eq!(*empty.fields(), 7);
    assert!(!empty.has_next(&0));
    assert_eq!(empty.load(page(None, None, None, None)).len(), 0);
}

#[test]
fn connection_pages() {
    let items = (1..=5).map(|i| simple(i, 0)).collect::<Vec<_>>();
    let connection = SqlConnection::new(EmptyFields, items);
    let cursors = |request: PageRequest| {
        connection.load(request).into_iter().map(|edge| (edge.cursor, edge.node)).collect::<Vec<_>>()
    };
    assert_eq!(cursors(page(None, None, None, None)).len(), 5);
    assert_eq!(cursors(page(Some(2), None, None, None)), vec![(0, simple(1, 0)), (1, simple(2, 0))]);
    assert_eq!(cursors(page(None, None, Some(2), None)), vec![(3, simple(4, 0)), (4, simple(5, 0))]);
    assert_eq!(cursors(page(None, Some(1), None, Some(3))), vec![(1, simple(2, 0)), (2, simple(3, 0))]);
    assert_eq!(cursors(page(Some(3), Some(1), Some(1), None)), vec![(3, simple(4, 0))]);
    assert_eq!(cursors(page(Some(0), None, None, None)), vec![]);
    // A limit or a cursor beyond the items that there are is no failure.
    assert_eq!(cursors(page(Some(9), None, None, None)).len(), 5);
    assert_eq!(cursors(page(None, None, Some(9), None)).len(), 5);
    assert_eq!(cursors(page(Some(2), Some(4), None, None)), vec![(4, simple(5, 0))]);
    assert_eq!(cursors(page(None, Some(7), None, None)), vec![]);
    assert_eq!(cursors(page(None, None, None, Some(9))).len(), 5);
    assert_eq!(cursors(page(None, Some(3), None, Some(1))), vec![]);
    assert_eq!(cursors(page(Some(3), None, Some(5), None)).len(), 3);
}

#[test]
fn first_page_of_an_empty_connection_is_empty() {
    let connection = SqlConnection::new(EmptyFields, vec![]);
    assert_eq!(connection.load(page(Some(1), None, None, None)).len(), 0);
}
