use model::graphql::type_system::{
    CmpOp, Field, FieldVisitor, Has, IntCmp, IntCmpOp, IntPredicate, PluralField,
    PluralFieldVisitor, Predicate, Record, Resource, Scalar, ScalarKind, ScalarPredicate,
    ScalarPredicateCompiler, ScalarVisitor, StringCmp, StringCmpOp, StringPredicate, Type, Value,
    Visitor, Instance,
};
use model::sql::db;

/// A compiler which records the comparison that it is given.
struct Recorder;

impl ScalarPredicateCompiler for Recorder {
    type Result = (CmpOp, Value);

    fn accepts(self, _: CmpOp, _: Value) -> bool {
        true
    }

    fn compiles(self, _: CmpOp, _: Value, _: (CmpOp, Value)) -> bool {
        true
    }

    fn cmp(self, op: CmpOp, value: Value) -> (CmpOp, Value) {
        (op, value)
    }
}

#[test]
fn scalar_predicates_compile_to_one_comparison() {
    let lit = |x: i32| Value::Lit(Scalar::I32(x));
    assert_eq!(
        IntPredicate::cmp(IntCmpOp::GE, lit(3)).compile(Recorder),
        (CmpOp::Int(IntCmpOp::GE), lit(3))
    );
    assert_eq!(IntPredicate::is(lit(3)).compile(Recorder), (CmpOp::Int(IntCmpOp::EQ), lit(3)));
    assert_eq!(
        IntCmp::new(IntCmpOp::LT, Value::Var(1)).compile(Recorder),
        (CmpOp::Int(IntCmpOp::LT), Value::Var(1))
    );
    let text = |x: &str| Value::Lit(Scalar::String(x.to_string()));
    assert_eq!(
        StringPredicate::cmp(StringCmpOp::NE, text("a")).compile(Recorder),
        (CmpOp::String(StringCmpOp::NE), text("a"))
    );
    assert_eq!(
        StringPredicate::is(text("a")).compile(Recorder),
        (CmpOp::String(StringCmpOp::EQ), text("a"))
    );
    assert_eq!(
        StringCmp::new(StringCmpOp::EQ, text("b")).compile(Recorder),
        (CmpOp::String(StringCmpOp::EQ), text("b"))
    );
    assert_eq!(
        ScalarPredicate::Int(IntPredicate::is(lit(0))).compile(Recorder),
        (CmpOp::Int(IntCmpOp::EQ), lit(0))
    );
    assert_eq!(
        ScalarPredicate::String(StringPredicate::is(text(""))).compile(Recorder),
        (CmpOp::String(StringCmpOp::EQ), text(""))
    );
}

#[test]
fn operators_are_spelled_as_in_sql() {
    assert_eq!(IntCmpOp::EQ.to_string(), "=");
    assert_eq!(IntCmpOp::NE.to_string(), "!=");
    assert_eq!(IntCmpOp::GE.to_string(), ">=");
    assert_eq!(IntCmpOp::GT.to_string(), ">");
    assert_eq!(IntCmpOp::LE.to_string(), "<=");
    assert_eq!(IntCmpOp::LT.to_string(), "<");
    assert_eq!(StringCmpOp::EQ.to_string(), "=");
    assert_eq!(StringCmpOp::NE.to_string(), "!=");
}

#[test]
fn scalar_kinds_and_names() {
    assert_eq!(Scalar::I32(1).kind(), ScalarKind::I32);
    assert_eq!(Scalar::I64(1).kind(), ScalarKind::I64);
    assert_eq!(Scalar::U32(1).kind(), ScalarKind::U32);
    assert_eq!(Scalar::U64(1).kind(), ScalarKind::U64);
    assert_eq!(Scalar::String(String::new()).kind(), ScalarKind::String);
    assert_eq!(ScalarKind::I32.name(), "i32");
    assert_eq!(ScalarKind::U64.name(), "u64");
    assert_eq!(ScalarKind::String.name(), "String");
    assert_eq!(ScalarKind::I32.plural_name(), "i32s");
    assert_eq!(ScalarKind::I64.plural_name(), "i64s");
    assert_eq!(ScalarKind::U32.plural_name(), "u32s");
    assert_eq!(ScalarKind::U64.plural_name(), "u64s");
    assert_eq!(ScalarKind::String.plural_name(), "Strings");
}

/// A visitor which names the case that it is given.
struct Case;

impl ScalarVisitor for Case {
    type Output = &'static str;

    fn accepts(self, _: ScalarKind) -> bool {
        true
    }

    fn visits(self, _: ScalarKind, _: &'static str) -> bool {
        true
    }

    fn visit_i32(self) -> &'static str {
        "i32"
    }

    fn visit_i64(self) -> &'static str {
        "i64"
    }

    fn visit_u32(self) -> &'static str {
        "u32"
    }

    fn visit_u64(self) -> &'static str {
        "u64"
    }

    fn visit_string(self) -> &'static str {
        "string"
    }
}

impl Visitor for Case {
    type Output = String;

    fn visits(self, _: Type, _: String) -> bool {
        true
    }

    fn resource(self, resource: usize) -> String {
        format!("resource {resource}")
    }

    fn scalar(self, kind: ScalarKind) -> String {
        format!("scalar {}", kind.name())
    }
}

#[test]
fn visit_gives_the_case_of_each_kind() {
    assert_eq!(ScalarKind::I32.visit(Case), "i32");
    assert_eq!(ScalarKind::I64.visit(Case), "i64");
    assert_eq!(ScalarKind::U32.visit(Case), "u32");
    assert_eq!(ScalarKind::U64.visit(Case), "u64");
    assert_eq!(ScalarKind::String.visit(Case), "string");
}

#[test]
fn describe_tells_scalars_from_resources() {
    assert_eq!(Type::Scalar(ScalarKind::U32).describe(Case), "scalar u32");
    assert_eq!(Type::Resource(4).describe(Case), "resource 4");
}

/// A visitor which numbers the fields that it is told about.
struct Counter(usize);

impl FieldVisitor for Counter {
    type Output = (usize, String);

    fn visits(self, _: Field, _: Self, _: (usize, String)) -> bool {
        true
    }

    fn visit(&mut self, field: &Field) -> (usize, String) {
        self.0 += 1;
        (self.0, field.name.clone())
    }
}

impl PluralFieldVisitor for Counter {
    type Output = (usize, usize);

    fn visits(self, _: PluralField, _: Self, _: (usize, usize)) -> bool {
        true
    }

    fn visit(&mut self, field: &PluralField) -> (usize, usize) {
        self.0 += 1;
        (self.0, field.singular)
    }
}

#[test]
fn fields_are_described_once_each_in_their_order() {
    let resource = Resource {
        name: "R".to_string(),
        plural_name: "Rs".to_string(),
        fields: vec![
            Field::new("id".to_string(), Type::Scalar(ScalarKind::I32)),
            Field::new("b".to_string(), Type::Scalar(ScalarKind::String)),
            Field::new("a".to_string(), Type::Resource(0)),
        ],
        plural_fields: vec![
            PluralField::new("xs".to_string(), 2, None),
            PluralField::new("ys".to_string(), 1, Some(0)),
        ],
        id: 0,
        primary: None,
    };
    let mut counter = Counter(0);
    assert_eq!(
        resource.describe_fields(&mut counter),
        vec![(1, "id".to_string()), (2, "b".to_string()), (3, "a".to_string())]
    );
    assert_eq!(resource.describe_plural_fields(&mut counter), vec![(4, 2), (5, 1)]);
    assert_eq!(counter.0, 5);
    assert_eq!(resource.field_names(), vec!["id", "b", "a"]);
    assert_eq!(resource.describe_fields(&mut counter).len(), 3);
}

#[test]
fn replace_changes_a_sub_predicate_which_is_there() {
    let p = |x: i32| {
        Predicate::Scalar(ScalarPredicate::Int(IntPredicate::is(Value::Lit(Scalar::I32(x)))))
    };
    let mut has = Has::new(2, 1).field(0, p(1));
    assert_eq!(has.replace(0, p(2)), Some(p(1)));
    assert_eq!(has.get(0), Some(&p(2)));
    assert_eq!(has.replace(1, p(3)), None);
    assert_eq!(has.get(1), None);
    assert_eq!(has.replace(2, p(3)), None);
    assert_eq!(has.plural_fields.len(), 1);
}

#[test]
fn records_are_cloned_in_depth() {
    let inner = Record { resource: 0, fields: vec![Instance::Scalar(Scalar::String("x".to_string()))] };
    let outer = Record {
        resource: 1,
        fields: vec![Instance::Scalar(Scalar::I32(1)), Instance::Resource(inner)],
    };
    assert_eq!(outer.clone(), outer);
    assert_eq!(*outer.get(0), Instance::Scalar(Scalar::I32(1)));
    assert_eq!(Value::Lit(Scalar::U64(3)).clone(), Value::Lit(Scalar::U64(3)));
}

#[test]
fn values_from_primitives() {
    assert_eq!(db::Value::from(1i32), db::Value::Int4(1));
    assert_eq!(db::Value::from(1i64), db::Value::Int8(1));
    assert_eq!(db::Value::from(1u32), db::Value::UInt4(1));
    assert_eq!(db::Value::from(1u64), db::Value::UInt8(1));
    assert_eq!(db::Value::from("foo".to_string()), db::Value::Text("foo".to_string()));
}
