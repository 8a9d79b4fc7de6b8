//! Compilation of insert from high-level GraphQL types into low-level SQL types.

use super::{scalar_to_value, scalar_value, Error, Feature, Layout};
use crate::graphql::type_system::{Instance, Resource, ScalarKind, Type, Visitor};
use crate::sql::db::mock::{contents, inserted, Connection};
use crate::sql::db::{Insert, Value};
use vstd::prelude::*;
use vstd::string::*;

verus! {

/// The position, among the fields of `resource`, of the input field at position `k`.
///
/// The input fields of a resource are its fields but for the ID, which the database assigns.
pub open spec fn input_field(resource: Resource, k: int) -> int {
    if k < resource.id {
        k
    } else {
        k + 1
    }
}

/// The types of the input fields of `resource`, in their order.
pub open spec fn input_types(resource: Resource) -> Seq<Type> {
    Seq::new(
        (resource.fields@.len() - 1) as nat,
        |k: int| resource.fields@[input_field(resource, k)].ty,
    )
}

/// The names of the columns of the input fields of the resource at position `resource`, in
/// their order.
pub open spec fn input_columns(layout: Layout, resource: int) -> Seq<String> {
    Seq::new(
        (layout.schema@[resource].fields@.len() - 1) as nat,
        |k: int| layout.columns@[resource]@[input_field(layout.schema@[resource], k)],
    )
}

/// The kind of scalar which is stored for a field of the given type: the field itself if it is
/// a scalar, the ID of the item that it refers to if it is a resource.
pub open spec fn stored_kind(ty: Type) -> ScalarKind {
    match ty {
        Type::Scalar(kind) => kind,
        Type::Resource(_) => ScalarKind::I32,
    }
}

/// The visitor which tells the kind of scalar that is stored for a field of a type.
pub struct StoredKind;

impl Visitor for StoredKind {
    type Output = ScalarKind;

    open spec fn visits(self, ty: Type, output: ScalarKind) -> bool {
        output == stored_kind(ty)
    }

    fn resource(self, resource: usize) -> (output: ScalarKind) {
        ScalarKind::I32
    }

    fn scalar(self, kind: ScalarKind) -> (output: ScalarKind) {
        kind
    }
}

/// The value which is stored for `input` in a field of the type `ty`.
pub open spec fn input_value(ty: Type, input: Instance) -> Result<Value, Error> {
    match input {
        Instance::Resource(_) => Err(Error::Unimplemented { feature: Feature::NestedResources }),
        Instance::Scalar(s) => if s.kind() == stored_kind(ty) {
            Ok(scalar_value(s))
        } else {
            Err(Error::TypeMismatch { expected: stored_kind(ty), got: scalar_value(s).ty() })
        },
    }
}

/// The values which are stored for the first objects of a record: one for each of the types, in
/// their order.
pub open spec fn input_values(types: Seq<Type>, inputs: Seq<Instance>) -> Result<Seq<Value>, Error>
    decreases types.len(),
{
    if types.len() == 0 {
        Ok(Seq::empty())
    } else {
        match input_values(types.drop_last(), inputs) {
            Err(e) => Err(e),
            Ok(values) => match input_value(types.last(), inputs[types.len() - 1]) {
                Err(e) => Err(e),
                Ok(value) => Ok(values.push(value)),
            },
        }
    }
}

/// The row which is stored for a record of `resource`, given as one object for each input field.
pub open spec fn row(resource: Resource, input: Seq<Instance>) -> Result<Seq<Value>, Error> {
    if input.len() != resource.fields@.len() - 1 {
        Err(
            Error::IncorrectWidth {
                resource: resource.name,
                expected: (resource.fields@.len() - 1) as usize,
                found: input.len() as usize,
            },
        )
    } else {
        input_values(input_types(resource), input)
    }
}

/// The rows which are stored for records of `resource`.
pub open spec fn rows(resource: Resource, inputs: Seq<Seq<Instance>>) -> Result<
    Seq<Seq<Value>>,
    Error,
>
    decreases inputs.len(),
{
    if inputs.len() == 0 {
        Ok(Seq::empty())
    } else {
        match rows(resource, inputs.drop_last()) {
            Err(e) => Err(e),
            Ok(stored) => match row(resource, inputs.last()) {
                Err(e) => Err(e),
                Ok(values) => Ok(stored.push(values)),
            },
        }
    }
}

/// The contents of a list of records.
pub open spec fn records(inputs: Seq<Vec<Instance>>) -> Seq<Seq<Instance>> {
    inputs.map_values(|input: Vec<Instance>| input@)
}

/// The values which are stored fail where they fail for some of the first types.
proof fn lemma_input_values_fail(types: Seq<Type>, inputs: Seq<Instance>, n: int)
    requires
        0 <= n <= types.len(),
        input_values(types.take(n), inputs) is Err,
    ensures
        input_values(types, inputs) == input_values(types.take(n), inputs),
    decreases types.len() - n,
{
    if n < types.len() {
        assert(types.take(n + 1).drop_last() =~= types.take(n));
        lemma_input_values_fail(types, inputs, n + 1);
    } else {
        assert(types.take(n) =~= types);
    }
}

/// The rows which are stored fail where they fail for some of the first records.
proof fn lemma_rows_fail(resource: Resource, inputs: Seq<Seq<Instance>>, n: int)
    requires
        0 <= n <= inputs.len(),
        rows(resource, inputs.take(n)) is Err,
    ensures
        rows(resource, inputs) == rows(resource, inputs.take(n)),
    decreases inputs.len() - n,
{
    if n < inputs.len() {
        assert(inputs.take(n + 1).drop_last() =~= inputs.take(n));
        lemma_rows_fail(resource, inputs, n + 1);
    } else {
        assert(inputs.take(n) =~= inputs);
    }
}

/// Build the row which is stored for a record.
///
/// The fields are visited in the order of their declaration, and each object is converted to
/// a value.
///
/// # Errors
///
/// Fails if the record does not hold one object for each input field; if an object is not a
/// scalar, since nested resources are not implemented; or if a scalar is not of the kind of its
/// field, or not an ID where its field refers to a resource.
#[verifier::loop_isolation(false)]
pub fn build_row(resource: &Resource, input: Vec<Instance>) -> (r: Result<Vec<Value>, Error>)
    requires
        resource.id < resource.fields@.len(),
    ensures
        match row(*resource, input@) {
            Ok(values) => r matches Ok(out) && out@ == values,
            Err(e) => r == Err::<Vec<Value>, Error>(e),
        },
{
    let count = resource.fields.len() - 1;
    if input.len() != count {
        return Err(
            Error::IncorrectWidth {
                resource: resource.name.clone(),
                expected: count,
                found: input.len(),
            },
        );
    }
    let ghost types = input_types(*resource);
    let ghost given = input@;
    let mut input = crate::sql::db::reverse(input);
    let mut values: Vec<Value> = Vec::new();
    proof {
        assert(types.take(0) =~= Seq::<Type>::empty());
    }
    let mut k: usize = 0;
    while k < count
        invariant
            k <= count,
            input@ == given.reverse().take(count - k),
            input_values(types.take(k as int), given) == Ok::<Seq<Value>, Error>(values@),
        decreases count - k,
    {
        let field = if k < resource.id {
            k
        } else {
            k + 1
        };
        let ghost before = input@;
        let object = input.pop().unwrap();
        proof {
            assert(object == before.last());
            assert(object == given[k as int]);
            assert(input@ =~= given.reverse().take(count - k - 1));
            assert(types.take(k + 1).drop_last() =~= types.take(k as int));
            assert(types.take(k + 1).last() == resource.fields@[field as int].ty);
        }
        let expected = resource.fields[field].ty.describe(StoredKind);
        match object {
            Instance::Resource(_) => {
                proof {
                    lemma_input_values_fail(types, given, k + 1);
                }
                return Err(Error::Unimplemented { feature: Feature::NestedResources });
            },
            Instance::Scalar(s) => {
                if s.kind() != expected {
                    proof {
                        lemma_input_values_fail(types, given, k + 1);
                    }
                    let got = scalar_to_value(s).ty();
                    return Err(Error::TypeMismatch { expected, got });
                }
                values.push(scalar_to_value(s));
            },
        }
        k += 1;
    }
    proof {
        assert(types.take(count as int) =~= types);
    }
    Ok(values)
}

/// The `INSERT` statement which stores records of the resource at position `resource`.
///
/// # Errors
///
/// Fails if [`build_row`] fails for one of the records, with the failure of the first such
/// record.
#[verifier::loop_isolation(false)]
pub fn statement(layout: &Layout, resource: usize, inputs: Vec<Vec<Instance>>) -> (r: Result<
    Insert,
    Error,
>)
    requires
        layout.wf(),
        resource < layout.schema@.len(),
    ensures
        match rows(layout.schema@[resource as int], records(inputs@)) {
            Ok(stored) => r matches Ok(q) && q.table == layout.tables@[resource as int]
                && q.columns@ == input_columns(*layout, resource as int) && contents(q.rows@)
                == stored,
            Err(e) => r == Err::<Insert, Error>(e),
        },
{
    let definition = layout.schema.resource(resource);
    proof {
        assert(crate::graphql::type_system::Schema::resource_wf(layout.schema@, resource as int));
    }
    let table = layout.table(resource);
    let mut columns: Vec<String> = Vec::new();
    let count = definition.fields.len() - 1;
    let mut k: usize = 0;
    while k < count
        invariant
            k <= count,
            columns@.len() == k,
            forall|a: int|
                0 <= a < k ==> (#[trigger] columns@[a]) == layout.columns@[resource as int]@[input_field(
                    *definition,
                    a,
                )],
        decreases count - k,
    {
        let field = if k < definition.id {
            k
        } else {
            k + 1
        };
        columns.push(layout.column(resource, field));
        k += 1;
    }
    proof {
        assert(columns@ =~= input_columns(*layout, resource as int));
    }
    let ghost given = records(inputs@);
    let total = inputs.len();
    let mut inputs = crate::sql::db::reverse(inputs);
    let mut stored: Vec<Vec<Value>> = Vec::new();
    proof {
        assert(given.take(0) =~= Seq::<Seq<Instance>>::empty());
        assert(contents(stored@) =~= Seq::<Seq<Value>>::empty());
    }
    let mut i: usize = 0;
    while i < total
        invariant
            i <= total,
            total == given.len(),
            inputs@.len() == total - i,
            forall|a: int| 0 <= a < total - i ==> (#[trigger] inputs@[a])@ == given[total - 1 - a],
            rows(*definition, given.take(i as int)) == Ok::<Seq<Seq<Value>>, Error>(
                contents(stored@),
            ),
        decreases total - i,
    {
        let input = inputs.pop().unwrap();
        proof {
            assert(input@ == given[i as int]);
            assert(given.take(i + 1).drop_last() =~= given.take(i as int));
            assert(given.take(i + 1).last() == given[i as int]);
        }
        match build_row(definition, input) {
            Err(e) => {
                proof {
                    lemma_rows_fail(*definition, given, i + 1);
                }
                return Err(e);
            },
            Ok(values) => {
                let ghost before = contents(stored@);
                stored.push(values);
                proof {
                    assert(contents(stored@) =~= before.push(values@));
                }
            },
        }
        i += 1;
    }
    proof {
        assert(given.take(total as int) =~= given);
    }
    Ok(Insert::new(table, columns).rows(stored))
}

/// Insert items of the resource at position `resource` into the database.
///
/// The items are stored by a single `INSERT` statement, so either all of them are stored or
/// none is.
///
/// # Errors
///
/// Fails, and leaves the database as it is, if [`statement`] fails or if the database refuses
/// the statement.
pub fn execute(
    conn: &mut Connection,
    layout: &Layout,
    resource: usize,
    inputs: Vec<Vec<Instance>>,
) -> (r: Result<(), Error>)
    requires
        old(conn).wf(),
        layout.wf(),
        resource < layout.schema@.len(),
    ensures
        final(conn).wf(),
        match rows(layout.schema@[resource as int], records(inputs@)) {
            Err(e) => r == Err::<(), Error>(e) && final(conn)@ == old(conn)@,
            Ok(stored) => match inserted(
                old(conn)@,
                layout.tables@[resource as int],
                input_columns(*layout, resource as int),
                stored,
            ) {
                Ok(tables) => r == Ok::<(), Error>(()) && final(conn)@ == tables,
                Err(error) => r == Err::<(), Error>(Error::Sql { error }) && final(conn)@
                    == old(conn)@,
            },
        },
{
    let query = match statement(layout, resource, inputs) {
        Ok(query) => query,
        Err(e) => {
            return Err(e);
        },
    };
    match query.execute(conn) {
        Ok(()) => Ok(()),
        Err(e) => Err(Error::sql(e)),
    }
}

} // verus!
