//! Compilation of resource registration from high-level GraphQL types into low-level SQL types.

use super::{lower_scalar_type, scalar_type, Error, Layout};
use crate::graphql::type_system::{
    describes_plural, plural_field_wf, PluralField, PluralFieldVisitor, Resource, Schema, Type,
};
use crate::sql::db;
use crate::sql::db::mock::{created, lookup, table_names, Connection, TableView};
use crate::sql::db::{CreateTable, SchemaColumn};
use crate::text::{lemma_position, position};
use vstd::prelude::*;
use vstd::string::*;

verus! {

/// The SQL type of the column of the field at position `f` of `resource`: the ID is assigned by
/// the database, a scalar has the type of its kind, and a field with the type of a resource holds
/// the ID of an item of that resource, as a foreign key.
pub open spec fn column_type(resource: Resource, f: int) -> db::Type {
    if f == resource.id {
        db::Type::Serial
    } else {
        match resource.fields@[f].ty {
            Type::Scalar(kind) => scalar_type(kind),
            Type::Resource(_) => db::Type::Int8,
        }
    }
}

/// The columns of the table of the resource at position `r`: one for each field, in the order
/// of the fields. Plural fields contribute no column.
pub open spec fn schema_columns(layout: Layout, r: int) -> Seq<SchemaColumn> {
    Seq::new(
        layout.schema@[r].fields@.len(),
        |f: int|
            SchemaColumn {
                name: layout.columns@[r]@[f],
                ty: column_type(layout.schema@[r], f),
            },
    )
}

/// Whether the resource at position `a` refers to the resource at position `b`, through a field
/// or a plural field.
pub open spec fn refers(resources: Seq<Resource>, a: int, b: int) -> bool {
    ||| exists|f: int|
        0 <= f < resources[a].fields@.len() && ((#[trigger] resources[a].fields@[f]).ty matches Type::Resource(
            t,
        ) && t == b)
    ||| exists|p: int|
        0 <= p < resources[a].plural_fields@.len() && (
        #[trigger] resources[a].plural_fields@[p]).singular == b
}

/// Whether `path` leads from resource to resource: each resource on it refers to the next.
pub open spec fn is_path(resources: Seq<Resource>, path: Seq<int>) -> bool {
    &&& path.len() > 0
    &&& forall|i: int| 0 <= i < path.len() ==> 0 <= #[trigger] path[i] < resources.len()
    &&& forall|i: int| 0 <= i < path.len() - 1 ==> refers(resources, #[trigger] path[i], path[i + 1])
}

/// Whether the resource at position `r` is the one at position `root` or one that it refers to,
/// directly or through other resources.
pub open spec fn reachable(resources: Seq<Resource>, root: int, r: int) -> bool {
    exists|path: Seq<int>| #[trigger]
        is_path(resources, path) && path.first() == root && path.last() == r
}

/// A resource that is referred to by a reachable resource is reachable.
proof fn lemma_reachable_step(resources: Seq<Resource>, root: int, m: int, r: int)
    requires
        0 <= r < resources.len(),
        reachable(resources, root, m),
        refers(resources, m, r),
    ensures
        reachable(resources, root, r),
{
    let path = choose|path: Seq<int>| #[trigger]
        is_path(resources, path) && path.first() == root && path.last() == m;
    let longer = path.push(r);
    assert forall|i: int| 0 <= i < longer.len() - 1 implies refers(
        resources,
        #[trigger] longer[i],
        longer[i + 1],
    ) by {
        if i < path.len() - 1 {
            assert(refers(resources, path[i], path[i + 1]));
        }
    }
    assert(is_path(resources, longer) && longer.first() == root && longer.last() == r);
}

/// A set of resources which holds the first resource on a path, and with each of its resources
/// those that it refers to, holds every resource on the path.
proof fn lemma_closed(resources: Seq<Resource>, marks: Seq<bool>, path: Seq<int>, i: int)
    requires
        marks.len() == resources.len(),
        is_path(resources, path),
        marks[path.first()],
        forall|a: int, b: int|
            0 <= a < resources.len() && marks[a] && #[trigger] refers(resources, a, b) ==> 0 <= b
                < resources.len() && marks[b],
        0 <= i < path.len(),
    ensures
        marks[path[i]],
    decreases i,
{
    if i > 0 {
        lemma_closed(resources, marks, path, i - 1);
        assert(refers(resources, path[i - 1], path[i - 1 + 1]));
    }
}

/// The number of resources which are not marked.
pub open spec fn unmarked(marks: Seq<bool>) -> nat
    decreases marks.len(),
{
    if marks.len() == 0 {
        0
    } else {
        unmarked(marks.drop_last()) + if marks.last() {
            0nat
        } else {
            1nat
        }
    }
}

/// Fewer resources are unmarked after one of them is marked.
proof fn lemma_mark(marks: Seq<bool>, r: int)
    requires
        0 <= r < marks.len(),
        !marks[r],
    ensures
        unmarked(marks.update(r, true)) + 1 == unmarked(marks),
    decreases marks.len(),
{
    let after = marks.update(r, true);
    if r == marks.len() - 1 {
        assert(after.drop_last() =~= marks.drop_last());
    } else {
        assert(after.drop_last() =~= marks.drop_last().update(r, true));
        lemma_mark(marks.drop_last(), r);
    }
}

/// No more resources are unmarked after some of them are marked.
proof fn lemma_marks_grow(before: Seq<bool>, after: Seq<bool>)
    requires
        before.len() == after.len(),
        forall|r: int| 0 <= r < before.len() && before[r] ==> after[r],
    ensures
        unmarked(after) <= unmarked(before),
    decreases before.len(),
{
    if before.len() > 0 {
        lemma_marks_grow(before.drop_last(), after.drop_last());
    }
}

/// The statement which creates the table of a resource.
#[derive(Debug)]
pub struct Dependency {
    /// The position in the schema of the resource.
    pub resource: usize,
    /// The `CREATE TABLE` statement.
    pub statement: CreateTable,
}

impl Dependency {
    /// Whether this is the statement which creates the table of its resource: the table has the
    /// name of the table of the resource and one column for each field, and no constraints.
    pub open spec fn wf(self, layout: Layout) -> bool {
        &&& self.resource < layout.schema@.len()
        &&& self.statement.table == layout.tables@[self.resource as int]
        &&& self.statement.columns@ == schema_columns(layout, self.resource as int)
        &&& self.statement.constraints@.len() == 0
    }
}

/// Whether a resource has a statement among `dependencies`.
pub open spec fn registers(dependencies: Seq<Dependency>, r: int) -> bool {
    exists|i: int| 0 <= i < dependencies.len() && (#[trigger] dependencies[i]).resource == r
}

/// Whether no two of `dependencies` are for the same resource.
pub open spec fn once(dependencies: Seq<Dependency>) -> bool {
    forall|i: int, j: int|
        0 <= i < j < dependencies.len() ==> (#[trigger] dependencies[i]).resource != (
        #[trigger] dependencies[j]).resource
}

/// What holds while resources are registered, when the resources in `active` are in progress.
///
/// Every marked resource is reachable. A marked resource is in progress, or it has a statement
/// and the resources that it refers to are marked.
spec fn registering(
    layout: Layout,
    root: int,
    marks: Seq<bool>,
    dependencies: Seq<Dependency>,
    active: Set<int>,
) -> bool {
    let resources = layout.schema@;
    &&& marks.len() == resources.len()
    &&& forall|r: int| 0 <= r < marks.len() && #[trigger] marks[r] ==> reachable(resources, root, r)
    &&& forall|r: int| #[trigger] active.contains(r) ==> 0 <= r < marks.len() && marks[r]
    &&& forall|a: int, b: int|
        0 <= a < marks.len() && marks[a] && !active.contains(a) && #[trigger] refers(resources, a, b)
            ==> 0 <= b < marks.len() && marks[b]
    &&& forall|r: int|
        0 <= r < marks.len() && #[trigger] marks[r] && !active.contains(r) ==> registers(
            dependencies,
            r,
        )
    &&& forall|i: int|
        0 <= i < dependencies.len() ==> (#[trigger] dependencies[i]).wf(layout)
            && marks[dependencies[i].resource as int] && !active.contains(
            dependencies[i].resource as int,
        )
    &&& once(dependencies)
}

/// The visitor which tells the resource of the items of each plural field.
pub struct Singulars;

impl PluralFieldVisitor for Singulars {
    type Output = usize;

    open spec fn visits(self, field: PluralField, after: Self, output: usize) -> bool {
        output == field.singular
    }

    fn visit(&mut self, field: &PluralField) -> (output: usize) {
        field.singular
    }
}

/// The column of the table of a resource for the field at position `field`.
fn schema_column(layout: &Layout, resource: usize, field: usize) -> (c: SchemaColumn)
    requires
        layout.wf(),
        resource < layout.schema@.len(),
        field < layout.schema@[resource as int].fields@.len(),
    ensures
        c == schema_columns(*layout, resource as int)[field as int],
{
    let definition = layout.schema.resource(resource);
    let ty = if definition.is_id(field) {
        db::Type::Serial
    } else {
        match definition.fields[field].ty {
            // If the field is a scalar, just create a column of the corresponding type.
            Type::Scalar(kind) => lower_scalar_type(kind),
            // Add the corresponding ID as a foreign key on this table.
            Type::Resource(_) => db::Type::Int8,
        }
    };
    SchemaColumn::new(layout.column(resource, field), ty)
}

/// Register the resource at position `resource`, and every resource that it refers to, unless
/// they are registered or in progress.
///
/// Nothing happens where the resource is registered or in progress: this is what ends the
/// traversal of resources which refer to themselves or to one another, and keeps each table to
/// one statement.
#[verifier::loop_isolation(false)]
fn register_resource(
    layout: &Layout,
    resource: usize,
    marks: &mut Vec<bool>,
    dependencies: &mut Vec<Dependency>,
    Ghost(root): Ghost<int>,
    Ghost(active): Ghost<Set<int>>,
)
    requires
        layout.wf(),
        resource < layout.schema@.len(),
        reachable(layout.schema@, root, resource as int),
        registering(*layout, root, old(marks)@, old(dependencies)@, active),
    ensures
        registering(*layout, root, final(marks)@, final(dependencies)@, active),
        final(marks)@[resource as int],
        forall|r: int| 0 <= r < old(marks)@.len() && old(marks)@[r] ==> final(marks)@[r],
        old(marks)@[resource as int] ==> final(marks)@ == old(marks)@ && final(dependencies)@
            == old(dependencies)@,
    decreases unmarked(old(marks)@),
{
    let ghost resources = layout.schema@;
    let ghost marks0 = marks@;
    // If this table is already in the list of tables to register, we have nothing more to do.
    if marks[resource] {
        return ;
    }
    // Insert a placeholder here so if this type references itself recursively, we won't
    // recursively try to register the same type again.
    marks.set(resource, true);
    let ghost inner = active.insert(resource as int);
    proof {
        lemma_mark(marks0, resource as int);
        assert(registering(*layout, root, marks@, dependencies@, inner));
    }
    let definition = layout.schema.resource(resource);
    let mut columns: Vec<SchemaColumn> = Vec::new();
    let mut f: usize = 0;
    while f < definition.fields.len()
        invariant
            f <= definition.fields@.len(),
            registering(*layout, root, marks@, dependencies@, inner),
            marks@[resource as int],
            forall|r: int| 0 <= r < marks0.len() && marks0[r] ==> marks@[r],
            unmarked(marks@) < unmarked(marks0),
            columns@ == schema_columns(*layout, resource as int).take(f as int),
            forall|g: int|
                0 <= g < f ==> ((#[trigger] definition.fields@[g]).ty matches Type::Resource(t) ==> t
                    < marks@.len() && marks@[t as int]),
        decreases definition.fields@.len() - f,
    {
        proof {
            assert(Schema::resource_wf(resources, resource as int));
        }
        match definition.fields[f].ty {
            Type::Resource(t) => {
                // If the field is a reference to another table, make sure that table is
                // registered.
                proof {
                    assert(definition.fields@[f as int].ty matches Type::Resource(u) && u == t);
                    assert(refers(resources, resource as int, t as int));
                    lemma_reachable_step(resources, root, resource as int, t as int);
                }
                let ghost held = marks@;
                register_resource(layout, t, marks, dependencies, Ghost(root), Ghost(inner));
                proof {
                    lemma_marks_grow(held, marks@);
                }
            },
            Type::Scalar(_) => {},
        }
        columns.push(schema_column(layout, resource, f));
        proof {
            let all = schema_columns(*layout, resource as int);
            assert(all.take(f + 1) =~= all.take(f as int).push(all[f as int]));
        }
        f += 1;
    }
    // A plural field is implemented as a foreign key on another table referencing this one, so
    // for this table, we have nothing to do. But we still have to traverse the referenced type
    // and make sure all the appropriate tables are created.
    let mut visitor = Singulars;
    let targets = definition.describe_plural_fields(&mut visitor);
    proof {
        let states = choose|states: Seq<Singulars>|
            #[trigger] describes_plural(definition.plural_fields@, states, targets@);
        assert forall|q: int| 0 <= q < targets@.len() implies (#[trigger] targets@[q])
            == definition.plural_fields@[q].singular by {
            assert(states[q].visits(definition.plural_fields@[q], states[q + 1], targets@[q]));
        }
    }
    let mut p: usize = 0;
    while p < targets.len()
        invariant
            p <= definition.plural_fields@.len(),
            targets@.len() == definition.plural_fields@.len(),
            forall|q: int|
                0 <= q < targets@.len() ==> (#[trigger] targets@[q])
                    == definition.plural_fields@[q].singular,
            registering(*layout, root, marks@, dependencies@, inner),
            marks@[resource as int],
            forall|r: int| 0 <= r < marks0.len() && marks0[r] ==> marks@[r],
            unmarked(marks@) < unmarked(marks0),
            forall|g: int|
                0 <= g < definition.fields@.len() ==> ((
                #[trigger] definition.fields@[g]).ty matches Type::Resource(t) ==> t < marks@.len()
                    && marks@[t as int]),
            forall|q: int|
                0 <= q < p ==> (#[trigger] definition.plural_fields@[q]).singular < marks@.len()
                    && marks@[definition.plural_fields@[q].singular as int],
        decreases definition.plural_fields@.len() - p,
    {
        let target = targets[p];
        proof {
            assert(Schema::resource_wf(resources, resource as int));
            assert(plural_field_wf(resources, resource as int, definition.plural_fields@[p as int]));
            assert(refers(resources, resource as int, target as int));
            lemma_reachable_step(resources, root, resource as int, target as int);
        }
        let ghost held = marks@;
        register_resource(layout, target, marks, dependencies, Ghost(root), Ghost(inner));
        proof {
            lemma_marks_grow(held, marks@);
        }
        p += 1;
    }
    // Create the statement to register this table.
    let ghost held = dependencies@;
    proof {
        let all = schema_columns(*layout, resource as int);
        assert(all.take(all.len() as int) =~= all);
    }
    let statement = CreateTable::new(layout.table(resource), columns);
    dependencies.push(Dependency { resource, statement });
    proof {
        assert(!active.contains(resource as int));
        assert forall|a: int, b: int|
            0 <= a < marks@.len() && marks@[a] && !active.contains(a) && #[trigger] refers(
                resources,
                a,
                b,
            ) implies 0 <= b < marks@.len() && marks@[b] by {
            if a == resource {
                if exists|f: int|
                    0 <= f < resources[a].fields@.len() && ((
                    #[trigger] resources[a].fields@[f]).ty matches Type::Resource(t) && t == b) {
                    let f = choose|f: int|
                        0 <= f < resources[a].fields@.len() && ((
                        #[trigger] resources[a].fields@[f]).ty matches Type::Resource(t) && t == b);
                    assert(definition.fields@[f].ty matches Type::Resource(t) && t == b);
                } else {
                    let q = choose|q: int|
                        0 <= q < resources[a].plural_fields@.len() && (
                        #[trigger] resources[a].plural_fields@[q]).singular == b;
                    assert(definition.plural_fields@[q].singular == b);
                }
            } else {
                assert(!inner.contains(a));
            }
        }
        assert forall|r: int|
            0 <= r < marks@.len() && #[trigger] marks@[r] && !active.contains(r) implies registers(
            dependencies@,
            r,
        ) by {
            if r == resource {
                assert(dependencies@[held.len() as int].resource == r);
            } else {
                assert(!inner.contains(r));
                assert(registers(held, r));
                let i = choose|i: int| 0 <= i < held.len() && (#[trigger] held[i]).resource == r;
                assert(dependencies@[i] == held[i]);
            }
        }
        assert forall|i: int| 0 <= i < dependencies@.len() implies (#[trigger] dependencies@[i]).wf(
            *layout,
        ) && marks@[dependencies@[i].resource as int] && !active.contains(
            dependencies@[i].resource as int,
        ) by {
            if i < held.len() {
                assert(dependencies@[i] == held[i]);
                assert(!inner.contains(held[i].resource as int));
            }
        }
        assert forall|i: int, j: int| 0 <= i < j < dependencies@.len() implies (
        #[trigger] dependencies@[i]).resource != (#[trigger] dependencies@[j]).resource by {
            assert(dependencies@[i] == held[i]);
            if j < held.len() {
                assert(dependencies@[j] == held[j]);
            } else {
                assert(!inner.contains(held[i].resource as int));
            }
        }
    }
}

/// The statements which register the resource at position `resource` in the database schema.
///
/// There is exactly one statement for the resource and for each resource that it refers to,
/// directly or through other resources, by a field or a plural field; it creates the table of
/// that resource. Resources which refer to themselves or to one another are registered once.
pub fn dependencies(layout: &Layout, resource: usize) -> (r: Vec<Dependency>)
    requires
        layout.wf(),
        resource < layout.schema@.len(),
    ensures
        once(r@),
        forall|i: int| 0 <= i < r@.len() ==> (#[trigger] r@[i]).wf(*layout),
        forall|q: int|
            registers(r@, q) <==> 0 <= q < layout.schema@.len() && reachable(
                layout.schema@,
                resource as int,
                q,
            ),
{
    let mut marks: Vec<bool> = Vec::new();
    while marks.len() < layout.schema.len()
        invariant
            marks@.len() <= layout.schema@.len(),
            forall|r: int| 0 <= r < marks@.len() ==> !(#[trigger] marks@[r]),
        decreases layout.schema@.len() - marks@.len(),
    {
        marks.push(false);
    }
    let mut dependencies: Vec<Dependency> = Vec::new();
    proof {
        let path = seq![resource as int];
        assert(is_path(layout.schema@, path) && path.first() == resource && path.last()
            == resource);
    }
    register_resource(
        layout,
        resource,
        &mut marks,
        &mut dependencies,
        Ghost(resource as int),
        Ghost(Set::empty()),
    );
    proof {
        let resources = layout.schema@;
        assert forall|q: int|
            registers(dependencies@, q) <==> 0 <= q < resources.len() && reachable(
                resources,
                resource as int,
                q,
            ) by {
            if registers(dependencies@, q) {
                let i = choose|i: int|
                    0 <= i < dependencies@.len() && (#[trigger] dependencies@[i]).resource == q;
                assert(dependencies@[i].wf(*layout));
            }
            if reachable(resources, resource as int, q) {
                let path = choose|path: Seq<int>| #[trigger]
                    is_path(resources, path) && path.first() == resource && path.last() == q;
                lemma_closed(resources, marks@, path, path.len() - 1);
            }
        }
    }
    dependencies
}

/// The table which is created for the resource at position `r`.
pub open spec fn table_of(layout: Layout, r: int) -> TableView {
    TableView::new(layout.tables@[r], schema_columns(layout, r))
}

/// A table keeps its place in a database when tables are created after it.
proof fn lemma_lookup_extends(before: Seq<TableView>, after: Seq<TableView>, name: Seq<char>)
    requires
        before.len() <= after.len(),
        forall|i: int| 0 <= i < before.len() ==> after[i] == before[i],
        lookup(before, name) is Some,
    ensures
        lookup(after, name) == lookup(before, name),
{
    lemma_position(table_names(before), name);
    lemma_position(table_names(after), name);
    let i = lookup(before, name)->Some_0;
    assert(table_names(after)[i] == table_names(before)[i]);
    assert forall|j: int| 0 <= j < i implies (#[trigger] table_names(after)[j])@ != name by {
        assert(table_names(after)[j] == table_names(before)[j]);
    }
    match lookup(after, name) {
        Some(k) => {
            if k < i {
                assert(table_names(after)[k]@ != name);
            }
        },
        None => {
            assert(table_names(after)[i]@ == name);
        },
    }
}

/// Whether the tables `after` are the tables `before` after the registration of the resource
/// at position `resource`: the tables which existed are as they were; every reachable resource
/// has a table, which is the table that is created for the resource unless a table of that name
/// existed; and every other table was created for a reachable resource.
pub open spec fn registered(
    before: Seq<TableView>,
    after: Seq<TableView>,
    layout: Layout,
    resource: int,
) -> bool {
    &&& before.len() <= after.len()
    &&& forall|i: int| 0 <= i < before.len() ==> (#[trigger] after[i]) == before[i]
    &&& forall|q: int|
        0 <= q < layout.schema@.len() && #[trigger] reachable(layout.schema@, resource, q) ==> (
        lookup(after, layout.tables@[q]@) matches Some(i) && 0 <= i < after.len() && (lookup(
            before,
            layout.tables@[q]@,
        ) is None ==> after[i] == table_of(layout, q)))
    &&& forall|i: int|
        before.len() <= i < after.len() ==> exists|q: int|
            0 <= q < layout.schema@.len() && reachable(layout.schema@, resource, q) && (
            #[trigger] after[i]) == #[trigger] table_of(layout, q)
}

/// Register the resource at position `resource` in the database schema.
///
/// A table is created for the resource and for each resource that it refers to, directly or
/// through other resources, by a field or a plural field. A table which exists is left as it is,
/// and no other table is created.
#[verifier::loop_isolation(false)]
pub fn execute(conn: &mut Connection, layout: &Layout, resource: usize) -> (r: Result<(), Error>)
    requires
        old(conn).wf(),
        layout.wf(),
        resource < layout.schema@.len(),
    ensures
        final(conn).wf(),
        r == Ok::<(), Error>(()),
        registered(old(conn)@, final(conn)@, *layout, resource as int),
{
    let ghost before = conn@;
    let ghost resources = layout.schema@;
    let statements = dependencies(layout, resource);
    let ghost given = statements@;
    let total = statements.len();
    let mut statements = db::reverse(statements);
    let mut k: usize = 0;
    while k < total
        invariant
            k <= total,
            total == given.len(),
            statements@ == given.reverse().take(total - k),
            conn.wf(),
            before.len() <= conn@.len(),
            forall|i: int| 0 <= i < before.len() ==> (#[trigger] conn@[i]) == before[i],
            forall|j: int|
                0 <= j < k ==> (lookup(conn@, layout.tables@[(#[trigger] given[j]).resource as int]@) matches Some(
                    i,
                ) && (lookup(before, layout.tables@[given[j].resource as int]@) is None ==> conn@[i]
                    == table_of(*layout, given[j].resource as int))),
            forall|i: int|
                before.len() <= i < conn@.len() ==> exists|j: int|
                    0 <= j < k && (#[trigger] conn@[i]) == table_of(
                        *layout,
                        (#[trigger] given[j]).resource as int,
                    ),
        decreases total - k,
    {
        let ghost held = conn@;
        let ghost rest = statements@;
        let dependency = statements.pop().unwrap();
        proof {
            assert(dependency == rest.last());
            assert(dependency == given[k as int]);
            assert(statements@ =~= given.reverse().take(total - k - 1));
            assert(dependency.wf(*layout));
        }
        let ghost q = dependency.resource as int;
        let ghost name = layout.tables@[q];
        let _ = dependency.statement.execute(conn);
        proof {
            assert(conn@ == created(held, name, schema_columns(*layout, q)));
            lemma_position(table_names(held), name@);
            lemma_position(table_names(conn@), name@);
            lemma_position(table_names(before), name@);
            if lookup(held, name@) is None {
                assert(conn@ == held.push(table_of(*layout, q)));
                assert(table_names(conn@)[held.len() as int]@ == name@);
                assert forall|j: int| 0 <= j < held.len() implies (#[trigger] table_names(conn@)[j])@
                    != name@ by {
                    assert(table_names(conn@)[j] == table_names(held)[j]);
                }
                assert(lookup(conn@, name@) == Some(held.len() as int));
                if lookup(before, name@) is Some {
                    lemma_lookup_extends(before, held, name@);
                }
            } else {
                if lookup(before, name@) is None {
                    // The table was created by an earlier statement for the same table, which
                    // is the statement for the same resource.
                    let i = lookup(held, name@)->Some_0;
                    assert(table_names(held)[i] == held[i].name);
                    if i < before.len() {
                        assert(held[i] == before[i]);
                        assert(table_names(before)[i] == before[i].name);
                        assert(table_names(before)[i]@ == name@);
                    } else {
                        let j = choose|j: int|
                            0 <= j < k && (#[trigger] held[i]) == table_of(
                                *layout,
                                (#[trigger] given[j]).resource as int,
                            );
                        assert(given[j].wf(*layout));
                        assert(held[i].name == layout.tables@[given[j].resource as int]);
                        if given[j].resource != q {
                            if given[j].resource < q {
                                assert(layout.tables@[given[j].resource as int]@ != layout.tables@[q]@);
                            } else {
                                assert(layout.tables@[q]@ != layout.tables@[given[j].resource as int]@);
                            }
                        }
                        assert(held[i] == table_of(*layout, q));
                    }
                }
            }
            assert forall|j: int| 0 <= j < k + 1 implies (lookup(
                conn@,
                layout.tables@[(#[trigger] given[j]).resource as int]@,
            ) matches Some(i) && (lookup(before, layout.tables@[given[j].resource as int]@) is None
                ==> conn@[i] == table_of(*layout, given[j].resource as int))) by {
                let other = layout.tables@[given[j].resource as int]@;
                lemma_position(table_names(conn@), other);
                if j < k {
                    lemma_position(table_names(held), other);
                    lemma_lookup_extends(held, conn@, other);
                    let i = lookup(held, other)->Some_0;
                    assert(conn@[i] == held[i]);
                }
            }
            assert forall|i: int| before.len() <= i < conn@.len() implies exists|j: int|
                0 <= j < k + 1 && (#[trigger] conn@[i]) == table_of(
                    *layout,
                    (#[trigger] given[j]).resource as int,
                ) by {
                if i < held.len() {
                    let j = choose|j: int|
                        0 <= j < k && (#[trigger] held[i]) == table_of(
                            *layout,
                            (#[trigger] given[j]).resource as int,
                        );
                    assert(0 <= j < k + 1 && conn@[i] == table_of(*layout, given[j].resource as int));
                } else {
                    assert(conn@[i] == table_of(*layout, given[k as int].resource as int));
                }
            }
        }
        k += 1;
    }
    proof {
        assert forall|q: int|
            0 <= q < resources.len() && #[trigger] reachable(resources, resource as int, q) implies (
        lookup(conn@, layout.tables@[q]@) matches Some(i) && 0 <= i < conn@.len() && (lookup(
            before,
            layout.tables@[q]@,
        ) is None ==> conn@[i] == table_of(*layout, q))) by {
            assert(registers(given, q));
            let j = choose|j: int| 0 <= j < given.len() && (#[trigger] given[j]).resource == q;
            assert(given[j].resource == q);
            lemma_position(table_names(conn@), layout.tables@[q]@);
        }
        assert forall|i: int| before.len() <= i < conn@.len() implies exists|q: int|
            0 <= q < resources.len() && reachable(resources, resource as int, q) && (
            #[trigger] conn@[i]) == #[trigger] table_of(*layout, q) by {
            let j = choose|j: int|
                0 <= j < total && (#[trigger] conn@[i]) == table_of(
                    *layout,
                    (#[trigger] given[j]).resource as int,
                );
            assert(registers(given, given[j].resource as int));
        }
    }
    Ok(())
}

} // verus!
