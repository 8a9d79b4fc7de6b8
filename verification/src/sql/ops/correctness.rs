//! What insertion and selection do to the items of a resource whose fields are all scalars,
//! stored in the in-memory database.

use super::insert::{
    input_columns, input_field, input_types, input_value, input_values, row, rows, stored_kind,
};
use super::select::{
    applies, built, built_field, built_fields, compiled, compiled_field, compiled_fields, found,
    lowered, parsed, planned, ColumnMapView, ScalarWhereCondition,
};
use super::register::{column_type, schema_columns, table_of};
use super::{scalar_type, scalar_value, value_scalar, Error, Layout};
use crate::graphql::type_system::{
    instance_view, resource_implemented, Has, Id, Instance, InstanceView, Predicate, RecordView, Resource,
    ResourcePredicate, Scalar, ScalarKind, ScalarPredicate, Schema, Type, Value,
};
use crate::sql::db;
use crate::sql::db::mock::{
    base_rows, filter_step, filtered, inserted, is_explicit, is_serial, joined, kept, lookup,
    meets, names, outcome, places, projected, resolved, selected, source_names, table_names,
    value_at, Operand, TableView,
};
use crate::sql::db::{Clause, Op, SchemaColumn, SelectColumn, WhereClause};
use crate::text::{
    distinct, last_position, lemma_last_position, lemma_position, lemma_position_distinct, position,
};
use vstd::prelude::*;

verus! {

/// Whether every field of `resource` is a scalar.
pub open spec fn scalar_only(resource: Resource) -> bool {
    forall|f: int| 0 <= f < resource.fields@.len() ==> (#[trigger] resource.fields@[f]).ty is Scalar
}

/// The kind of the scalar field at position `f` of `resource`.
pub open spec fn kind_of(resource: Resource, f: int) -> ScalarKind {
    resource.fields@[f].ty->Scalar_0
}

/// The position of the column of the field at position `f` among the columns of the table of
/// `resource`: the column of the ID comes first, then the columns of the input fields.
pub open spec fn place(resource: Resource, f: int) -> int {
    if f == resource.id {
        0
    } else if f < resource.id {
        f + 1
    } else {
        f
    }
}

/// The position of the field whose column is at position `p` among the columns of the table of
/// `resource`.
pub open spec fn field_at(resource: Resource, p: int) -> int {
    if p == 0 {
        resource.id as int
    } else {
        input_field(resource, p - 1)
    }
}

/// Whether the table at position `t` holds the items of the resource at position `r`: it has the
/// name of the table of the resource, the column of the ID is the one column that the database
/// fills in, and the explicit columns are those of the input fields, in their order.
pub open spec fn holds_items(tables: Seq<TableView>, layout: Layout, r: int, t: int) -> bool {
    &&& lookup(tables, layout.tables@[r]@) == Some(t)
    &&& names(tables[t].serial_cols) == seq![layout.columns@[r]@[layout.schema@[r].id as int]]
    &&& names(tables[t].explicit_cols) == input_columns(layout, r)
}

/// The columns that are selected for a resource whose fields are all scalars: the column of
/// each field, in the order of the fields.
pub open spec fn field_columns(layout: Layout, r: int, count: int) -> Seq<SelectColumn> {
    Seq::new(count as nat, |f: int| SelectColumn::Column(layout.qualified(r, f)))
}

/// The column map for a resource whose fields are all scalars selects the column of each field,
/// in the order of the fields, and holds no join.
pub proof fn lemma_scalar_columns(layout: Layout, r: int, count: int)
    requires
        layout.wf(),
        0 <= r < layout.schema@.len(),
        scalar_only(layout.schema@[r]),
        0 <= count <= layout.schema@[r].fields@.len(),
    ensures
        ({
            let m = ColumnMapView::empty(layout).with_fields(layout, r, count);
            &&& m.columns == field_columns(layout, r, count)
            &&& m.joins == Seq::<super::select::Join>::empty()
            &&& m.index.len() == layout.schema@.len()
            &&& m.index[r] == Seq::new(
                layout.schema@[r].fields@.len(),
                |f: int|
                    if f < count {
                        Some(f as usize)
                    } else {
                        None
                    },
            )
        }),
    decreases count,
{
    let resource = layout.schema@[r];
    let m = ColumnMapView::empty(layout).with_fields(layout, r, count);
    assert(resource.fields.len() == resource.fields@.len());
    if count > 0 {
        lemma_scalar_columns(layout, r, count - 1);
        let before = ColumnMapView::empty(layout).with_fields(layout, r, count - 1);
        assert(resource.fields@[count - 1].ty is Scalar);
        assert(m == before.pushed(layout, r, count - 1));
        assert(m.columns =~= field_columns(layout, r, count));
        assert(m.index[r] =~= Seq::new(
            resource.fields@.len(),
            |f: int|
                if f < count {
                    Some(f as usize)
                } else {
                    None
                },
        ));
    } else {
        assert(m.columns =~= field_columns(layout, r, count));
        assert(m.index[r] =~= Seq::new(
            resource.fields@.len(),
            |f: int|
                if f < count {
                    Some(f as usize)
                } else {
                    None
                },
        ));
    }
}

/// The column of a field is found at its place among the columns of a table which holds the
/// items of the resource.
pub proof fn lemma_column_place(tables: Seq<TableView>, layout: Layout, r: int, t: int, f: int)
    requires
        layout.wf(),
        0 <= r < layout.schema@.len(),
        holds_items(tables, layout, r, t),
        0 <= f < layout.schema@[r].fields@.len(),
    ensures
        tables[t].column(layout.columns@[r]@[f]@) == Some(place(layout.schema@[r], f)),
        names(tables[t].schema()).len() == layout.schema@[r].fields@.len(),
        0 <= place(layout.schema@[r], f) < layout.schema@[r].fields@.len(),
{
    let resource = layout.schema@[r];
    let columns = layout.columns@[r]@;
    assert(Schema::resource_wf(layout.schema@, r));
    let all = names(tables[t].schema());
    assert(all =~= names(tables[t].serial_cols) + names(tables[t].explicit_cols));
    assert forall|p: int| 0 <= p < all.len() implies #[trigger] all[p] == columns[field_at(
        resource,
        p,
    )] && 0 <= field_at(resource, p) < columns.len() by {
        if p > 0 {
            assert(all[p] == input_columns(layout, r)[p - 1]);
        }
    }
    let name = columns[f]@;
    lemma_last_position(all, name);
    let p = place(resource, f);
    assert(all[p] == columns[field_at(resource, p)]);
    assert(field_at(resource, p) == f);
    match last_position(all, name) {
        Some(q) => {
            if q != p {
                let g = field_at(resource, q);
                assert(all[q] == columns[g]);
                assert(g != f);
                if g < f {
                    assert(columns[g]@ != columns[f]@);
                } else {
                    assert(columns[f]@ != columns[g]@);
                }
            }
        },
        None => {
            assert(all[p]@ == name);
        },
    }
}

/// The places of the columns that are selected for a resource whose fields are all scalars, in
/// a table which holds the items of the resource.
pub open spec fn field_places(resource: Resource, count: int) -> Seq<(usize, usize)> {
    Seq::new(count as nat, |f: int| (0usize, place(resource, f) as usize))
}

/// The columns of the fields are found at their places.
pub proof fn lemma_field_places(tables: Seq<TableView>, layout: Layout, r: int, t: int, count: int)
    requires
        layout.wf(),
        0 <= r < layout.schema@.len(),
        holds_items(tables, layout, r, t),
        0 <= t < tables.len() <= usize::MAX,
        0 <= count <= layout.schema@[r].fields@.len(),
    ensures
        places(tables, seq![t as usize], field_columns(layout, r, count)) == Ok::<
            Seq<(usize, usize)>,
            db::Error,
        >(field_places(layout.schema@[r], count)),
    decreases count,
{
    let resource = layout.schema@[r];
    let sources = seq![t as usize];
    let columns = field_columns(layout, r, count);
    assert(resource.fields.len() == resource.fields@.len());
    if count > 0 {
        lemma_field_places(tables, layout, r, t, count - 1);
        assert(columns.drop_last() =~= field_columns(layout, r, count - 1));
        let f = count - 1;
        lemma_resolved(tables, layout, r, t, f);
        assert(field_places(resource, count - 1).push((0usize, place(resource, f) as usize))
            =~= field_places(resource, count));
    } else {
        assert(field_places(resource, count) =~= Seq::<(usize, usize)>::empty());
    }
}

/// The column of a field is found in the table which holds the items of the resource.
pub proof fn lemma_resolved(tables: Seq<TableView>, layout: Layout, r: int, t: int, f: int)
    requires
        layout.wf(),
        0 <= r < layout.schema@.len(),
        holds_items(tables, layout, r, t),
        0 <= t < tables.len() <= usize::MAX,
        0 <= f < layout.schema@[r].fields@.len(),
    ensures
        resolved(tables, seq![t as usize], layout.qualified(r, f)) == Some(
            (0usize, place(layout.schema@[r], f) as usize),
        ),
{
    let resource = layout.schema@[r];
    let sources = seq![t as usize];
    let name = layout.tables@[r]@;
    lemma_position(table_names(tables), name);
    assert(table_names(tables)[t] == tables[t].name);
    let sources_names = source_names(tables, sources);
    assert(sources_names[0] == tables[t].name);
    lemma_position(sources_names, name);
    assert(position(sources_names, name) == Some(0int));
    lemma_column_place(tables, layout, r, t, f);
    assert(resource.fields.len() == resource.fields@.len());
}

/// The rows that are selected, without a filter, for a resource whose fields are all scalars:
/// one for each row of the table, with the values of the columns of the fields.
pub open spec fn field_rows(table: TableView, resource: Resource) -> Seq<Seq<db::Value>> {
    Seq::new(
        table.rows.len(),
        |i: int| Seq::new(resource.fields@.len(), |f: int| table.rows[i][place(resource, f)]),
    )
}

/// The rows that a query without clauses selects from a table which holds the items of a
/// resource whose fields are all scalars.
pub proof fn lemma_selected_all(tables: Seq<TableView>, layout: Layout, r: int, t: int)
    requires
        layout.wf(),
        0 <= r < layout.schema@.len(),
        holds_items(tables, layout, r, t),
        crate::sql::db::mock::wf(tables),
        0 <= t < tables.len(),
    ensures
        selected(
            tables,
            field_columns(layout, r, layout.schema@[r].fields@.len() as int),
            layout.tables@[r],
            Seq::empty(),
        ) == Ok::<Seq<Seq<db::Value>>, db::Error>(field_rows(tables[t], layout.schema@[r])),
{
    let resource = layout.schema@[r];
    let n = resource.fields@.len() as int;
    let table = tables[t];
    assert(table.wf());
    let sources = seq![t as usize];
    let combos = base_rows(table.rows.len() as usize);
    assert(joined(tables, layout.tables@[r], Seq::empty()) == Ok::<
        (Seq<usize>, Seq<Seq<usize>>),
        db::Error,
    >((sources, combos)));
    assert(filtered(tables, sources, combos, Seq::empty()) == Ok::<Seq<Seq<usize>>, db::Error>(
        combos,
    ));
    lemma_field_places(tables, layout, r, t, n);
    let found = field_places(resource, n);
    let rows = Seq::new(combos.len(), |i: int| projected(tables, sources, combos[i], found));
    assert(rows.len() == field_rows(table, resource).len());
    assert forall|i: int| 0 <= i < rows.len() implies rows[i] == field_rows(table, resource)[i] by {
        assert forall|f: int| 0 <= f < n implies rows[i][f] == table.rows[i][place(resource, f)] by {
            lemma_column_place(tables, layout, r, t, f);
            assert(found[f] == (0usize, place(resource, f) as usize));
            assert(combos[i] == seq![i as usize]);
        }
        assert(rows[i] =~= field_rows(table, resource)[i]);
    }
    assert(rows =~= field_rows(table, resource));
}

/// The objects that are reconstructed for the first `count` fields of a resource whose fields are
/// all scalars, from a row which holds the value of each field at the position of the field.
pub open spec fn scalars(resource: Resource, row: Seq<db::Value>, count: int) -> Seq<InstanceView> {
    Seq::new(
        count as nat,
        |f: int| InstanceView::Scalar(value_scalar(kind_of(resource, f), row[f])->Some_0),
    )
}

/// Whether the values of a row have the types of the first `count` fields of `resource`.
pub open spec fn typed(resource: Resource, row: Seq<db::Value>, count: int) -> bool {
    forall|f: int|
        0 <= f < count ==> (#[trigger] row[f]).ty() == scalar_type(kind_of(resource, f))
}

/// The fields of an item of a resource whose fields are all scalars are reconstructed exactly
/// when the values of the row have the types of the fields.
pub proof fn lemma_built_fields(
    layout: Layout,
    index: Seq<Seq<Option<usize>>>,
    row: Seq<db::Value>,
    r: int,
    count: int,
)
    requires
        layout.wf(),
        0 <= r < layout.schema@.len(),
        scalar_only(layout.schema@[r]),
        index[r] == Seq::new(layout.schema@[r].fields@.len(), |f: int| Some(f as usize)),
        row.len() == layout.schema@[r].fields@.len(),
        0 <= count <= layout.schema@[r].fields@.len(),
    ensures
        built_fields(layout, index, row, r, count) is Ok <==> typed(layout.schema@[r], row, count),
        built_fields(layout, index, row, r, count) is Ok ==> built_fields(
            layout,
            index,
            row,
            r,
            count,
        )->Ok_0 == scalars(layout.schema@[r], row, count),
    decreases count,
{
    let resource = layout.schema@[r];
    assert(resource.fields.len() == resource.fields@.len());
    if count > 0 {
        lemma_built_fields(layout, index, row, r, count - 1);
        let f = count - 1;
        assert(resource.fields@[f].ty is Scalar);
        assert(index[r][f] == Some(f as usize));
        let kind = kind_of(resource, f);
        lemma_value_scalar(kind, row[f]);
        let before = built_fields(layout, index, row, r, count - 1);
        let field = built_field(layout, index, row, r, f);
        assert(field == match value_scalar(kind, row[f]) {
            Some(s) => Ok::<InstanceView, Error>(InstanceView::Scalar(s)),
            None => Err(Error::TypeMismatch { expected: kind, got: row[f].ty() }),
        });
        assert(built_fields(layout, index, row, r, count) == match before {
            Err(e) => Err::<Seq<InstanceView>, Error>(e),
            Ok(fields) => match field {
                Ok(value) => Ok(fields.push(value)),
                Err(e) => Err(e),
            },
        });
        if built_fields(layout, index, row, r, count) is Ok {
            assert(typed(resource, row, count - 1));
            assert(scalars(resource, row, count - 1).push(
                InstanceView::Scalar(value_scalar(kind, row[f])->Some_0),
            ) =~= scalars(resource, row, count));
            assert forall|g: int| 0 <= g < count implies (#[trigger] row[g]).ty() == scalar_type(
                kind_of(resource, g),
            ) by {
                if g < count - 1 {
                    assert(typed(resource, row, count - 1));
                }
            }
        }
        if typed(resource, row, count) {
            assert forall|g: int| 0 <= g < count - 1 implies (#[trigger] row[g]).ty()
                == scalar_type(kind_of(resource, g)) by {}
            assert(typed(resource, row, count - 1));
            assert(row[f].ty() == scalar_type(kind));
        }
    } else {
        assert(scalars(resource, row, count) =~= Seq::<InstanceView>::empty());
    }
}

/// A value represents a scalar of a kind exactly when it has the type for that kind, and then
/// it is the value which represents that scalar.
pub proof fn lemma_value_scalar(kind: ScalarKind, value: db::Value)
    ensures
        value_scalar(kind, value) is Some <==> value.ty() == scalar_type(kind),
        value_scalar(kind, value) matches Some(s) ==> scalar_value(s) == value && s.kind() == kind,
{
}

/// Items are reconstructed from rows exactly when an item is reconstructed from each row, and
/// then they are these items, in the order of the rows.
pub proof fn lemma_parsed_each(
    layout: Layout,
    index: Seq<Seq<Option<usize>>>,
    rows: Seq<Seq<db::Value>>,
    r: int,
)
    ensures
        parsed(layout, index, rows, r) is Ok <==> forall|i: int|
            0 <= i < rows.len() ==> built(layout, index, #[trigger] rows[i], r) is Ok,
        parsed(layout, index, rows, r) is Ok ==> parsed(layout, index, rows, r)->Ok_0 == Seq::new(
            rows.len(),
            |i: int| built(layout, index, rows[i], r)->Ok_0,
        ),
    decreases rows.len(),
{
    if rows.len() > 0 {
        let shorter = rows.drop_last();
        lemma_parsed_each(layout, index, shorter, r);
        if parsed(layout, index, rows, r) is Ok {
            assert forall|i: int| 0 <= i < rows.len() implies built(
                layout,
                index,
                #[trigger] rows[i],
                r,
            ) is Ok by {
                if i < shorter.len() {
                    assert(shorter[i] == rows[i]);
                }
            }
            assert(parsed(layout, index, rows, r)->Ok_0 =~= Seq::new(
                rows.len(),
                |i: int| built(layout, index, rows[i], r)->Ok_0,
            )) by {
                assert forall|i: int| 0 <= i < shorter.len() implies shorter[i] == rows[i] by {}
            }
        }
        if forall|i: int| 0 <= i < rows.len() ==> built(layout, index, #[trigger] rows[i], r) is Ok {
            assert forall|i: int| 0 <= i < shorter.len() implies built(
                layout,
                index,
                #[trigger] shorter[i],
                r,
            ) is Ok by {
                assert(shorter[i] == rows[i]);
            }
            assert(built(layout, index, rows[rows.len() - 1], r) is Ok);
        }
    } else {
        assert(parsed(layout, index, rows, r)->Ok_0 =~= Seq::new(
            rows.len(),
            |i: int| built(layout, index, rows[i], r)->Ok_0,
        ));
    }
}

/// The column map of the query for the items of a resource whose fields are all scalars.
pub open spec fn selection(layout: Layout, r: int) -> ColumnMapView {
    ColumnMapView::empty(layout).with_resource(layout, r)
}

/// The items of a resource whose fields are all scalars that a query without a filter finds are
/// reconstructed from the rows of the table which holds the items.
pub proof fn lemma_found_all(tables: Seq<TableView>, layout: Layout, r: int, t: int)
    requires
        layout.wf(),
        0 <= r < layout.schema@.len(),
        scalar_only(layout.schema@[r]),
        crate::sql::db::mock::wf(tables),
        holds_items(tables, layout, r, t),
    ensures
        0 <= t < tables.len(),
        found(tables, layout, r, None, None) == parsed(
            layout,
            selection(layout, r).index,
            field_rows(tables[t], layout.schema@[r]),
            r,
        ),
        selection(layout, r).index[r] == Seq::new(
            layout.schema@[r].fields@.len(),
            |f: int| Some(f as usize),
        ),
{
    let resource = layout.schema@[r];
    let n = resource.fields@.len() as int;
    lemma_position(table_names(tables), layout.tables@[r]@);
    lemma_scalar_columns(layout, r, n);
    let m = selection(layout, r);
    assert(m.join_clauses() =~= Seq::<Clause>::empty());
    assert(Seq::<Clause>::empty() + m.join_clauses() =~= Seq::<Clause>::empty());
    assert(planned(layout, r, None, None) == Ok::<(ColumnMapView, Seq<Clause>), Error>(
        (m, Seq::<Clause>::empty()),
    ));
    lemma_selected_all(tables, layout, r, t);
    assert(m.index[r] =~= Seq::new(resource.fields@.len(), |f: int| Some(f as usize)));
}

/// The item of the resource at position `r` with the given ID and, for each input field, the
/// object of `input` for that field.
pub open spec fn item(r: usize, resource: Resource, input: Seq<Instance>, id: Id) -> RecordView {
    RecordView {
        resource: r,
        fields: Seq::new(
            resource.fields@.len(),
            |f: int|
                if f == resource.id {
                    InstanceView::Scalar(Scalar::I32(id))
                } else if f < resource.id {
                    instance_view(input[f])
                } else {
                    instance_view(input[f - 1])
                },
        ),
    }
}

/// The values that are stored for the objects of a record are the values of its objects.
pub proof fn lemma_input_values_each(types: Seq<Type>, inputs: Seq<Instance>)
    requires
        input_values(types, inputs) is Ok,
    ensures
        input_values(types, inputs)->Ok_0.len() == types.len(),
        forall|k: int|
            0 <= k < types.len() ==> input_value(#[trigger] types[k], inputs[k]) == Ok::<
                db::Value,
                Error,
            >(input_values(types, inputs)->Ok_0[k]),
    decreases types.len(),
{
    if types.len() > 0 {
        lemma_input_values_each(types.drop_last(), inputs);
        assert forall|k: int| 0 <= k < types.len() implies input_value(
            #[trigger] types[k],
            inputs[k],
        ) == Ok::<db::Value, Error>(input_values(types, inputs)->Ok_0[k]) by {
            if k < types.len() - 1 {
                assert(types.drop_last()[k] == types[k]);
            }
        }
    }
}

/// The rows that are stored for records are the rows of the records.
pub proof fn lemma_rows_each(resource: Resource, inputs: Seq<Seq<Instance>>)
    requires
        rows(resource, inputs) is Ok,
    ensures
        rows(resource, inputs)->Ok_0.len() == inputs.len(),
        forall|j: int|
            0 <= j < inputs.len() ==> row(resource, #[trigger] inputs[j]) == Ok::<
                Seq<db::Value>,
                Error,
            >(rows(resource, inputs)->Ok_0[j]),
    decreases inputs.len(),
{
    if inputs.len() > 0 {
        lemma_rows_each(resource, inputs.drop_last());
        assert forall|j: int| 0 <= j < inputs.len() implies row(resource, #[trigger] inputs[j])
            == Ok::<Seq<db::Value>, Error>(rows(resource, inputs)->Ok_0[j]) by {
            if j < inputs.len() - 1 {
                assert(inputs.drop_last()[j] == inputs[j]);
            }
        }
    }
}

/// A database stays consistent, and a table keeps holding the items of its resource, when rows
/// are inserted into it.
pub proof fn lemma_inserted(
    tables: Seq<TableView>,
    layout: Layout,
    r: int,
    t: int,
    stored: Seq<Seq<db::Value>>,
)
    requires
        layout.wf(),
        0 <= r < layout.schema@.len(),
        crate::sql::db::mock::wf(tables),
        holds_items(tables, layout, r, t),
        inserted(tables, layout.tables@[r], input_columns(layout, r), stored) is Ok,
    ensures
        ({
            let after = inserted(tables, layout.tables@[r], input_columns(layout, r), stored)->Ok_0;
            &&& 0 <= t < tables.len()
            &&& after == tables.update(t, after[t])
            &&& crate::sql::db::mock::wf(after)
            &&& holds_items(after, layout, r, t)
            &&& after[t].rows.len() == tables[t].rows.len() + stored.len()
            &&& forall|i: int| 0 <= i < tables[t].rows.len() ==> after[t].rows[i] == tables[t].rows[i]
            &&& forall|j: int|
                0 <= j < stored.len() ==> (#[trigger] stored[j]).len() == input_columns(
                    layout,
                    r,
                ).len() && after[t].rows[tables[t].rows.len() + j] == seq![
                    db::Value::Int4((tables[t].rows.len() + j + 1) as i32),
                ] + stored[j]
        }),
{
    let columns = input_columns(layout, r);
    let table = tables[t];
    let after = inserted(tables, layout.tables@[r], columns, stored)->Ok_0;
    lemma_position(table_names(tables), layout.tables@[r]@);
    assert(table.wf());
    crate::sql::db::mock::lemma_insert_columns(table, columns, stored);
    let arranged = stored.map_values(|row: Seq<db::Value>| table.arranged(columns, row));
    assert(table.append_rejection(stored) is None);
    assert(table.append(arranged) is Ok);
    assert(table_names(after) =~= table_names(tables));
    let explicit = names(table.explicit_cols);
    assert forall|j: int| 0 <= j < stored.len() implies (#[trigger] stored[j]).len() == columns.len()
        && after[t].rows[table.rows.len() + j] == seq![
        db::Value::Int4((table.rows.len() + j + 1) as i32),
    ] + stored[j] by {
        assert(stored[j].len() == table.explicit_cols.len());
        assert forall|k: int| 0 <= k < columns.len() implies table.arranged(columns, stored[j])[k]
            == stored[j][k] by {
            assert(explicit[k] == table.explicit_cols[k].name);
            assert(explicit[k] == columns[k]);
            lemma_position_distinct(columns, k);
        }
        assert(table.arranged(columns, stored[j]) =~= stored[j]);
        assert(table.serial_cols.len() == 1) by {
            assert(names(table.serial_cols).len() == 1);
        }
        assert(after[t].rows[table.rows.len() + j] =~= seq![
            db::Value::Int4((table.rows.len() + j + 1) as i32),
        ] + stored[j]);
    }
    assert forall|i: int| 0 <= i < after.len() implies (#[trigger] after[i]).wf() by {
        if i == t {
            assert forall|a: int| 0 <= a < after[t].rows.len() implies (#[trigger] after[t].rows[a]).len()
                == after[t].schema().len() by {
                if a < table.rows.len() {
                    assert(after[t].rows[a] == table.rows[a]);
                } else {
                    let j = a - table.rows.len();
                    assert(arranged[j].len() == table.explicit_cols.len());
                }
            }
            assert forall|a: int, s: int|
                0 <= a < after[t].rows.len() && 0 <= s < after[t].serial_cols.len() implies (
            #[trigger] after[t].rows[a][s]) == db::Value::Int4((a + 1) as i32) by {
                if a < table.rows.len() {
                    assert(after[t].rows[a] == table.rows[a]);
                    assert(table.rows[a][s] == db::Value::Int4((a + 1) as i32));
                } else {
                    let j = a - table.rows.len();
                    assert(stored[j].len() == columns.len());
                }
            }
        } else {
            assert(tables[i].wf());
        }
    }
}

/// The IDs of the items of a resource whose fields are all scalars are unique: the ID of an
/// item is the position of its row in the table, counting from 1, which is the order of
/// insertion.
pub proof fn lemma_ids(tables: Seq<TableView>, layout: Layout, r: int, t: int)
    requires
        layout.wf(),
        0 <= r < layout.schema@.len(),
        scalar_only(layout.schema@[r]),
        crate::sql::db::mock::wf(tables),
        holds_items(tables, layout, r, t),
        found(tables, layout, r, None, None) is Ok,
    ensures
        ({
            let items = found(tables, layout, r, None, None)->Ok_0;
            &&& items.len() == tables[t].rows.len()
            &&& forall|i: int|
                0 <= i < items.len() ==> (#[trigger] items[i]).fields[layout.schema@[r].id as int]
                    == InstanceView::Scalar(Scalar::I32((i + 1) as i32))
            &&& forall|i: int, j: int|
                0 <= i < j < items.len() ==> (#[trigger] items[i]).fields[layout.schema@[r].id as int]
                    != (#[trigger] items[j]).fields[layout.schema@[r].id as int]
        }),
{
    let resource = layout.schema@[r];
    let n = resource.fields@.len() as int;
    let index = selection(layout, r).index;
    assert(Schema::resource_wf(layout.schema@, r));
    lemma_found_all(tables, layout, r, t);
    let table = tables[t];
    assert(table.wf());
    let all_rows = field_rows(table, resource);
    lemma_parsed_each(layout, index, all_rows, r);
    let items = found(tables, layout, r, None, None)->Ok_0;
    assert(table.serial_cols.len() == 1) by {
        assert(names(table.serial_cols).len() == 1);
    }
    assert forall|i: int| 0 <= i < items.len() implies (#[trigger] items[i]).fields[resource.id as int]
        == InstanceView::Scalar(Scalar::I32((i + 1) as i32)) by {
        assert(built(layout, index, all_rows[i], r) is Ok);
        lemma_built_fields(layout, index, all_rows[i], r, n);
        assert(all_rows[i][resource.id as int] == table.rows[i][0]);
        assert(table.rows[i][0] == db::Value::Int4((i + 1) as i32));
    }
}

/// Inserting records of a resource whose fields are all scalars and then
/// selecting without a filter returns the items that were found before, and then one item for
/// each record, in the order of the records. An item is equal to its record except for the ID,
/// which counts on from the number of rows that the table held.
pub proof fn lemma_round_trip(
    tables: Seq<TableView>,
    layout: Layout,
    r: int,
    t: int,
    inputs: Seq<Seq<Instance>>,
)
    requires
        layout.wf(),
        0 <= r < layout.schema@.len(),
        scalar_only(layout.schema@[r]),
        crate::sql::db::mock::wf(tables),
        holds_items(tables, layout, r, t),
        found(tables, layout, r, None, None) is Ok,
        rows(layout.schema@[r], inputs) is Ok,
        inserted(
            tables,
            layout.tables@[r],
            input_columns(layout, r),
            rows(layout.schema@[r], inputs)->Ok_0,
        ) is Ok,
    ensures
        found(
            inserted(
                tables,
                layout.tables@[r],
                input_columns(layout, r),
                rows(layout.schema@[r], inputs)->Ok_0,
            )->Ok_0,
            layout,
            r,
            None,
            None,
        ) == Ok::<Seq<RecordView>, Error>(
            found(tables, layout, r, None, None)->Ok_0 + Seq::new(
                inputs.len(),
                |j: int|
                    item(
                        r as usize,
                        layout.schema@[r],
                        inputs[j],
                        (tables[t].rows.len() + j + 1) as i32,
                    ),
            ),
        ),
{
    let resource = layout.schema@[r];
    let n = resource.fields@.len() as int;
    let stored = rows(resource, inputs)->Ok_0;
    let after = inserted(tables, layout.tables@[r], input_columns(layout, r), stored)->Ok_0;
    let index = selection(layout, r).index;
    let count = tables[t].rows.len() as int;
    assert(Schema::resource_wf(layout.schema@, r));
    lemma_found_all(tables, layout, r, t);
    lemma_inserted(tables, layout, r, t, stored);
    lemma_found_all(after, layout, r, t);
    lemma_rows_each(resource, inputs);
    let before_rows = field_rows(tables[t], resource);
    let after_rows = field_rows(after[t], resource);
    lemma_parsed_each(layout, index, before_rows, r);
    lemma_parsed_each(layout, index, after_rows, r);
    let items = Seq::new(
        inputs.len(),
        |j: int| item(r as usize, resource, inputs[j], (count + j + 1) as i32),
    );
    assert forall|i: int| 0 <= i < after_rows.len() implies built(
        layout,
        index,
        #[trigger] after_rows[i],
        r,
    ) == Ok::<RecordView, Error>(
        if i < count {
            built(layout, index, before_rows[i], r)->Ok_0
        } else {
            items[i - count]
        },
    ) by {
        if i < count {
            assert(after_rows[i] =~= before_rows[i]);
            assert(built(layout, index, before_rows[i], r) is Ok);
        } else {
            let j = i - count;
            let values = after_rows[i];
            let input = inputs[j];
            assert(row(resource, inputs[j]) == Ok::<Seq<db::Value>, Error>(stored[j]));
            assert(input.len() == n - 1);
            lemma_input_values_each(input_types(resource), input);
            assert forall|f: int| 0 <= f < n implies (#[trigger] values[f]).ty() == scalar_type(
                kind_of(resource, f),
            ) && InstanceView::Scalar(value_scalar(kind_of(resource, f), values[f])->Some_0)
                == items[j].fields[f] by {
                assert(resource.fields@[f].ty is Scalar);
                if f == resource.id {
                    assert(values[f] == db::Value::Int4((count + j + 1) as i32));
                } else {
                    let k = if f < resource.id {
                        f
                    } else {
                        f - 1
                    };
                    assert(input_field(resource, k) == f);
                    assert(values[f] == stored[j][k]);
                    assert(input_types(resource)[k] == resource.fields@[f].ty);
                    assert(input_value(input_types(resource)[k], input[k]) == Ok::<
                        db::Value,
                        Error,
                    >(stored[j][k]));
                    super::lemma_scalar_round_trip(input[k]->Scalar_0);
                }
            }
            lemma_built_fields(layout, index, values, r, n);
            assert(scalars(resource, values, n) =~= items[j].fields);
        }
    }
    let before_items = found(tables, layout, r, None, None)->Ok_0;
    assert(parsed(layout, index, after_rows, r) is Ok);
    assert(parsed(layout, index, after_rows, r)->Ok_0 =~= before_items + items);
}

/// Two tests which agree on the elements of a sequence keep the same elements.
proof fn lemma_filter_same<A>(s: Seq<A>, p: spec_fn(A) -> bool, q: spec_fn(A) -> bool)
    requires
        forall|i: int| 0 <= i < s.len() ==> p(#[trigger] s[i]) == q(s[i]),
    ensures
        s.filter(p) == s.filter(q),
    decreases s.len(),
{
    reveal(Seq::filter);
    if s.len() > 0 {
        assert forall|i: int| 0 <= i < s.drop_last().len() implies p(#[trigger] s.drop_last()[i])
            == q(s.drop_last()[i]) by {
            assert(s.drop_last()[i] == s[i]);
        }
        lemma_filter_same(s.drop_last(), p, q);
        assert(p(s[s.len() - 1]) == q(s[s.len() - 1]));
    }
}

/// To keep the elements which pass a test, and of these the elements which pass another, is to
/// keep the elements which pass both.
proof fn lemma_filter_twice<A>(s: Seq<A>, p: spec_fn(A) -> bool, q: spec_fn(A) -> bool)
    ensures
        s.filter(p).filter(q) == s.filter(|x: A| p(x) && q(x)),
    decreases s.len(),
{
    reveal(Seq::filter);
    let both = |x: A| p(x) && q(x);
    if s.len() > 0 {
        lemma_filter_twice(s.drop_last(), p, q);
        if p(s.last()) {
            s.drop_last().filter(p).lemma_filter_push(s.last(), q);
        }
    }
}

/// To keep the images which pass a test is to take the images of the elements whose images
/// pass it.
proof fn lemma_filter_map<A, B>(s: Seq<A>, f: spec_fn(A) -> B, q: spec_fn(B) -> bool)
    ensures
        s.map_values(f).filter(q) == s.filter(|x: A| q(f(x))).map_values(f),
    decreases s.len(),
{
    reveal(Seq::filter);
    let test = |x: A| q(f(x));
    if s.len() > 0 {
        lemma_filter_map(s.drop_last(), f, q);
        assert(s.map_values(f).drop_last() =~= s.drop_last().map_values(f));
        if q(f(s.last())) {
            assert(s.drop_last().filter(test).push(s.last()).map_values(f) =~= s.drop_last().filter(
                test,
            ).map_values(f).push(f(s.last())));
        }
    } else {
        assert(s.map_values(f).filter(q) =~= s.filter(test).map_values(f));
    }
}

/// Whether an object satisfies a predicate on a scalar: it is a scalar, and the comparison of
/// its value with the literal of the predicate holds.
pub open spec fn satisfies(predicate: ScalarPredicate, object: InstanceView) -> bool {
    object matches InstanceView::Scalar(s) && predicate.value() matches Value::Lit(x)
        && scalar_value(s).compare(lowered(predicate.op()), scalar_value(x)) == Some(true)
}

/// Whether an item satisfies every sub-predicate of a predicate on its fields.
pub open spec fn satisfies_all(has: Has, item: RecordView) -> bool {
    forall|f: int|
        0 <= f < item.fields.len() ==> (has.slot(f) matches Some(Predicate::Scalar(p)) ==> satisfies(
            p,
            #[trigger] item.fields[f],
        ))
}

/// The `WHERE` clause for a predicate on the scalar field at position `f`.
pub open spec fn condition(layout: Layout, r: int, f: int, predicate: ScalarPredicate) -> Clause {
    Clause::Where(
        WhereClause {
            column: layout.qualified(r, f),
            op: lowered(predicate.op()),
            param: scalar_value(predicate.value()->Lit_0),
        },
    )
}

/// The `WHERE` clauses for the sub-predicates on the first `count` fields.
pub open spec fn conditions(layout: Layout, r: int, has: Has, count: int) -> Seq<Clause>
    decreases count,
{
    if count <= 0 {
        Seq::empty()
    } else {
        match has.slot(count - 1) {
            Some(Predicate::Scalar(p)) => conditions(layout, r, has, count - 1).push(
                condition(layout, r, count - 1, p),
            ),
            _ => conditions(layout, r, has, count - 1),
        }
    }
}

/// Whether the sub-predicates on the first `count` fields of `resource` fit the fields: each is
/// a predicate on a scalar which compares with a literal of the kind of the field, with an
/// operator for that kind.
pub open spec fn fitting(resource: Resource, has: Has, count: int) -> bool {
    forall|f: int|
        0 <= f < count ==> match #[trigger] has.slot(f) {
            None => true,
            Some(Predicate::Scalar(p)) => p.value() matches Value::Lit(x) && x.kind() == kind_of(
                resource,
                f,
            ) && applies(p.op(), kind_of(resource, f)),
            Some(_) => false,
        }
}

/// The sub-predicates on the fields of a resource whose fields are all scalars compile, if they
/// compile, to one `WHERE` clause each, without a join, and then they fit the fields.
pub proof fn lemma_compiled_fields(layout: Layout, m: ColumnMapView, r: int, has: Has, count: int)
    requires
        layout.wf(),
        0 <= r < layout.schema@.len(),
        scalar_only(layout.schema@[r]),
        0 <= count <= layout.schema@[r].fields@.len(),
        compiled_fields(layout, m, Seq::empty(), r, has, count) is Ok,
    ensures
        compiled_fields(layout, m, Seq::empty(), r, has, count) == Ok::<
            (ColumnMapView, Seq<Clause>),
            Error,
        >((m, conditions(layout, r, has, count))),
        fitting(layout.schema@[r], has, count),
        forall|i: int|
            0 <= i < conditions(layout, r, has, count).len() ==> (#[trigger] conditions(
                layout,
                r,
                has,
                count,
            )[i]) is Where,
    decreases count,
{
    let resource = layout.schema@[r];
    if count > 0 {
        let f = count - 1;
        let before = compiled_fields(layout, m, Seq::empty(), r, has, f);
        assert(compiled_fields(layout, m, Seq::empty(), r, has, count) == match before {
            Err(e) => Err::<(ColumnMapView, Seq<Clause>), Error>(e),
            Ok((m1, clauses)) => match has.slot(f) {
                None => Ok((m1, clauses)),
                Some(sub) => compiled_field(layout, m1, clauses, r, f, sub),
            },
        });
        lemma_compiled_fields(layout, m, r, has, f);
        assert(resource.fields@[f].ty is Scalar);
        let clauses = conditions(layout, r, has, f);
        match has.slot(f) {
            None => {},
            Some(sub) => {
                let kind = kind_of(resource, f);
                assert(compiled_field(layout, m, clauses, r, f, sub) == match sub {
                    Predicate::Scalar(p) => match (ScalarWhereCondition {
                        column: layout.qualified(r, f),
                        kind,
                        resource: resource.name,
                    }).clause(p.op(), p.value()) {
                        Ok(clause) => Ok::<(ColumnMapView, Seq<Clause>), Error>(
                            (m, clauses.push(clause)),
                        ),
                        Err(e) => Err(e),
                    },
                    _ => Err(Error::InvalidPredicate { resource: resource.name }),
                });
            },
        }
        assert forall|g: int| 0 <= g < count implies match #[trigger] has.slot(g) {
            None => true,
            Some(Predicate::Scalar(p)) => p.value() matches Value::Lit(x) && x.kind() == kind_of(
                resource,
                g,
            ) && applies(p.op(), kind_of(resource, g)),
            Some(_) => false,
        } by {
            if g < f {
                assert(fitting(resource, has, f));
            }
        }
    }
}

/// The sources of a query whose clauses are all `WHERE` clauses are those of a query without
/// clauses.
proof fn lemma_joined_wheres(tables: Seq<TableView>, base: String, clauses: Seq<Clause>)
    requires
        forall|i: int| 0 <= i < clauses.len() ==> (#[trigger] clauses[i]) is Where,
    ensures
        joined(tables, base, clauses) == joined(tables, base, Seq::empty()),
    decreases clauses.len(),
{
    if clauses.len() > 0 {
        assert forall|i: int| 0 <= i < clauses.drop_last().len() implies (
        #[trigger] clauses.drop_last()[i]) is Where by {
            assert(clauses.drop_last()[i] == clauses[i]);
        }
        lemma_joined_wheres(tables, base, clauses.drop_last());
        assert(clauses[clauses.len() - 1] is Where);
    }
}

/// Whether the row at position `i` of a table which holds the items of `resource` meets the
/// conditions of the sub-predicates on the first `count` fields.
pub open spec fn row_meets(table: TableView, resource: Resource, has: Has, count: int, i: int) -> bool {
    forall|f: int|
        0 <= f < count ==> (#[trigger] has.slot(f) matches Some(Predicate::Scalar(p))
            ==> table.rows[i][place(resource, f)].compare(
            lowered(p.op()),
            scalar_value(p.value()->Lit_0),
        ) == Some(true))
}

/// The test of whether the row of a table meets the conditions of the sub-predicates on the
/// first `count` fields.
pub open spec fn meets_all(table: TableView, resource: Resource, has: Has, count: int) -> spec_fn(
    Seq<usize>,
) -> bool {
    |combo: Seq<usize>| row_meets(table, resource, has, count, combo[0] as int)
}

/// Two values of the type for one kind of scalar can be compared with an operator for that
/// kind.
proof fn lemma_comparable(kind: ScalarKind, op: crate::graphql::type_system::CmpOp, l: db::Value, r: db::Value)
    requires
        applies(op, kind),
        l.ty() == scalar_type(kind),
        r.ty() == scalar_type(kind),
    ensures
        l.compare(lowered(op), r) is Some,
{
}

/// Whether the values of every row of a table have the types of the fields of `resource`.
pub open spec fn all_typed(table: TableView, resource: Resource) -> bool {
    forall|i: int|
        0 <= i < table.rows.len() ==> typed(
            resource,
            #[trigger] field_rows(table, resource)[i],
            resource.fields@.len() as int,
        )
}

/// The rows which meet the `WHERE` clauses for the sub-predicates on the first `count` fields
/// are the rows which meet the conditions of these sub-predicates.
proof fn lemma_filtered(
    tables: Seq<TableView>,
    layout: Layout,
    r: int,
    t: int,
    has: Has,
    count: int,
)
    requires
        layout.wf(),
        0 <= r < layout.schema@.len(),
        scalar_only(layout.schema@[r]),
        crate::sql::db::mock::wf(tables),
        holds_items(tables, layout, r, t),
        0 <= t < tables.len(),
        0 <= count <= layout.schema@[r].fields@.len(),
        fitting(layout.schema@[r], has, count),
        all_typed(tables[t], layout.schema@[r]),
    ensures
        filtered(
            tables,
            seq![t as usize],
            base_rows(tables[t].rows.len() as usize),
            conditions(layout, r, has, count),
        ) == Ok::<Seq<Seq<usize>>, db::Error>(
            base_rows(tables[t].rows.len() as usize).filter(
                meets_all(tables[t], layout.schema@[r], has, count),
            ),
        ),
    decreases count,
{
    let resource = layout.schema@[r];
    let table = tables[t];
    let sources = seq![t as usize];
    assert(table.wf());
    let base = base_rows(table.rows.len() as usize);
    let clauses = conditions(layout, r, has, count);
    let all = meets_all(table, resource, has, count);
    if count > 0 {
        let f = count - 1;
        assert(fitting(resource, has, f)) by {
            assert forall|g: int| 0 <= g < f implies match #[trigger] has.slot(g) {
                None => true,
                Some(Predicate::Scalar(p)) => p.value() matches Value::Lit(x) && x.kind()
                    == kind_of(resource, g) && applies(p.op(), kind_of(resource, g)),
                Some(_) => false,
            } by {}
        }
        lemma_filtered(tables, layout, r, t, has, f);
        let before = meets_all(table, resource, has, f);
        let held = base.filter(before);
        match has.slot(f) {
            Some(Predicate::Scalar(p)) => {
                let clause = condition(layout, r, f, p)->Where_0;
                assert(clauses.drop_last() =~= conditions(layout, r, has, f));
                assert(clauses.last() == Clause::Where(clause));
                lemma_resolved(tables, layout, r, t, f);
                lemma_column_place(tables, layout, r, t, f);
                let lhs = (0usize, place(resource, f) as usize);
                let rhs = Operand::Param(clause.param);
                let kind = kind_of(resource, f);
                super::lemma_scalar_round_trip(p.value()->Lit_0);
                assert(resource.fields.len() == resource.fields@.len());
                assert forall|i: int| 0 <= i < held.len() implies outcome(
                    tables,
                    sources,
                    #[trigger] held[i],
                    lhs,
                    clause.op,
                    rhs,
                ) is Some by {
                    assert(held.contains(held[i]));
                    base.lemma_filter_contains_rev(before, held[i]);
                    let k = choose|k: int| 0 <= k < base.len() && base[k] == held[i];
                    assert(held[i] == seq![k as usize]);
                    assert(typed(resource, field_rows(table, resource)[k], resource.fields@.len() as int));
                    assert(field_rows(table, resource)[k][f] == table.rows[k][place(resource, f)]);
                    lemma_comparable(
                        kind,
                        p.op(),
                        table.rows[k][place(resource, f)],
                        clause.param,
                    );
                }
                let test = meets(tables, sources, lhs, clause.op, rhs);
                assert(filter_step(tables, sources, held, clause) == Ok::<Seq<Seq<usize>>, db::Error>(
                    held.filter(test),
                ));
                lemma_filter_twice(base, before, test);
                assert forall|i: int| 0 <= i < base.len() implies (before(#[trigger] base[i])
                    && test(base[i])) == all(base[i]) by {
                    assert(base[i] == seq![i as usize]);
                    let meets_field = table.rows[i][place(resource, f)].compare(
                        lowered(p.op()),
                        scalar_value(p.value()->Lit_0),
                    ) == Some(true);
                    assert(test(base[i]) == meets_field);
                    if row_meets(table, resource, has, f, i) && meets_field {
                        assert forall|g: int| 0 <= g < count implies (#[trigger] has.slot(g) matches Some(
                            Predicate::Scalar(q),
                        ) ==> table.rows[i][place(resource, g)].compare(
                            lowered(q.op()),
                            scalar_value(q.value()->Lit_0),
                        ) == Some(true)) by {}
                    }
                    if row_meets(table, resource, has, count, i) {
                        assert(has.slot(f) is Some);
                        assert forall|g: int| 0 <= g < f implies (#[trigger] has.slot(g) matches Some(
                            Predicate::Scalar(q),
                        ) ==> table.rows[i][place(resource, g)].compare(
                            lowered(q.op()),
                            scalar_value(q.value()->Lit_0),
                        ) == Some(true)) by {}
                    }
                }
                lemma_filter_same(base, |x: Seq<usize>| before(x) && test(x), all);
            },
            _ => {
                assert(clauses == conditions(layout, r, has, f));
                assert forall|i: int| 0 <= i < base.len() implies before(#[trigger] base[i]) == all(
                    base[i],
                ) by {
                    assert(base[i] == seq![i as usize]);
                    if row_meets(table, resource, has, f, i) {
                        assert forall|g: int| 0 <= g < count implies (#[trigger] has.slot(g) matches Some(
                            Predicate::Scalar(q),
                        ) ==> table.rows[i][place(resource, g)].compare(
                            lowered(q.op()),
                            scalar_value(q.value()->Lit_0),
                        ) == Some(true)) by {}
                    }
                    if row_meets(table, resource, has, count, i) {
                        assert forall|g: int| 0 <= g < f implies (#[trigger] has.slot(g) matches Some(
                            Predicate::Scalar(q),
                        ) ==> table.rows[i][place(resource, g)].compare(
                            lowered(q.op()),
                            scalar_value(q.value()->Lit_0),
                        ) == Some(true)) by {}
                    }
                }
                lemma_filter_same(base, before, all);
            },
        }
    } else {
        reveal(Seq::filter);
        assert forall|i: int| 0 <= i < base.len() implies all(#[trigger] base[i]) by {}
        lemma_filter_all(base, all);
    }
}

/// To keep the elements which pass a test that every element passes is to keep every element.
proof fn lemma_filter_all<A>(s: Seq<A>, p: spec_fn(A) -> bool)
    requires
        forall|i: int| 0 <= i < s.len() ==> p(#[trigger] s[i]),
    ensures
        s.filter(p) == s,
    decreases s.len(),
{
    reveal(Seq::filter);
    if s.len() > 0 {
        assert forall|i: int| 0 <= i < s.drop_last().len() implies p(#[trigger] s.drop_last()[i]) by {
            assert(s.drop_last()[i] == s[i]);
        }
        lemma_filter_all(s.drop_last(), p);
        assert(p(s[s.len() - 1]));
        assert(s.drop_last().push(s.last()) =~= s);
    } else {
        assert(s.filter(p) =~= s);
    }
}

/// The test of whether an item satisfies every sub-predicate of a predicate on its fields.
pub open spec fn satisfying(has: Has) -> spec_fn(RecordView) -> bool {
    |item: RecordView| satisfies_all(has, item)
}

/// Selecting the items of a resource whose fields are all scalars
/// with a predicate on its fields returns exactly the items, of those that are found without a
/// filter, which satisfy every sub-predicate, in their order. In particular, a predicate without
/// sub-predicates returns all items, and every further sub-predicate narrows the result.
pub proof fn lemma_predicate(tables: Seq<TableView>, layout: Layout, r: int, t: int, has: Has)
    requires
        layout.wf(),
        0 <= r < layout.schema@.len(),
        scalar_only(layout.schema@[r]),
        crate::sql::db::mock::wf(tables),
        holds_items(tables, layout, r, t),
        found(tables, layout, r, None, None) is Ok,
        resource_implemented(ResourcePredicate::Has(has)),
        compiled(layout, selection(layout, r), Seq::empty(), r, ResourcePredicate::Has(has)) is Ok,
    ensures
        found(tables, layout, r, Some(ResourcePredicate::Has(has)), None) == Ok::<
            Seq<RecordView>,
            Error,
        >(found(tables, layout, r, None, None)->Ok_0.filter(satisfying(has))),
{
    let resource = layout.schema@[r];
    let n = resource.fields@.len() as int;
    let m = selection(layout, r);
    let index = m.index;
    lemma_found_all(tables, layout, r, t);
    let table = tables[t];
    assert(table.wf());
    let all_rows = field_rows(table, resource);
    let count = table.rows.len();
    lemma_scalar_columns(layout, r, n);
    lemma_compiled_fields(layout, m, r, has, n);
    let clauses = conditions(layout, r, has, n);
    assert(m.join_clauses() =~= Seq::<Clause>::empty());
    assert(clauses + m.join_clauses() =~= clauses);
    assert(planned(layout, r, Some(ResourcePredicate::Has(has)), None) == Ok::<
        (ColumnMapView, Seq<Clause>),
        Error,
    >((m, clauses)));
    // Every row of the table holds values of the types of the fields.
    lemma_parsed_each(layout, index, all_rows, r);
    assert forall|i: int| 0 <= i < count implies typed(resource, #[trigger] all_rows[i], n) by {
        assert(built(layout, index, all_rows[i], r) is Ok);
        lemma_built_fields(layout, index, all_rows[i], r, n);
    }
    // The rows that the query selects.
    let sources = seq![t as usize];
    let base = base_rows(count as usize);
    lemma_joined_wheres(tables, layout.tables@[r], clauses);
    lemma_filtered(tables, layout, r, t, has, n);
    let all = meets_all(table, resource, has, n);
    let held = base.filter(all);
    lemma_field_places(tables, layout, r, t, n);
    let places = field_places(resource, n);
    let rows = Seq::new(held.len(), |i: int| projected(tables, sources, held[i], places));
    assert(selected(tables, m.columns, layout.tables@[r], clauses) == Ok::<
        Seq<Seq<db::Value>>,
        db::Error,
    >(rows));
    let from = |combo: Seq<usize>| all_rows[combo[0] as int];
    let to = |combo: Seq<usize>| built(layout, index, from(combo), r)->Ok_0;
    assert forall|i: int| 0 <= i < held.len() implies #[trigger] rows[i] == from(held[i]) && built(
        layout,
        index,
        rows[i],
        r,
    ) is Ok by {
        assert(held.contains(held[i]));
        base.lemma_filter_contains_rev(all, held[i]);
        let k = choose|k: int| 0 <= k < base.len() && base[k] == held[i];
        assert(held[i] == seq![k as usize]);
        assert forall|f: int| 0 <= f < n implies rows[i][f] == table.rows[k][place(resource, f)] by {
            lemma_column_place(tables, layout, r, t, f);
            assert(places[f] == (0usize, place(resource, f) as usize));
        }
        assert(rows[i] =~= all_rows[k]);
        assert(built(layout, index, all_rows[k], r) is Ok);
    }
    lemma_parsed_each(layout, index, rows, r);
    assert(parsed(layout, index, rows, r)->Ok_0 =~= held.map_values(to));
    let items = found(tables, layout, r, None, None)->Ok_0;
    assert(items =~= base.map_values(to)) by {
        assert forall|i: int| 0 <= i < base.len() implies #[trigger] base[i] == seq![i as usize] by {}
    }
    // An item satisfies the sub-predicates exactly when its row meets their conditions.
    let test = satisfying(has);
    let lifted = |combo: Seq<usize>| test(to(combo));
    lemma_filter_map(base, to, test);
    assert forall|i: int| 0 <= i < base.len() implies all(#[trigger] base[i]) == lifted(base[i]) by {
        assert(base[i] == seq![i as usize]);
        let row = all_rows[i];
        let item = to(base[i]);
        assert(built(layout, index, row, r) is Ok);
        lemma_built_fields(layout, index, row, r, n);
        assert(item.fields == scalars(resource, row, n));
        assert forall|f: int| 0 <= f < n implies (has.slot(f) matches Some(Predicate::Scalar(p))
            ==> (satisfies(p, #[trigger] item.fields[f]) == (table.rows[i][place(resource, f)].compare(
            lowered(p.op()),
            scalar_value(p.value()->Lit_0),
        ) == Some(true)))) by {
            lemma_value_scalar(kind_of(resource, f), row[f]);
            assert(typed(resource, row, n));
            assert(row[f] == table.rows[i][place(resource, f)]);
        }
        if row_meets(table, resource, has, n, i) {
            assert forall|f: int| 0 <= f < item.fields.len() implies (has.slot(f) matches Some(
                Predicate::Scalar(p),
            ) ==> satisfies(p, #[trigger] item.fields[f])) by {
                match has.slot(f) {
                    Some(Predicate::Scalar(p)) => {
                        assert(table.rows[i][place(resource, f)].compare(
                            lowered(p.op()),
                            scalar_value(p.value()->Lit_0),
                        ) == Some(true));
                        assert(satisfies(p, item.fields[f]) == (table.rows[i][place(
                            resource,
                            f,
                        )].compare(lowered(p.op()), scalar_value(p.value()->Lit_0)) == Some(true)));
                    },
                    _ => {},
                }
            }
        }
        if satisfies_all(has, item) {
            assert forall|f: int| 0 <= f < n implies (#[trigger] has.slot(f) matches Some(
                Predicate::Scalar(p),
            ) ==> table.rows[i][place(resource, f)].compare(
                lowered(p.op()),
                scalar_value(p.value()->Lit_0),
            ) == Some(true)) by {
                match has.slot(f) {
                    Some(Predicate::Scalar(p)) => {
                        assert(0 <= f < item.fields.len());
                        assert(satisfies(p, item.fields[f]));
                        assert(satisfies(p, item.fields[f]) == (table.rows[i][place(
                            resource,
                            f,
                        )].compare(lowered(p.op()), scalar_value(p.value()->Lit_0)) == Some(true)));
                    },
                    _ => {},
                }
            }
        }
    }
    lemma_filter_same(base, all, lifted);
}

/// The ID of an item of `resource`.
pub open spec fn id_of(resource: Resource, item: RecordView) -> int {
    item.fields[resource.id as int]->Scalar_0->I32_0 as int
}

/// The elements which pass a test, of a sequence whose keys increase, have keys which
/// increase.
proof fn lemma_filter_increasing<A>(s: Seq<A>, p: spec_fn(A) -> bool, key: spec_fn(A) -> int)
    requires
        forall|i: int, j: int| 0 <= i < j < s.len() ==> key(#[trigger] s[i]) < key(#[trigger] s[j]),
    ensures
        forall|i: int, j: int|
            0 <= i < j < s.filter(p).len() ==> key(#[trigger] s.filter(p)[i]) < key(
                #[trigger] s.filter(p)[j],
            ),
        forall|i: int|
            0 <= i < s.filter(p).len() ==> exists|k: int|
                0 <= k < s.len() && s[k] == #[trigger] s.filter(p)[i],
    decreases s.len(),
{
    reveal(Seq::filter);
    if s.len() > 0 {
        let shorter = s.drop_last();
        assert forall|i: int, j: int| 0 <= i < j < shorter.len() implies key(
            #[trigger] shorter[i],
        ) < key(#[trigger] shorter[j]) by {
            assert(shorter[i] == s[i] && shorter[j] == s[j]);
        }
        lemma_filter_increasing(shorter, p, key);
        let kept = shorter.filter(p);
        let all = s.filter(p);
        assert forall|i: int| 0 <= i < all.len() implies exists|k: int|
            0 <= k < s.len() && s[k] == #[trigger] all[i] by {
            if i < kept.len() {
                assert(all[i] == kept[i]);
                let k = choose|k: int| 0 <= k < shorter.len() && shorter[k] == kept[i];
                assert(s[k] == all[i]);
            } else {
                assert(s[s.len() - 1] == all[i]);
            }
        }
        assert forall|i: int, j: int| 0 <= i < j < all.len() implies key(#[trigger] all[i]) < key(
            #[trigger] all[j],
        ) by {
            assert(all[i] == kept[i]);
            if j < kept.len() {
                assert(all[j] == kept[j]);
            } else {
                let k = choose|k: int| 0 <= k < shorter.len() && shorter[k] == kept[i];
                assert(s[k] == kept[i]);
                assert(all[j] == s[s.len() - 1]);
            }
        }
    }
}

/// Whether the IDs increase along a list of items of `resource`: the items are in the order of
/// their insertion, and no item comes twice.
pub open spec fn increasing(resource: Resource, items: Seq<RecordView>) -> bool {
    forall|i: int, j: int|
        0 <= i < j < items.len() ==> id_of(resource, #[trigger] items[i]) < id_of(
            resource,
            #[trigger] items[j],
        )
}

/// Whether every one of `items` is one of `all`.
pub open spec fn among(items: Seq<RecordView>, all: Seq<RecordView>) -> bool {
    forall|i: int| 0 <= i < items.len() ==> all.contains(#[trigger] items[i])
}

/// Selecting the items of a resource whose fields are all scalars, with a predicate on its
/// fields or without a filter, returns the items in the order of their insertion, and no item
/// twice: along the result, the IDs increase, and every item of the result is one of the items
/// that are found without a filter.
pub proof fn lemma_order(tables: Seq<TableView>, layout: Layout, r: int, t: int, has: Has)
    requires
        layout.wf(),
        0 <= r < layout.schema@.len(),
        scalar_only(layout.schema@[r]),
        crate::sql::db::mock::wf(tables),
        holds_items(tables, layout, r, t),
        found(tables, layout, r, None, None) is Ok,
        resource_implemented(ResourcePredicate::Has(has)),
        compiled(layout, selection(layout, r), Seq::empty(), r, ResourcePredicate::Has(has)) is Ok,
    ensures
        found(tables, layout, r, Some(ResourcePredicate::Has(has)), None) is Ok,
        increasing(layout.schema@[r], found(tables, layout, r, None, None)->Ok_0),
        increasing(
            layout.schema@[r],
            found(tables, layout, r, Some(ResourcePredicate::Has(has)), None)->Ok_0,
        ),
        among(
            found(tables, layout, r, Some(ResourcePredicate::Has(has)), None)->Ok_0,
            found(tables, layout, r, None, None)->Ok_0,
        ),
{
    let resource = layout.schema@[r];
    lemma_found_all(tables, layout, r, t);
    lemma_ids(tables, layout, r, t);
    lemma_predicate(tables, layout, r, t, has);
    let all = found(tables, layout, r, None, None)->Ok_0;
    let items = all.filter(satisfying(has));
    let key = |item: RecordView| id_of(resource, item);
    assert(tables[t].wf());
    assert forall|i: int, j: int| 0 <= i < j < all.len() implies key(#[trigger] all[i]) < key(
        #[trigger] all[j],
    ) by {
        assert(all[i].fields[resource.id as int] == InstanceView::Scalar(
            Scalar::I32((i + 1) as i32),
        ));
        assert(all[j].fields[resource.id as int] == InstanceView::Scalar(
            Scalar::I32((j + 1) as i32),
        ));
    }
    lemma_filter_increasing(all, satisfying(has), key);
    assert forall|i: int, j: int| 0 <= i < j < all.len() implies id_of(
        resource,
        #[trigger] all[i],
    ) < id_of(resource, #[trigger] all[j]) by {
        assert(key(all[i]) < key(all[j]));
    }
    assert forall|i: int, j: int| 0 <= i < j < items.len() implies id_of(
        resource,
        #[trigger] items[i],
    ) < id_of(resource, #[trigger] items[j]) by {
        assert(key(items[i]) < key(items[j]));
    }
    assert forall|i: int| 0 <= i < items.len() implies all.contains(#[trigger] items[i]) by {
        let k = choose|k: int| 0 <= k < all.len() && all[k] == all.filter(satisfying(has))[i];
        assert(all[k] == items[i]);
    }
}

/// The sub-predicates on the first `count` fields compile where none of these fields has one.
proof fn lemma_compiled_empty(layout: Layout, m: ColumnMapView, r: int, has: Has, count: int)
    requires
        0 <= count,
        forall|f: int| 0 <= f < count ==> (#[trigger] has.slot(f)) is None,
    ensures
        compiled_fields(layout, m, Seq::empty(), r, has, count) == Ok::<
            (ColumnMapView, Seq<Clause>),
            Error,
        >((m, Seq::empty())),
    decreases count,
{
    if count > 0 {
        lemma_compiled_empty(layout, m, r, has, count - 1);
        assert(has.slot(count - 1) is None);
    }
}

/// Selecting the items of a resource whose fields are all scalars with a predicate without
/// sub-predicates returns all items.
pub proof fn lemma_empty_predicate(
    tables: Seq<TableView>,
    layout: Layout,
    r: int,
    t: int,
    has: Has,
)
    requires
        layout.wf(),
        0 <= r < layout.schema@.len(),
        scalar_only(layout.schema@[r]),
        crate::sql::db::mock::wf(tables),
        holds_items(tables, layout, r, t),
        found(tables, layout, r, None, None) is Ok,
        forall|f: int| (#[trigger] has.slot(f)) is None,
        !(has.has_plural()),
    ensures
        found(tables, layout, r, Some(ResourcePredicate::Has(has)), None) == found(
            tables,
            layout,
            r,
            None,
            None,
        ),
{
    let n = layout.schema@[r].fields@.len() as int;
    lemma_compiled_empty(layout, selection(layout, r), r, has, n);
    assert forall|f: int| 0 <= f < has.fields@.len() implies ((#[trigger] has.fields@[f]) matches Some(
        sub,
    ) ==> crate::graphql::type_system::implemented(sub)) by {
        assert(has.slot(f) is None);
    }
    lemma_predicate(tables, layout, r, t, has);
    let items = found(tables, layout, r, None, None)->Ok_0;
    assert forall|i: int| 0 <= i < items.len() implies satisfying(has)(#[trigger] items[i]) by {
        assert forall|f: int| 0 <= f < items[i].fields.len() implies (has.slot(f) matches Some(
            Predicate::Scalar(p),
        ) ==> satisfies(p, #[trigger] items[i].fields[f])) by {
            assert(has.slot(f) is None);
        }
    }
    lemma_filter_all(items, satisfying(has));
}

/// A predicate with further sub-predicates narrows the result: where `more` holds every
/// sub-predicate of `has`, selecting with `more` returns the items, of those that selecting with
/// `has` returns, which satisfy `more`.
pub proof fn lemma_predicate_narrows(
    tables: Seq<TableView>,
    layout: Layout,
    r: int,
    t: int,
    has: Has,
    more: Has,
)
    requires
        layout.wf(),
        0 <= r < layout.schema@.len(),
        scalar_only(layout.schema@[r]),
        crate::sql::db::mock::wf(tables),
        holds_items(tables, layout, r, t),
        found(tables, layout, r, None, None) is Ok,
        resource_implemented(ResourcePredicate::Has(has)),
        resource_implemented(ResourcePredicate::Has(more)),
        compiled(layout, selection(layout, r), Seq::empty(), r, ResourcePredicate::Has(has)) is Ok,
        compiled(layout, selection(layout, r), Seq::empty(), r, ResourcePredicate::Has(more)) is Ok,
        forall|f: int| (#[trigger] has.slot(f)) is Some ==> more.slot(f) == has.slot(f),
    ensures
        found(tables, layout, r, Some(ResourcePredicate::Has(has)), None) is Ok,
        found(tables, layout, r, Some(ResourcePredicate::Has(more)), None) == Ok::<
            Seq<RecordView>,
            Error,
        >(
            found(tables, layout, r, Some(ResourcePredicate::Has(has)), None)->Ok_0.filter(
                satisfying(more),
            ),
        ),
{
    lemma_predicate(tables, layout, r, t, has);
    lemma_predicate(tables, layout, r, t, more);
    let items = found(tables, layout, r, None, None)->Ok_0;
    lemma_filter_twice(items, satisfying(has), satisfying(more));
    let both = |item: RecordView| satisfying(has)(item) && satisfying(more)(item);
    assert forall|i: int| 0 <= i < items.len() implies both(#[trigger] items[i]) == satisfying(
        more,
    )(items[i]) by {
        let item = items[i];
        if satisfies_all(more, item) {
            assert forall|f: int| 0 <= f < item.fields.len() implies (has.slot(f) matches Some(
                Predicate::Scalar(p),
            ) ==> satisfies(p, #[trigger] item.fields[f])) by {
                if has.slot(f) is Some {
                    assert(more.slot(f) == has.slot(f));
                }
            }
        }
    }
    lemma_filter_same(items, both, satisfying(more));
}

/// The table that is created for a resource holds the items of the resource: the column of the
/// ID is the one column that the database fills in, and the explicit columns are those of the
/// input fields, in their order.
pub proof fn lemma_table_of(layout: Layout, r: int, count: int)
    requires
        layout.wf(),
        0 <= r < layout.schema@.len(),
        0 <= count <= layout.schema@[r].fields@.len(),
    ensures
        ({
            let resource = layout.schema@[r];
            let columns = schema_columns(layout, r).take(count);
            &&& names(columns.filter(|c: SchemaColumn| is_serial(c))) == if count > resource.id {
                seq![layout.columns@[r]@[resource.id as int]]
            } else {
                Seq::<String>::empty()
            }
            &&& names(columns.filter(|c: SchemaColumn| is_explicit(c))) == Seq::new(
                if count > resource.id {
                    (count - 1) as nat
                } else {
                    count as nat
                },
                |k: int| layout.columns@[r]@[input_field(resource, k)],
            )
        }),
    decreases count,
{
    let resource = layout.schema@[r];
    let all = schema_columns(layout, r);
    let columns = all.take(count);
    let serial = |c: SchemaColumn| is_serial(c);
    let explicit = |c: SchemaColumn| is_explicit(c);
    assert(Schema::resource_wf(layout.schema@, r));
    if count > 0 {
        lemma_table_of(layout, r, count - 1);
        let f = count - 1;
        let before = all.take(f);
        assert(columns =~= before.push(all[f]));
        before.lemma_filter_push(all[f], serial);
        before.lemma_filter_push(all[f], explicit);
        assert(is_serial(all[f]) == (f == resource.id));
        let expected = Seq::new(
            if count > resource.id {
                (count - 1) as nat
            } else {
                count as nat
            },
            |k: int| layout.columns@[r]@[input_field(resource, k)],
        );
        if f == resource.id {
            assert(names(before.filter(serial).push(all[f])) =~= seq![
                layout.columns@[r]@[resource.id as int],
            ]);
            assert(names(before.filter(explicit)) =~= expected);
        } else {
            let held = names(before.filter(explicit));
            assert(names(before.filter(explicit).push(all[f])) =~= held.push(all[f].name));
            assert(all[f].name == layout.columns@[r]@[f]);
            assert(held.len() + 1 == expected.len());
            assert(input_field(resource, held.len() as int) == f);
            assert forall|k: int| 0 <= k < expected.len() implies held.push(all[f].name)[k]
                == expected[k] by {}
            assert(held.push(all[f].name) =~= expected);
        }
    } else {
        reveal(Seq::filter);
        assert(columns =~= Seq::<SchemaColumn>::empty());
        assert(names(columns.filter(serial)) =~= Seq::<String>::empty());
        assert(names(columns.filter(explicit)) =~= Seq::new(
            0nat,
            |k: int| layout.columns@[r]@[input_field(resource, k)],
        ));
    }
}

/// A table which was created for a resource, as registration creates it, holds the items of the
/// resource.
pub proof fn lemma_registered(tables: Seq<TableView>, layout: Layout, r: int, t: int)
    requires
        layout.wf(),
        0 <= r < layout.schema@.len(),
        lookup(tables, layout.tables@[r]@) == Some(t),
        tables[t].serial_cols == table_of(layout, r).serial_cols,
        tables[t].explicit_cols == table_of(layout, r).explicit_cols,
    ensures
        holds_items(tables, layout, r, t),
{
    let resource = layout.schema@[r];
    let n = resource.fields@.len() as int;
    assert(Schema::resource_wf(layout.schema@, r));
    lemma_table_of(layout, r, n);
    assert(schema_columns(layout, r).take(n) =~= schema_columns(layout, r));
    assert(names(tables[t].explicit_cols) =~= input_columns(layout, r));
}

} // verus!
