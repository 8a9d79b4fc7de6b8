//! Compilation of select from high-level GraphQL types into low-level SQL types.

use super::{scalar_to_value, scalar_value, value_scalar, value_to_scalar, Error, Layout};
use crate::graphql::type_system::{
    implemented, resource_implemented, CmpOp, Has, Id, Instance, InstanceView, IntCmpOp, Predicate, Record, RecordView,
    ResourcePredicate, Scalar, ScalarKind, ScalarPredicateCompiler, Schema, StringCmpOp, Type, Value,
};
use crate::sql::db;
use crate::sql::db::mock::{row_contents, selected, Connection, TableView};
use crate::sql::db::{Clause, Column, JoinClause, Op, Row, Select, SelectColumn, WhereClause};
use vstd::prelude::*;
use vstd::string::*;

verus! {

/// A restriction of the output of a query to the items in a relation.
#[derive(Debug)]
pub enum Relation {
    ManyToOne {
        /// The field on the target resource that identifies the owning object.
        inverse: Column,
        /// The owner whose targets we want.
        owner: Id,
    },
    ManyToMany,
}

impl Relation {
    /// Is this a many-to-one relation?
    ///
    /// Many-to-one relations are handled via a simple filter. Loading the targets of a
    /// many-to-many relation is not implemented.
    pub fn is_many_to_one(&self) -> (r: bool)
        ensures
            r == (*self is ManyToOne),
    {
        match self {
            Relation::ManyToOne { .. } => true,
            Relation::ManyToMany => false,
        }
    }
}

/// The join which brings the table of the resource of a field into a query.
#[derive(Debug)]
pub struct Join {
    /// The position in the schema of the resource which has the field.
    pub resource: usize,
    /// The position of the field among the fields of its resource.
    pub field: usize,
    /// The `JOIN` clause.
    pub clause: JoinClause,
}

/// A map from fields to the select column for that field.
#[derive(Debug)]
pub struct ColumnMap {
    /// For each resource and each of its fields, the position of the column of the field among
    /// the selected columns, if the column is selected.
    pub index: Vec<Vec<Option<usize>>>,
    /// The selected columns.
    pub columns: Vec<SelectColumn>,
    /// The joins that the query requires, at most one for each field.
    pub joins: Vec<Join>,
}

/// The mathematical value of a [`ColumnMap`].
pub struct ColumnMapView {
    pub index: Seq<Seq<Option<usize>>>,
    pub columns: Seq<SelectColumn>,
    pub joins: Seq<Join>,
}

impl View for ColumnMap {
    type V = ColumnMapView;

    open spec fn view(&self) -> ColumnMapView {
        ColumnMapView {
            index: self.index@.map_values(|fields: Vec<Option<usize>>| fields@),
            columns: self.columns@,
            joins: self.joins@,
        }
    }
}

/// The `JOIN` clause for the field at position `f` of the resource at position `r`, whose type
/// is the resource at position `t`: the column of the field equals the ID of the joined table.
pub open spec fn join_clause(layout: Layout, r: int, f: int, t: int) -> JoinClause {
    JoinClause {
        table: layout.tables@[t],
        lhs: layout.qualified(r, f),
        op: Op::Eq,
        rhs: layout.qualified(t, layout.schema@[t].id as int),
    }
}

impl ColumnMapView {
    /// A column map without columns.
    pub open spec fn empty(layout: Layout) -> ColumnMapView {
        ColumnMapView {
            index: Seq::new(
                layout.schema@.len(),
                |r: int| Seq::new(layout.schema@[r].fields@.len(), |f: int| None::<usize>),
            ),
            columns: Seq::empty(),
            joins: Seq::empty(),
        }
    }

    /// Whether this column map has a place for each field of each resource.
    pub open spec fn fits(self, layout: Layout) -> bool {
        &&& self.index.len() == layout.schema@.len()
        &&& forall|r: int|
            0 <= r < self.index.len() ==> (#[trigger] self.index[r]).len()
                == layout.schema@[r].fields@.len()
    }

    /// This column map with a column for the field at position `f` of the resource at position
    /// `r`.
    pub open spec fn pushed(self, layout: Layout, r: int, f: int) -> ColumnMapView {
        ColumnMapView {
            index: self.index.update(
                r,
                self.index[r].update(f, Some(self.columns.len() as usize)),
            ),
            columns: self.columns.push(SelectColumn::Column(layout.qualified(r, f))),
            joins: self.joins,
        }
    }

    /// Whether this column map holds the join for the field at position `f` of the resource at
    /// position `r`.
    pub open spec fn has_join(self, r: int, f: int) -> bool {
        exists|i: int|
            0 <= i < self.joins.len() && (#[trigger] self.joins[i]).resource == r && self.joins[i].field
                == f
    }

    /// This column map with the join for the field at position `f` of the resource at position
    /// `r`, whose type is the resource at position `t`. A relation is never joined twice.
    pub open spec fn joined(self, layout: Layout, r: int, f: int, t: int) -> ColumnMapView {
        if self.has_join(r, f) {
            self
        } else {
            ColumnMapView {
                index: self.index,
                columns: self.columns,
                joins: self.joins.push(
                    Join {
                        resource: r as usize,
                        field: f as usize,
                        clause: join_clause(layout, r, f, t),
                    },
                ),
            }
        }
    }

    /// This column map with columns for the first `count` fields of the resource at position
    /// `r`: for each field in turn, the columns of the resource of the field with the join that
    /// brings them in, if the field has the type of a resource, and then the column of the field
    /// itself.
    pub open spec fn with_fields(self, layout: Layout, r: int, count: int) -> ColumnMapView
        decreases r, count,
    {
        if count <= 0 {
            self
        } else {
            let f = count - 1;
            let before = self.with_fields(layout, r, f);
            let nested = match layout.schema@[r].fields@[f].ty {
                Type::Resource(t) => if t < r {
                    before.joined(layout, r, f, t as int).with_fields(
                        layout,
                        t as int,
                        layout.schema@[t as int].fields@.len() as int,
                    )
                } else {
                    before
                },
                Type::Scalar(_) => before,
            };
            nested.pushed(layout, r, f)
        }
    }

    /// This column map with columns for the resource at position `r` and all of its nested
    /// resources.
    pub open spec fn with_resource(self, layout: Layout, r: int) -> ColumnMapView {
        self.with_fields(layout, r, layout.schema@[r].fields@.len() as int)
    }

    /// The `JOIN` clauses of this column map.
    pub open spec fn join_clauses(self) -> Seq<Clause> {
        self.joins.map_values(|j: Join| Clause::Join(j.clause))
    }
}

impl ColumnMap {
    /// A column map for the resource at position `resource` and all of its nested resources.
    #[verifier::loop_isolation(false)]
    pub fn new(layout: &Layout, resource: usize) -> (m: Self)
        requires
            layout.wf(),
            resource < layout.schema@.len(),
        ensures
            m@ == ColumnMapView::empty(*layout).with_resource(*layout, resource as int),
            m@.fits(*layout),
    {
        let mut index: Vec<Vec<Option<usize>>> = Vec::new();
        let mut r: usize = 0;
        while r < layout.schema.len()
            invariant
                r <= layout.schema@.len(),
                index@.len() == r,
                forall|q: int|
                    0 <= q < r ==> (#[trigger] index@[q])@ == Seq::new(
                        layout.schema@[q].fields@.len(),
                        |f: int| None::<usize>,
                    ),
            decreases layout.schema@.len() - r,
        {
            let count = layout.schema.resource(r).fields.len();
            let mut fields: Vec<Option<usize>> = Vec::new();
            while fields.len() < count
                invariant
                    fields@.len() <= count,
                    forall|f: int| 0 <= f < fields@.len() ==> (#[trigger] fields@[f]) is None,
                decreases count - fields@.len(),
            {
                fields.push(None);
            }
            proof {
                assert(fields@ =~= Seq::new(count as nat, |f: int| None::<usize>));
            }
            index.push(fields);
            r += 1;
        }
        let mut columns = ColumnMap { index, columns: Vec::new(), joins: Vec::new() };
        proof {
            assert(columns@.index =~= ColumnMapView::empty(*layout).index);
            assert(columns@ == ColumnMapView::empty(*layout));
        }
        columns.add_resource(layout, resource);
        columns
    }

    /// Add columns for the resource at position `resource` and all of its nested resources.
    #[verifier::loop_isolation(false)]
    pub fn add_resource(&mut self, layout: &Layout, resource: usize)
        requires
            layout.wf(),
            resource < layout.schema@.len(),
            old(self)@.fits(*layout),
        ensures
            final(self)@ == old(self)@.with_resource(*layout, resource as int),
            final(self)@.fits(*layout),
        decreases resource,
    {
        // For each field, add the columns for every field on the type of the field, if that type
        // is a resource, and then the column for the field itself.
        let ghost before = self@;
        let definition = layout.schema.resource(resource);
        let mut f: usize = 0;
        while f < definition.fields.len()
            invariant
                f <= definition.fields@.len(),
                self@ == before.with_fields(*layout, resource as int, f as int),
                self@.fits(*layout),
            decreases definition.fields@.len() - f,
        {
            proof {
                assert(Schema::resource_wf(layout.schema@, resource as int));
            }
            match definition.fields[f].ty {
                Type::Resource(t) => {
                    // Add a join clause to bring this table into the result set.
                    self.join(layout, resource, f);
                    // Select the fields of the joined table.
                    self.add_resource(layout, t);
                },
                Type::Scalar(_) => {
                    // Nothing to do if this column is a scalar; all there is is the column
                    // itself, which we add below.
                },
            }
            // Add the column for this field.
            self.push(layout, resource, f);
            f += 1;
        }
    }

    /// Add a column for the field at position `field` of the resource at position `resource`.
    pub fn push(&mut self, layout: &Layout, resource: usize, field: usize)
        requires
            layout.wf(),
            resource < layout.schema@.len(),
            field < layout.schema@[resource as int].fields@.len(),
            old(self)@.fits(*layout),
        ensures
            final(self)@ == old(self)@.pushed(*layout, resource as int, field as int),
            final(self)@.fits(*layout),
    {
        let ghost before = self@;
        let position = self.columns.len();
        proof {
            assert(before.index[resource as int] == self.index@[resource as int]@);
        }
        self.index[resource].set(field, Some(position));
        self.columns.push(SelectColumn::Column(layout.field_column(resource, field)));
        proof {
            let after = before.pushed(*layout, resource as int, field as int);
            assert(self@.index =~= after.index);
        }
    }

    /// Add a relation to the query without including its fields in the results.
    ///
    /// Nothing changes if the relation is in the query.
    #[verifier::loop_isolation(false)]
    pub fn join(&mut self, layout: &Layout, resource: usize, field: usize)
        requires
            layout.wf(),
            resource < layout.schema@.len(),
            field < layout.schema@[resource as int].fields@.len(),
            layout.schema@[resource as int].fields@[field as int].ty is Resource,
        ensures
            final(self)@ == old(self)@.joined(
                *layout,
                resource as int,
                field as int,
                layout.schema@[resource as int].fields@[field as int].ty->Resource_0 as int,
            ),
            final(self)@.fits(*layout) == old(self)@.fits(*layout),
    {
        let ghost before = self@;
        let mut i: usize = 0;
        while i < self.joins.len()
            invariant
                i <= self.joins@.len(),
                self@ == before,
                forall|k: int|
                    0 <= k < i ==> !((#[trigger] self.joins@[k]).resource == resource
                        && self.joins@[k].field == field),
            decreases self.joins@.len() - i,
        {
            if self.joins[i].resource == resource && self.joins[i].field == field {
                return ;
            }
            i += 1;
        }
        proof {
            assert(Schema::resource_wf(layout.schema@, resource as int));
        }
        // We join on the column of the field being equal to the primary key of the table of
        // the resource of the field.
        match layout.schema.resource(resource).fields[field].ty {
            Type::Resource(t) => {
                proof {
                    assert(Schema::resource_wf(layout.schema@, t as int));
                }
                let id = layout.schema.resource(t).id;
                self.joins.push(
                    Join {
                        resource,
                        field,
                        clause: JoinClause {
                            table: layout.table(t),
                            lhs: layout.field_column(resource, field),
                            op: Op::Eq,
                            rhs: layout.field_column(t, id),
                        },
                    },
                );
                proof {
                    assert(self@.index =~= before.index);
                }
            },
            Type::Scalar(_) => {},
        }
    }

    /// The index of the column representing the field at position `field` of the resource at
    /// position `resource`, if the column is selected.
    pub fn index(&self, resource: usize, field: usize) -> (r: Option<usize>)
        ensures
            r == if resource < self@.index.len() && field < self@.index[resource as int].len() {
                self@.index[resource as int][field as int]
            } else {
                None
            },
    {
        if resource < self.index.len() && field < self.index[resource].len() {
            self.index[resource][field]
        } else {
            None
        }
    }
}

/// The SQL comparison for a comparison operator.
pub open spec fn lowered(op: CmpOp) -> Op {
    match op {
        CmpOp::Int(IntCmpOp::EQ) => Op::Eq,
        CmpOp::Int(IntCmpOp::NE) => Op::Ne,
        CmpOp::Int(IntCmpOp::GE) => Op::Ge,
        CmpOp::Int(IntCmpOp::GT) => Op::Gt,
        CmpOp::Int(IntCmpOp::LE) => Op::Le,
        CmpOp::Int(IntCmpOp::LT) => Op::Lt,
        CmpOp::String(StringCmpOp::EQ) => Op::Eq,
        CmpOp::String(StringCmpOp::NE) => Op::Ne,
    }
}

/// Whether a comparison operator applies to scalars of the given kind.
pub open spec fn applies(op: CmpOp, kind: ScalarKind) -> bool {
    match op {
        CmpOp::Int(_) => kind.is_int(),
        CmpOp::String(_) => kind == ScalarKind::String,
    }
}

/// Compiler to turn a scalar predicate into a condition which is part of a `WHERE` clause.
pub struct ScalarWhereCondition {
    /// The column of the field which the predicate filters.
    pub column: Column,
    /// The kind of the field.
    pub kind: ScalarKind,
    /// The name of the resource of the field.
    pub resource: String,
}

impl ScalarWhereCondition {
    /// The `WHERE` clause for the comparison of this column with the literal `value` using
    /// `op`, where the operator and the literal are of the kind of the field.
    pub open spec fn clause(self, op: CmpOp, value: Value) -> Result<Clause, Error>
        recommends
            value is Lit,
    {
        match value {
            Value::Var(_) => Err(Error::InvalidPredicate { resource: self.resource }),
            Value::Lit(x) => if applies(op, self.kind) && x.kind() == self.kind {
                Ok(
                    Clause::Where(
                        WhereClause { column: self.column, op: lowered(op), param: scalar_value(x) },
                    ),
                )
            } else {
                Err(Error::InvalidPredicate { resource: self.resource })
            },
        }
    }
}

impl ScalarPredicateCompiler for ScalarWhereCondition {
    type Result = Result<Clause, Error>;

    /// Pattern variables are not implemented: the value is a literal.
    open spec fn accepts(self, op: CmpOp, value: Value) -> bool {
        value is Lit
    }

    open spec fn compiles(self, op: CmpOp, value: Value, result: Result<Clause, Error>) -> bool {
        result == self.clause(op, value)
    }

    fn cmp(self, op: CmpOp, value: Value) -> (result: Result<Clause, Error>) {
        match value {
            Value::Lit(x) => {
                let fits = match op {
                    CmpOp::Int(_) => match self.kind {
                        ScalarKind::String => false,
                        _ => true,
                    },
                    CmpOp::String(_) => match self.kind {
                        ScalarKind::String => true,
                        _ => false,
                    },
                };
                if fits && x.kind() == self.kind {
                    let op = match op {
                        CmpOp::Int(IntCmpOp::EQ) => Op::Eq,
                        CmpOp::Int(IntCmpOp::NE) => Op::Ne,
                        CmpOp::Int(IntCmpOp::GE) => Op::Ge,
                        CmpOp::Int(IntCmpOp::GT) => Op::Gt,
                        CmpOp::Int(IntCmpOp::LE) => Op::Le,
                        CmpOp::Int(IntCmpOp::LT) => Op::Lt,
                        CmpOp::String(StringCmpOp::EQ) => Op::Eq,
                        CmpOp::String(StringCmpOp::NE) => Op::Ne,
                    };
                    Ok(
                        Clause::Where(
                            WhereClause { column: self.column, op, param: scalar_to_value(x) },
                        ),
                    )
                } else {
                    Err(Error::InvalidPredicate { resource: self.resource })
                }
            },
            Value::Var(_) => vstd::pervasive::unreached(),
        }
    }
}

/// The joins and the `WHERE` clauses of a query after a predicate on the resource at position
/// `r` is compiled.
///
/// The fields are walked in their order, and all conditions conjoin. A predicate on a field
/// with the type of a resource requires the join of the table of that resource. Predicates
/// whose compilation is not implemented are left out of account.
pub open spec fn compiled(
    layout: Layout,
    m: ColumnMapView,
    clauses: Seq<Clause>,
    r: int,
    predicate: ResourcePredicate,
) -> Result<(ColumnMapView, Seq<Clause>), Error>
    recommends
        resource_implemented(predicate),
    decreases r, 2int, 0int,
{
    match predicate {
        ResourcePredicate::Has(has) => compiled_fields(
            layout,
            m,
            clauses,
            r,
            has,
            layout.schema@[r].fields@.len() as int,
        ),
        ResourcePredicate::Is(sub) => match layout.schema@[r].primary {
            Some(f) => compiled_field(layout, m, clauses, r, f as int, *sub),
            None => Err(Error::InvalidPredicate { resource: layout.schema@[r].name }),
        },
    }
}

/// The joins and the `WHERE` clauses of a query after the sub-predicates on the first `count`
/// fields of the resource at position `r` are compiled.
pub open spec fn compiled_fields(
    layout: Layout,
    m: ColumnMapView,
    clauses: Seq<Clause>,
    r: int,
    has: Has,
    count: int,
) -> Result<(ColumnMapView, Seq<Clause>), Error>
    decreases r, 1int, count,
{
    if count <= 0 {
        Ok((m, clauses))
    } else {
        match compiled_fields(layout, m, clauses, r, has, count - 1) {
            Err(e) => Err(e),
            Ok((m, clauses)) => match has.slot(count - 1) {
                None => Ok((m, clauses)),
                Some(sub) => compiled_field(layout, m, clauses, r, count - 1, sub),
            },
        }
    }
}

/// The joins and the `WHERE` clauses of a query after a predicate on the field at position `f`
/// of the resource at position `r` is compiled.
pub open spec fn compiled_field(
    layout: Layout,
    m: ColumnMapView,
    clauses: Seq<Clause>,
    r: int,
    f: int,
    predicate: Predicate,
) -> Result<(ColumnMapView, Seq<Clause>), Error>
    decreases r, 0int, 0int,
{
    match (layout.schema@[r].fields@[f].ty, predicate) {
        (Type::Scalar(kind), Predicate::Scalar(p)) => match (ScalarWhereCondition {
            column: layout.qualified(r, f),
            kind,
            resource: layout.schema@[r].name,
        }).clause(p.op(), p.value()) {
            Ok(clause) => Ok((m, clauses.push(clause))),
            Err(e) => Err(e),
        },
        (Type::Resource(t), Predicate::Resource(p)) => if t < r {
            compiled(layout, m.joined(layout, r, f, t as int), clauses, t as int, p)
        } else {
            Err(Error::InvalidPredicate { resource: layout.schema@[r].name })
        },
        _ => Err(Error::InvalidPredicate { resource: layout.schema@[r].name }),
    }
}

/// The compilation of sub-predicates fails where it fails for some of the first fields.
proof fn lemma_compiled_fields_fail(
    layout: Layout,
    m: ColumnMapView,
    clauses: Seq<Clause>,
    r: int,
    has: Has,
    n: int,
    count: int,
)
    requires
        0 <= n <= count,
        compiled_fields(layout, m, clauses, r, has, n) is Err,
    ensures
        compiled_fields(layout, m, clauses, r, has, count) == compiled_fields(
            layout,
            m,
            clauses,
            r,
            has,
            n,
        ),
    decreases count - n,
{
    if n < count {
        lemma_compiled_fields_fail(layout, m, clauses, r, has, n, count - 1);
    }
}

/// Compile a predicate on the resource at position `resource` into `WHERE` clauses on a query
/// of the table of that resource.
///
/// The clauses are added to `clauses`, and the joins that they require to `columns`.
///
/// Predicates which compare with a pattern variable, and sub-predicates on plural fields, are
/// not implemented: [`ResourcePredicate::is_implemented`] tells whether a predicate can be
/// compiled.
///
/// # Errors
///
/// Fails if the predicate does not fit the resource: if it is on a primary field which the
/// resource does not declare, if a sub-predicate is not of the type of its field, or if it
/// compares a scalar with a literal of another kind or with an operator for another kind. Where
/// it fails, `columns` and `clauses` may hold part of the compilation.
#[verifier::loop_isolation(false)]
pub fn compile_predicate(
    layout: &Layout,
    columns: &mut ColumnMap,
    clauses: &mut Vec<Clause>,
    resource: usize,
    predicate: ResourcePredicate,
) -> (r: Result<(), Error>)
    requires
        layout.wf(),
        resource < layout.schema@.len(),
        resource_implemented(predicate),
    ensures
        match compiled(*layout, old(columns)@, old(clauses)@, resource as int, predicate) {
            Ok((m, c)) => r == Ok::<(), Error>(()) && final(columns)@ == m && final(clauses)@ == c,
            Err(e) => r == Err::<(), Error>(e),
        },
        final(columns)@.fits(*layout) == old(columns)@.fits(*layout),
        final(columns)@.index == old(columns)@.index,
        final(columns)@.columns == old(columns)@.columns,
    decreases resource, 1int,
{
    let ghost m0 = columns@;
    let ghost c0 = clauses@;
    let definition = layout.schema.resource(resource);
    match predicate {
        ResourcePredicate::Has(has) => {
            let ghost given = has;
            let mut has = has;
            let mut f: usize = 0;
            while f < definition.fields.len()
                invariant
                    f <= definition.fields@.len(),
                    compiled_fields(*layout, m0, c0, resource as int, given, f as int) == Ok::<
                        (ColumnMapView, Seq<Clause>),
                        Error,
                    >((columns@, clauses@)),
                    forall|g: int| g >= f ==> has.slot(g) == given.slot(g),
                    has.plural_fields == given.plural_fields,
                    resource_implemented(ResourcePredicate::Has(given)),
                    columns@.fits(*layout) == m0.fits(*layout),
                    columns@.index == m0.index,
                    columns@.columns == m0.columns,
                decreases definition.fields@.len() - f,
            {
                if let Some(sub) = has.take(f) {
                    proof {
                        assert(given.slot(f as int) == Some(sub));
                        assert(given.fields@[f as int] == Some(sub));
                    }
                    match compile_field(layout, columns, clauses, resource, f, sub) {
                        Ok(()) => {},
                        Err(e) => {
                            proof {
                                lemma_compiled_fields_fail(
                                    *layout,
                                    m0,
                                    c0,
                                    resource as int,
                                    given,
                                    f + 1,
                                    definition.fields@.len() as int,
                                );
                            }
                            return Err(e);
                        },
                    }
                }
                f += 1;
            }
            Ok(())
        },
        ResourcePredicate::Is(sub) => {
            match definition.primary {
                Some(f) => {
                    proof {
                        assert(Schema::resource_wf(layout.schema@, resource as int));
                    }
                    compile_field(layout, columns, clauses, resource, f, *sub)
                },
                None => Err(Error::InvalidPredicate { resource: definition.name.clone() }),
            }
        },
    }
}

/// Compile a predicate on the field at position `field` of the resource at position `resource`.
///
/// A predicate on a scalar becomes one `WHERE` clause. A predicate on a resource joins the
/// table of that resource into the query, and is compiled into clauses on the fields of that
/// resource.
fn compile_field(
    layout: &Layout,
    columns: &mut ColumnMap,
    clauses: &mut Vec<Clause>,
    resource: usize,
    field: usize,
    predicate: Predicate,
) -> (r: Result<(), Error>)
    requires
        layout.wf(),
        resource < layout.schema@.len(),
        field < layout.schema@[resource as int].fields@.len(),
        implemented(predicate),
    ensures
        match compiled_field(
            *layout,
            old(columns)@,
            old(clauses)@,
            resource as int,
            field as int,
            predicate,
        ) {
            Ok((m, c)) => r == Ok::<(), Error>(()) && final(columns)@ == m && final(clauses)@ == c,
            Err(e) => r == Err::<(), Error>(e),
        },
        final(columns)@.fits(*layout) == old(columns)@.fits(*layout),
        final(columns)@.index == old(columns)@.index,
        final(columns)@.columns == old(columns)@.columns,
    decreases resource, 0int,
{
    let definition = layout.schema.resource(resource);
    proof {
        assert(Schema::resource_wf(layout.schema@, resource as int));
    }
    match (definition.fields[field].ty, predicate) {
        (Type::Scalar(kind), Predicate::Scalar(p)) => {
            let compiler = ScalarWhereCondition {
                column: layout.field_column(resource, field),
                kind,
                resource: definition.name.clone(),
            };
            match p.compile(compiler) {
                Ok(clause) => {
                    clauses.push(clause);
                    Ok(())
                },
                Err(e) => Err(e),
            }
        },
        (Type::Resource(t), Predicate::Resource(p)) => {
            // Join the table of the field into the query.
            columns.join(layout, resource, field);
            compile_predicate(layout, columns, clauses, t, p)
        },
        _ => Err(Error::InvalidPredicate { resource: definition.name.clone() }),
    }
}

/// Whether a query can be restricted to the items in a relation: it can unless the relation is
/// many-to-many.
pub open spec fn loadable(relation: Option<Relation>) -> bool {
    relation matches Some(r) ==> r is ManyToOne
}

/// The clauses of a query when its output is restricted to the items in a relation.
pub open spec fn restricted(clauses: Seq<Clause>, relation: Option<Relation>) -> Seq<Clause>
    recommends
        loadable(relation),
{
    match relation {
        // We want all the objects in the target resource where the inverse of the relation (the
        // field that indicates the owner of the target) matches the ID of the owning object.
        Some(Relation::ManyToOne { inverse, owner }) => clauses.push(
            Clause::Where(
                WhereClause { column: inverse, op: Op::Eq, param: db::Value::Int4(owner) },
            ),
        ),
        _ => clauses,
    }
}

/// The column map and the clauses of the query for the items of the resource at position `r`
/// which match `filter`, restricted to the items in `relation`: the `WHERE` clauses of the
/// filter, the `WHERE` clause of the relation, and then the `JOIN` clauses.
pub open spec fn planned(
    layout: Layout,
    r: int,
    filter: Option<ResourcePredicate>,
    relation: Option<Relation>,
) -> Result<(ColumnMapView, Seq<Clause>), Error>
    recommends
        filter matches Some(predicate) ==> resource_implemented(predicate),
        loadable(relation),
{
    let selection = ColumnMapView::empty(layout).with_resource(layout, r);
    let state = match filter {
        Some(predicate) => compiled(layout, selection, Seq::empty(), r, predicate),
        None => Ok((selection, Seq::empty())),
    };
    match state {
        Err(e) => Err(e),
        Ok((m, clauses)) => Ok((m, restricted(clauses, relation) + m.join_clauses())),
    }
}

/// Copy a list of select columns.
fn clone_columns(columns: &Vec<SelectColumn>) -> (r: Vec<SelectColumn>)
    ensures
        r@ == columns@,
{
    let mut out: Vec<SelectColumn> = Vec::new();
    let mut i: usize = 0;
    while i < columns.len()
        invariant
            i <= columns.len(),
            out@ == columns@.take(i as int),
        decreases columns.len() - i,
    {
        out.push(columns[i].clone());
        proof {
            assert(columns@.take(i + 1) =~= columns@.take(i as int).push(columns@[i as int]));
        }
        i += 1;
    }
    proof {
        assert(columns@.take(columns.len() as int) =~= columns@);
    }
    out
}

/// Build the query for the items of the resource at position `resource` which match `filter`.
///
/// Optionally, restrict output to items in a relation. The query selects the columns which are
/// needed to reconstruct the items from the query results; the column map that is returned with
/// it tells where the column of each field is found.
///
/// A filter must be one whose compilation is implemented (see [`compile_predicate`]), and a
/// relation must be many-to-one: loading the targets of a many-to-many relation is not
/// implemented.
///
/// # Errors
///
/// Fails if [`compile_predicate`] fails for the filter.
#[verifier::loop_isolation(false)]
pub fn plan(
    layout: &Layout,
    resource: usize,
    filter: Option<ResourcePredicate>,
    relation: Option<Relation>,
) -> (r: Result<(Select, ColumnMap), Error>)
    requires
        layout.wf(),
        resource < layout.schema@.len(),
        filter matches Some(predicate) ==> resource_implemented(predicate),
        loadable(relation),
    ensures
        match planned(*layout, resource as int, filter, relation) {
            Ok((m, clauses)) => r matches Ok((query, columns)) && columns@ == m && query.table
                == layout.tables@[resource as int] && query.columns@ == ColumnMapView::empty(
                *layout,
            ).with_resource(*layout, resource as int).columns && query.clauses@ == clauses
                && m.fits(*layout),
            Err(e) => r == Err::<(Select, ColumnMap), Error>(e),
        },
{
    // Traverse the resource and map its fields to tables and columns.
    let table = layout.table(resource);
    let mut columns = ColumnMap::new(layout, resource);
    let select = clone_columns(&columns.columns);
    // Select the columns we need to reconstruct this resource from the query results and apply
    // the `filter`.
    let mut clauses: Vec<Clause> = Vec::new();
    if let Some(predicate) = filter {
        match compile_predicate(layout, &mut columns, &mut clauses, resource, predicate) {
            Ok(()) => {},
            Err(e) => {
                return Err(e);
            },
        }
    }
    // Filter down to just the relation of interest.
    match relation {
        Some(Relation::ManyToOne { inverse, owner }) => {
            clauses.push(
                Clause::Where(
                    WhereClause { column: inverse, op: Op::Eq, param: db::Value::Int4(owner) },
                ),
            );
        },
        _ => {},
    }
    let ghost wheres = clauses@;
    let mut j: usize = 0;
    while j < columns.joins.len()
        invariant
            j <= columns.joins@.len(),
            clauses@ == wheres + columns@.join_clauses().take(j as int),
        decreases columns.joins@.len() - j,
    {
        clauses.push(Clause::Join(columns.joins[j].clause.clone()));
        proof {
            let joins = columns@.join_clauses();
            assert(joins.take(j + 1) =~= joins.take(j as int).push(joins[j as int]));
            assert(clauses@ =~= wheres + joins.take(j + 1));
        }
        j += 1;
    }
    proof {
        let joins = columns@.join_clauses();
        assert(joins.take(joins.len() as int) =~= joins);
    }
    Ok((Select::new(select, table).clauses(clauses), columns))
}

/// The object which is reconstructed for the field at position `f` of the resource at position
/// `r` from a row of query results.
///
/// A scalar is converted from the value of the column of the field. An item of a resource is
/// reconstructed from the columns of the fields of that resource in the same row.
pub open spec fn built_field(
    layout: Layout,
    index: Seq<Seq<Option<usize>>>,
    row: Seq<db::Value>,
    r: int,
    f: int,
) -> Result<InstanceView, Error>
    decreases r, 0int, 0int,
{
    match layout.schema@[r].fields@[f].ty {
        Type::Resource(t) => if t < r {
            match built(layout, index, row, t as int) {
                Ok(record) => Ok(InstanceView::Resource(record)),
                Err(e) => Err(e),
            }
        } else {
            Err(Error::InvalidPredicate { resource: layout.schema@[r].name })
        },
        Type::Scalar(kind) => match index[r][f] {
            None => Err(
                Error::Sql { error: db::Error::NoSuchColumn { column: layout.columns@[r]@[f] } },
            ),
            Some(i) => if i < row.len() {
                match value_scalar(kind, row[i as int]) {
                    Some(s) => Ok(InstanceView::Scalar(s)),
                    None => Err(Error::TypeMismatch { expected: kind, got: row[i as int].ty() }),
                }
            } else {
                Err(Error::Sql { error: db::Error::NoSuchIndex { index: i } })
            },
        },
    }
}

/// The objects which are reconstructed for the first `count` fields of the resource at position
/// `r` from a row of query results.
pub open spec fn built_fields(
    layout: Layout,
    index: Seq<Seq<Option<usize>>>,
    row: Seq<db::Value>,
    r: int,
    count: int,
) -> Result<Seq<InstanceView>, Error>
    decreases r, 1int, count,
{
    if count <= 0 {
        Ok(Seq::empty())
    } else {
        match built_fields(layout, index, row, r, count - 1) {
            Err(e) => Err(e),
            Ok(fields) => match built_field(layout, index, row, r, count - 1) {
                Ok(field) => Ok(fields.push(field)),
                Err(e) => Err(e),
            },
        }
    }
}

/// The item of the resource at position `r` which is reconstructed from a row of query results.
pub open spec fn built(layout: Layout, index: Seq<Seq<Option<usize>>>, row: Seq<db::Value>, r: int) -> Result<
    RecordView,
    Error,
>
    decreases r, 2int, 0int,
{
    match built_fields(layout, index, row, r, layout.schema@[r].fields@.len() as int) {
        Ok(fields) => Ok(RecordView { resource: r as usize, fields }),
        Err(e) => Err(e),
    }
}

/// The items of the resource at position `r` which are reconstructed from rows of query results.
pub open spec fn parsed(
    layout: Layout,
    index: Seq<Seq<Option<usize>>>,
    rows: Seq<Seq<db::Value>>,
    r: int,
) -> Result<Seq<RecordView>, Error>
    decreases rows.len(),
{
    if rows.len() == 0 {
        Ok(Seq::empty())
    } else {
        match parsed(layout, index, rows.drop_last(), r) {
            Err(e) => Err(e),
            Ok(records) => match built(layout, index, rows.last(), r) {
                Ok(record) => Ok(records.push(record)),
                Err(e) => Err(e),
            },
        }
    }
}

/// The reconstruction of fields fails where it fails for some of the first fields.
proof fn lemma_built_fields_fail(
    layout: Layout,
    index: Seq<Seq<Option<usize>>>,
    row: Seq<db::Value>,
    r: int,
    n: int,
    count: int,
)
    requires
        0 <= n <= count,
        built_fields(layout, index, row, r, n) is Err,
    ensures
        built_fields(layout, index, row, r, count) == built_fields(layout, index, row, r, n),
    decreases count - n,
{
    if n < count {
        lemma_built_fields_fail(layout, index, row, r, n, count - 1);
    }
}

/// The reconstruction of items fails where it fails for some of the first rows.
proof fn lemma_parsed_fail(
    layout: Layout,
    index: Seq<Seq<Option<usize>>>,
    rows: Seq<Seq<db::Value>>,
    r: int,
    n: int,
)
    requires
        0 <= n <= rows.len(),
        parsed(layout, index, rows.take(n), r) is Err,
    ensures
        parsed(layout, index, rows, r) == parsed(layout, index, rows.take(n), r),
    decreases rows.len() - n,
{
    if n < rows.len() {
        assert(rows.take(n + 1).drop_last() =~= rows.take(n));
        lemma_parsed_fail(layout, index, rows, r, n + 1);
    } else {
        assert(rows.take(n) =~= rows);
    }
}

/// The mathematical values of a list of objects.
pub open spec fn instance_views(instances: Seq<Instance>) -> Seq<InstanceView> {
    Seq::new(instances.len(), |i: int| instances[i]@)
}

/// The mathematical values of a list of items.
pub open spec fn record_views(records: Seq<Record>) -> Seq<RecordView> {
    Seq::new(records.len(), |i: int| records[i]@)
}

/// The mathematical value of an item is made of those of its fields.
pub proof fn lemma_record_view(record: Record)
    ensures
        record@ == (RecordView {
            resource: record.resource,
            fields: instance_views(record.fields@),
        }),
{
    assert(record@.fields =~= instance_views(record.fields@));
}

/// Builder to help a resource object reconstruct itself from query results.
pub struct ResourceBuilder<'a> {
    layout: &'a Layout,
    row: &'a Row,
    columns: &'a ColumnMap,
}

impl<'a> ResourceBuilder<'a> {
    /// Whether this builder can be used: the layout is consistent, and the column map has a
    /// place for each field.
    pub closed spec fn wf(&self) -> bool {
        self.layout.wf() && self.columns@.fits(*self.layout)
    }

    /// The layout of the schema whose items this builder reconstructs.
    pub closed spec fn layout(&self) -> Layout {
        *self.layout
    }

    /// The column map which tells where the column of each field is found in the row.
    pub closed spec fn columns(&self) -> ColumnMapView {
        self.columns@
    }

    /// The row of query results.
    pub closed spec fn row(&self) -> Seq<db::Value> {
        self.row@
    }

    /// A builder which reconstructs items from `row`.
    pub fn new(layout: &'a Layout, columns: &'a ColumnMap, row: &'a Row) -> (b: Self)
        requires
            layout.wf(),
            columns@.fits(*layout),
        ensures
            b.wf(),
            b.layout() == *layout,
            b.columns() == columns@,
            b.row() == row@,
    {
        ResourceBuilder { layout, row, columns }
    }

    /// Reconstruct the item of the resource at position `resource`.
    ///
    /// # Errors
    ///
    /// Fails with the failure of the first field, in the order of the fields, which cannot be
    /// reconstructed.
    #[verifier::loop_isolation(false)]
    pub fn build(&self, resource: usize) -> (r: Result<Record, Error>)
        requires
            self.wf(),
            resource < self.layout().schema@.len(),
        ensures
            match built(self.layout(), self.columns().index, self.row(), resource as int) {
                Ok(record) => r matches Ok(out) && out@ == record,
                Err(e) => r == Err::<Record, Error>(e),
            },
        decreases resource, 1int,
    {
        let count = self.layout.schema.resource(resource).fields.len();
        let mut fields: Vec<Instance> = Vec::new();
        proof {
            assert(instance_views(fields@) =~= Seq::<InstanceView>::empty());
        }
        let mut f: usize = 0;
        while f < count
            invariant
                f <= count,
                built_fields(self.layout(), self.columns().index, self.row(), resource as int, f as int)
                    == Ok::<Seq<InstanceView>, Error>(instance_views(fields@)),
            decreases count - f,
        {
            match self.field(resource, f) {
                Ok(field) => {
                    let ghost before = instance_views(fields@);
                    fields.push(field);
                    proof {
                        assert(instance_views(fields@) =~= before.push(field@));
                    }
                },
                Err(e) => {
                    proof {
                        lemma_built_fields_fail(
                            self.layout(),
                            self.columns().index,
                            self.row(),
                            resource as int,
                            f + 1,
                            count as int,
                        );
                    }
                    return Err(e);
                },
            }
            f += 1;
        }
        let record = Record { resource, fields };
        proof {
            lemma_record_view(record);
        }
        Ok(record)
    }

    /// Recursively reconstruct the value of the field at position `field` of the resource at
    /// position `resource`.
    ///
    /// # Errors
    ///
    /// Fails if the column of a scalar field is not selected or not in the row, or if its value
    /// does not have the type of the field.
    pub fn field(&self, resource: usize, field: usize) -> (r: Result<Instance, Error>)
        requires
            self.wf(),
            resource < self.layout().schema@.len(),
            field < self.layout().schema@[resource as int].fields@.len(),
        ensures
            match built_field(
                self.layout(),
                self.columns().index,
                self.row(),
                resource as int,
                field as int,
            ) {
                Ok(value) => r matches Ok(out) && out@ == value,
                Err(e) => r == Err::<Instance, Error>(e),
            },
        decreases resource, 0int,
    {
        proof {
            assert(Schema::resource_wf(self.layout.schema@, resource as int));
        }
        match self.layout.schema.resource(resource).fields[field].ty {
            Type::Resource(t) => match self.build(t) {
                Ok(record) => Ok(Instance::Resource(record)),
                Err(e) => Err(e),
            },
            Type::Scalar(kind) => match self.columns.index(resource, field) {
                None => Err(
                    Error::Sql {
                        error: db::Error::NoSuchColumn { column: self.layout.column(resource, field) },
                    },
                ),
                Some(column) => match self.row.column(column) {
                    Err(e) => Err(Error::sql(e)),
                    Ok(value) => match value_to_scalar(kind, value) {
                        Ok(s) => Ok(Instance::Scalar(s)),
                        Err(e) => Err(e),
                    },
                },
            },
        }
    }
}

impl ColumnMap {
    /// Convert a row of query results into an item of the resource at position `resource`.
    pub fn parse_row(&self, layout: &Layout, row: &Row, resource: usize) -> (r: Result<Record, Error>)
        requires
            layout.wf(),
            self@.fits(*layout),
            resource < layout.schema@.len(),
        ensures
            match built(*layout, self@.index, row@, resource as int) {
                Ok(record) => r matches Ok(out) && out@ == record,
                Err(e) => r == Err::<Record, Error>(e),
            },
    {
        ResourceBuilder::new(layout, self, row).build(resource)
    }

    /// Convert rows of query results into items of the resource at position `resource`.
    ///
    /// # Errors
    ///
    /// Fails with the failure of the first row which cannot be converted.
    #[verifier::loop_isolation(false)]
    pub fn parse_rows(&self, layout: &Layout, rows: &Vec<Row>, resource: usize) -> (r: Result<
        Vec<Record>,
        Error,
    >)
        requires
            layout.wf(),
            self@.fits(*layout),
            resource < layout.schema@.len(),
        ensures
            match parsed(*layout, self@.index, row_contents(rows@), resource as int) {
                Ok(records) => r matches Ok(out) && record_views(out@) == records,
                Err(e) => r == Err::<Vec<Record>, Error>(e),
            },
    {
        let ghost given = row_contents(rows@);
        let mut records: Vec<Record> = Vec::new();
        proof {
            assert(given.take(0) =~= Seq::<Seq<db::Value>>::empty());
            assert(record_views(records@) =~= Seq::<RecordView>::empty());
        }
        let mut i: usize = 0;
        while i < rows.len()
            invariant
                i <= rows.len(),
                parsed(*layout, self@.index, given.take(i as int), resource as int) == Ok::<
                    Seq<RecordView>,
                    Error,
                >(record_views(records@)),
            decreases rows.len() - i,
        {
            proof {
                assert(given.take(i + 1).drop_last() =~= given.take(i as int));
                assert(given.take(i + 1).last() == rows@[i as int]@);
            }
            match self.parse_row(layout, &rows[i], resource) {
                Ok(record) => {
                    let ghost before = record_views(records@);
                    records.push(record);
                    proof {
                        assert(record_views(records@) =~= before.push(record@));
                    }
                },
                Err(e) => {
                    proof {
                        lemma_parsed_fail(*layout, self@.index, given, resource as int, i + 1);
                    }
                    return Err(e);
                },
            }
            i += 1;
        }
        proof {
            assert(given.take(rows.len() as int) =~= given);
        }
        Ok(records)
    }
}

/// The items of the resource at position `r` which match `filter`, restricted to the items in
/// `relation`, in a database with the given tables.
pub open spec fn found(
    tables: Seq<TableView>,
    layout: Layout,
    r: int,
    filter: Option<ResourcePredicate>,
    relation: Option<Relation>,
) -> Result<Seq<RecordView>, Error>
    recommends
        filter matches Some(predicate) ==> resource_implemented(predicate),
        loadable(relation),
{
    match planned(layout, r, filter, relation) {
        Err(e) => Err(e),
        Ok((m, clauses)) => match selected(
            tables,
            ColumnMapView::empty(layout).with_resource(layout, r).columns,
            layout.tables@[r],
            clauses,
        ) {
            Err(error) => Err(Error::Sql { error }),
            Ok(rows) => parsed(layout, m.index, rows, r),
        },
    }
}

/// Search for items of the resource at position `resource` matching `filter`.
///
/// The items come in the order of the rows of the table of the resource.
///
/// # Errors
///
/// Fails if the query cannot be built (see [`plan`]), if the database refuses it, or if an item
/// cannot be reconstructed from a row of the results.
pub fn execute(
    conn: &Connection,
    layout: &Layout,
    resource: usize,
    filter: Option<ResourcePredicate>,
) -> (r: Result<Vec<Record>, Error>)
    requires
        conn.wf(),
        layout.wf(),
        resource < layout.schema@.len(),
        filter matches Some(predicate) ==> resource_implemented(predicate),
    ensures
        match found(conn@, *layout, resource as int, filter, None) {
            Ok(records) => r matches Ok(out) && record_views(out@) == records,
            Err(e) => r == Err::<Vec<Record>, Error>(e),
        },
{
    execute_and_filter(conn, layout, resource, filter, None)
}

/// The restriction to the targets of the relation of the plural field at position `field` of
/// the resource of `owner`.
pub open spec fn relation_of(layout: Layout, owner: Record, field: int) -> Relation {
    let relation = layout.schema@[owner.resource as int].plural_fields@[field];
    match relation.inverse {
        Some(inverse) => Relation::ManyToOne {
            inverse: layout.qualified(relation.singular as int, inverse as int),
            owner: owner.fields@[layout.schema@[owner.resource as int].id as int]->Scalar_0->I32_0,
        },
        None => Relation::ManyToMany,
    }
}

/// Load the targets of the relation of the plural field at position `field` of the resource of
/// `owner`.
///
/// The relation must be one-to-many: its targets refer to their owner. Loading the targets of
/// a many-to-many relation is not implemented.
///
/// # Errors
///
/// Fails where [`execute`] fails.
pub fn load_relation(
    conn: &Connection,
    layout: &Layout,
    owner: &Record,
    field: usize,
    filter: Option<ResourcePredicate>,
) -> (r: Result<Vec<Record>, Error>)
    requires
        conn.wf(),
        layout.wf(),
        owner.resource < layout.schema@.len(),
        field < layout.schema@[owner.resource as int].plural_fields@.len(),
        layout.schema@[owner.resource as int].id < owner.fields@.len(),
        owner.fields@[layout.schema@[owner.resource as int].id as int] matches Instance::Scalar(
            Scalar::I32(_),
        ),
        layout.schema@[owner.resource as int].plural_fields@[field as int].inverse is Some,
        filter matches Some(predicate) ==> resource_implemented(predicate),
    ensures
        match found(
            conn@,
            *layout,
            layout.schema@[owner.resource as int].plural_fields@[field as int].singular as int,
            filter,
            Some(relation_of(*layout, *owner, field as int)),
        ) {
            Ok(records) => r matches Ok(out) && record_views(out@) == records,
            Err(e) => r == Err::<Vec<Record>, Error>(e),
        },
{
    let definition = layout.schema.resource(owner.resource);
    proof {
        assert(Schema::resource_wf(layout.schema@, owner.resource as int));
        assert(crate::graphql::type_system::plural_field_wf(
            layout.schema@,
            owner.resource as int,
            definition.plural_fields@[field as int],
        ));
    }
    // Match on the type of the relation. Many-to-one relations are handled via a simple filter.
    let target = definition.plural_fields[field].singular;
    let relation = match definition.plural_fields[field].inverse {
        Some(inverse) => {
            let id = match &owner.fields[definition.id] {
                Instance::Scalar(Scalar::I32(id)) => *id,
                _ => vstd::pervasive::unreached(),
            };
            Relation::ManyToOne { inverse: layout.field_column(target, inverse), owner: id }
        },
        None => vstd::pervasive::unreached(),
    };
    execute_and_filter(conn, layout, target, filter, Some(relation))
}

/// Search for items of the resource at position `resource` matching `filter`.
///
/// Optionally, restrict output to items in a relation.
fn execute_and_filter(
    conn: &Connection,
    layout: &Layout,
    resource: usize,
    filter: Option<ResourcePredicate>,
    relation: Option<Relation>,
) -> (r: Result<Vec<Record>, Error>)
    requires
        conn.wf(),
        layout.wf(),
        resource < layout.schema@.len(),
        filter matches Some(predicate) ==> resource_implemented(predicate),
        loadable(relation),
    ensures
        match found(conn@, *layout, resource as int, filter, relation) {
            Ok(records) => r matches Ok(out) && record_views(out@) == records,
            Err(e) => r == Err::<Vec<Record>, Error>(e),
        },
{
    let (query, columns) = match plan(layout, resource, filter, relation) {
        Ok(planned) => planned,
        Err(e) => {
            return Err(e);
        },
    };
    let rows = match query.many(conn) {
        Ok(rows) => rows,
        Err(e) => {
            return Err(Error::sql(e));
        },
    };
    columns.parse_rows(layout, &rows, resource)
}

} // verus!
