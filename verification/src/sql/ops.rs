//! Compilation of high-level GraphQL operations into low-level SQL operations.

use super::db;
use crate::graphql::type_system::{Resource, Scalar, ScalarKind, ScalarVisitor, Schema, Type};
use crate::text::{concat2, concat3, distinct, find, check_distinct, lemma_position, position};

pub mod correctness;
pub mod insert;
pub mod register;
pub mod select;
use convert_case::{Boundary, Case, Casing};
use vstd::prelude::*;
use vstd::string::*;

verus! {

/// A path which is explicitly not implemented.
#[derive(Clone, Copy, Debug, PartialEq, Eq, Structural)]
pub enum Feature {
    /// Inserting a resource nested in another one.
    NestedResources,
}

impl Feature {
    /// A description of this path.
    pub open spec fn description(&self) -> Seq<char> {
        match *self {
            Feature::NestedResources => "nested resources"@,
        }
    }
}

/// Errors encountered when executing GraphQL operations.
#[derive(Debug, PartialEq, Eq)]
#[allow(inconsistent_fields)]
pub enum Error {
    /// An error in the SQL layer.
    Sql { error: db::Error },
    /// The description of a resource cannot be mapped to a table.
    ParseResource { resource: String, error: String },
    /// A value does not have the type that is asked for.
    TypeMismatch { expected: ScalarKind, got: db::Type },
    /// An object of a type cannot be reconstructed.
    Build { ty: String, error: String },
    /// A field of an object of a type cannot be reconstructed.
    BuildField { ty: String, field: String, error: String },
    /// The operation takes a path which is not implemented.
    Unimplemented { feature: Feature },
    /// A record does not hold one object for each input field of its resource.
    IncorrectWidth { resource: String, expected: usize, found: usize },
    /// A predicate does not fit the resource that it is applied to.
    InvalidPredicate { resource: String },
}

/// The name of a kind of scalar in an error message.
pub open spec fn expected_name(kind: ScalarKind) -> Seq<char> {
    match kind {
        ScalarKind::I32 => "i32"@,
        ScalarKind::I64 => "i64"@,
        ScalarKind::U32 => "u32"@,
        ScalarKind::U64 => "u64"@,
        ScalarKind::String => "string"@,
    }
}

impl Error {
    /// An error in the SQL layer.
    pub fn sql(error: db::Error) -> (e: Self)
        ensures
            e == (Error::Sql { error }),
    {
        Error::Sql { error }
    }

    /// An error which occured while trying to reconstruct an object of the type `ty`.
    pub fn custom(ty: &str, msg: &str) -> (e: Self)
        ensures
            e matches Error::Build { ty: t, error } && t@ == ty@ && error@ == msg@,
    {
        Error::Build { ty: String::from_str(ty), error: String::from_str(msg) }
    }

    /// An error which occured while trying to reconstruct the field `field` of an object of the
    /// type `ty`.
    pub fn field(ty: &str, field: &str, msg: &str) -> (e: Self)
        ensures
            e matches Error::BuildField { ty: t, field: f, error } && t@ == ty@ && f@ == field@
                && error@ == msg@,
    {
        Error::BuildField {
            ty: String::from_str(ty),
            field: String::from_str(field),
            error: String::from_str(msg),
        }
    }

    /// The text of this error's message.
    pub open spec fn message(self) -> Seq<char> {
        match self {
            Error::Sql { error } => error.message(),
            Error::ParseResource { resource, error } => "error parsing resource "@ + resource@
                + ": "@ + error@,
            Error::TypeMismatch { expected, got } => "type mismatch (expected "@ + expected_name(
                expected,
            ) + ", got "@ + got.name() + ")"@,
            Error::Build { ty, error } => "error building type "@ + ty@ + ": "@ + error@,
            Error::BuildField { ty, field, error } => "error building field "@ + ty@ + "::"@
                + field@ + ": "@ + error@,
            Error::Unimplemented { feature } => "not implemented: "@ + feature.description(),
            Error::IncorrectWidth { resource, expected, found } => "incorrect width for resource "@
                + resource@ + " (expected "@ + crate::text::decimal(expected as nat) + ", found "@
                + crate::text::decimal(found as nat) + ")"@,
            Error::InvalidPredicate { resource } => "invalid predicate for resource "@ + resource@,
        }
    }

    /// Format this error as a message.
    pub fn to_string(&self) -> (r: String)
        ensures
            r@ == self.message(),
    {
        match self {
            Error::Sql { error } => error.to_string(),
            Error::ParseResource { resource, error } => {
                let mut out = concat3("error parsing resource ", resource.as_str(), ": ");
                out.append(error.as_str());
                out
            },
            Error::TypeMismatch { expected, got } => {
                let expected = match expected {
                    ScalarKind::I32 => "i32",
                    ScalarKind::I64 => "i64",
                    ScalarKind::U32 => "u32",
                    ScalarKind::U64 => "u64",
                    ScalarKind::String => "string",
                };
                let mut out = concat3("type mismatch (expected ", expected, ", got ");
                out.append(got.to_string().as_str());
                out.append(")");
                out
            },
            Error::Build { ty, error } => {
                let mut out = concat3("error building type ", ty.as_str(), ": ");
                out.append(error.as_str());
                out
            },
            Error::BuildField { ty, field, error } => {
                let mut out = concat3("error building field ", ty.as_str(), "::");
                out.append(field.as_str());
                out.append(": ");
                out.append(error.as_str());
                out
            },
            Error::Unimplemented { feature } => concat2(
                "not implemented: ",
                match feature {
                    Feature::NestedResources => "nested resources",
                },
            ),
            Error::IncorrectWidth { resource, expected, found } => {
                let mut out = concat3("incorrect width for resource ", resource.as_str(), " (expected ");
                out.append(crate::text::to_decimal(*expected as u64).as_str());
                out.append(", found ");
                out.append(crate::text::to_decimal(*found as u64).as_str());
                out.append(")");
                out
            },
            Error::InvalidPredicate { resource } => concat2(
                "invalid predicate for resource ",
                resource.as_str(),
            ),
        }
    }
}

/// The snake case form of an identifier: the words of `s`, split at hyphens, underscores,
/// spaces and at each lower case letter followed by an upper case letter, in lower case and
/// joined by underscores.
pub uninterp spec fn snake_case(s: Seq<char>) -> Seq<char>;

/// Convert a string to snake case.
///
/// Wraps `Casing::with_boundaries` and `StateConverter::to_case` of `convert_case`: the string
/// is split into words at the boundaries `Hyphen`, `Underscore`, `Space` and `LowerUpper`, and
/// the words are joined as `Case::Snake` prescribes. The result depends on the characters of
/// the string alone.
#[verifier::external_body]
fn to_snake_case(s: &str) -> (r: String)
    ensures
        r@ == snake_case(s@),
{
    s.with_boundaries(
        &[Boundary::Hyphen, Boundary::Underscore, Boundary::Space, Boundary::LowerUpper],
    ).to_case(Case::Snake)
}

/// The name of the table corresponding to `resource`.
pub fn table_name(resource: &Resource) -> (r: String)
    ensures
        r@ == snake_case(resource.plural_name@),
{
    to_snake_case(resource.plural_name.as_str())
}

/// The name of the column corresponding to the field with name `field_name`.
pub fn column_name_of_field(field_name: &str) -> (r: String)
    ensures
        r@ == snake_case(field_name@),
{
    to_snake_case(field_name)
}

/// The name of the column corresponding to the field at position `field` of `resource`.
pub fn column_name(resource: &Resource, field: usize) -> (r: String)
    requires
        field < resource.fields@.len(),
    ensures
        r@ == snake_case(resource.fields@[field as int].name@),
{
    column_name_of_field(resource.fields[field].name.as_str())
}

/// The SQL value which represents `val`.
pub open spec fn scalar_value(val: Scalar) -> db::Value {
    match val {
        Scalar::I32(x) => db::Value::Int4(x),
        Scalar::I64(x) => db::Value::Int8(x),
        Scalar::U32(x) => db::Value::UInt4(x),
        Scalar::U64(x) => db::Value::UInt8(x),
        Scalar::String(x) => db::Value::Text(x),
    }
}

/// Convert a [`Scalar`] to a [`Value`](db::Value).
pub fn scalar_to_value(val: Scalar) -> (r: db::Value)
    ensures
        r == scalar_value(val),
{
    match val {
        Scalar::I32(x) => db::Value::Int4(x),
        Scalar::I64(x) => db::Value::Int8(x),
        Scalar::U32(x) => db::Value::UInt4(x),
        Scalar::U64(x) => db::Value::UInt8(x),
        Scalar::String(x) => db::Value::Text(x),
    }
}

/// The SQL type of the values which represent scalars of the given kind.
pub open spec fn scalar_type(kind: ScalarKind) -> db::Type {
    match kind {
        ScalarKind::I32 => db::Type::Int4,
        ScalarKind::I64 => db::Type::Int8,
        ScalarKind::U32 => db::Type::UInt4,
        ScalarKind::U64 => db::Type::UInt8,
        ScalarKind::String => db::Type::Text,
    }
}

/// The visitor which chooses the SQL type of a column for each kind of scalar.
pub struct ColumnType;

impl ScalarVisitor for ColumnType {
    type Output = db::Type;

    open spec fn accepts(self, kind: ScalarKind) -> bool {
        true
    }

    open spec fn visits(self, kind: ScalarKind, output: db::Type) -> bool {
        output == scalar_type(kind)
    }

    fn visit_i32(self) -> (output: db::Type) {
        db::Type::Int4
    }

    fn visit_i64(self) -> (output: db::Type) {
        db::Type::Int8
    }

    fn visit_u32(self) -> (output: db::Type) {
        db::Type::UInt4
    }

    fn visit_u64(self) -> (output: db::Type) {
        db::Type::UInt8
    }

    fn visit_string(self) -> (output: db::Type) {
        db::Type::Text
    }
}

/// The SQL type of a column which holds scalars of the given kind.
pub fn lower_scalar_type(kind: ScalarKind) -> (r: db::Type)
    ensures
        r == scalar_type(kind),
{
    kind.visit(ColumnType)
}

/// The scalar of the given kind which `val` represents, if it represents one.
pub open spec fn value_scalar(kind: ScalarKind, val: db::Value) -> Option<Scalar> {
    match (kind, val) {
        (ScalarKind::I32, db::Value::Int4(x)) => Some(Scalar::I32(x)),
        (ScalarKind::I64, db::Value::Int8(x)) => Some(Scalar::I64(x)),
        (ScalarKind::U32, db::Value::UInt4(x)) => Some(Scalar::U32(x)),
        (ScalarKind::U64, db::Value::UInt8(x)) => Some(Scalar::U64(x)),
        (ScalarKind::String, db::Value::Text(x)) => Some(Scalar::String(x)),
        _ => None,
    }
}

/// The scalar of the given kind which `val` represents, or the failure to convert it.
pub open spec fn converted(kind: ScalarKind, val: db::Value) -> Result<Scalar, Error> {
    match value_scalar(kind, val) {
        Some(s) => Ok(s),
        None => Err(Error::TypeMismatch { expected: kind, got: val.ty() }),
    }
}

/// The visitor which parses a scalar from a value, differently depending on the desired kind.
pub struct FromValue(pub db::Value);

impl ScalarVisitor for FromValue {
    type Output = Result<Scalar, Error>;

    open spec fn accepts(self, kind: ScalarKind) -> bool {
        true
    }

    open spec fn visits(self, kind: ScalarKind, output: Result<Scalar, Error>) -> bool {
        output == converted(kind, self.0)
    }

    fn visit_i32(self) -> (output: Result<Scalar, Error>) {
        let ty = self.0.ty();
        match self.0 {
            db::Value::Int4(x) => Ok(Scalar::I32(x)),
            _ => Err(Error::TypeMismatch { expected: ScalarKind::I32, got: ty }),
        }
    }

    fn visit_i64(self) -> (output: Result<Scalar, Error>) {
        let ty = self.0.ty();
        match self.0 {
            db::Value::Int8(x) => Ok(Scalar::I64(x)),
            _ => Err(Error::TypeMismatch { expected: ScalarKind::I64, got: ty }),
        }
    }

    fn visit_u32(self) -> (output: Result<Scalar, Error>) {
        let ty = self.0.ty();
        match self.0 {
            db::Value::UInt4(x) => Ok(Scalar::U32(x)),
            _ => Err(Error::TypeMismatch { expected: ScalarKind::U32, got: ty }),
        }
    }

    fn visit_u64(self) -> (output: Result<Scalar, Error>) {
        let ty = self.0.ty();
        match self.0 {
            db::Value::UInt8(x) => Ok(Scalar::U64(x)),
            _ => Err(Error::TypeMismatch { expected: ScalarKind::U64, got: ty }),
        }
    }

    fn visit_string(self) -> (output: Result<Scalar, Error>) {
        let ty = self.0.ty();
        match self.0 {
            db::Value::Text(x) => Ok(Scalar::String(x)),
            _ => Err(Error::TypeMismatch { expected: ScalarKind::String, got: ty }),
        }
    }
}

/// Convert a [`Value`](db::Value) to a [`Scalar`] of the given kind.
///
/// # Errors
///
/// Fails if the type of the value is not the one which represents scalars of this kind.
pub fn value_to_scalar(kind: ScalarKind, val: db::Value) -> (r: Result<Scalar, Error>)
    ensures
        r == converted(kind, val),
        r is Ok <==> val.ty() == scalar_type(kind),
{
    kind.visit(FromValue(val))
}

/// Converting a scalar to a value and back gives the scalar.
pub proof fn lemma_scalar_round_trip(val: Scalar)
    ensures
        value_scalar(val.kind(), scalar_value(val)) == Some(val),
        scalar_value(val).ty() == scalar_type(val.kind()),
{
}

/// Whether the table of the resource at position `r` has the name of the table of a resource
/// before it.
pub open spec fn table_clash(resources: Seq<Resource>, r: int) -> bool {
    exists|q: int|
        0 <= q < r && snake_case(#[trigger] resources[q].plural_name@) == snake_case(
            resources[r].plural_name@,
        )
}

/// Whether two fields of `resource` have columns of the same name.
pub open spec fn column_clash(resource: Resource) -> bool {
    exists|f: int, g: int|
        0 <= f < g < resource.fields@.len() && snake_case(#[trigger] resource.fields@[f].name@)
            == snake_case(#[trigger] resource.fields@[g].name@)
}

/// The names of the tables and columns in which the resources of a schema are stored.
///
/// The table of a resource is named by the snake case form of the plural name of the resource,
/// and the column of a field by the snake case form of the name of the field. No two resources
/// have tables of the same name, and no two fields of a resource have columns of the same name.
#[derive(Debug)]
pub struct Layout {
    /// The schema.
    pub schema: Schema,
    /// The name of the table of each resource.
    pub tables: Vec<String>,
    /// The names of the columns of the fields of each resource.
    pub columns: Vec<Vec<String>>,
}

impl Layout {
    /// Whether there is a name for the table of each resource and for the column of each field.
    pub open spec fn sized(&self) -> bool {
        &&& self.tables@.len() == self.schema@.len()
        &&& self.columns@.len() == self.schema@.len()
        &&& forall|r: int|
            0 <= r < self.schema@.len() ==> (#[trigger] self.columns@[r])@.len()
                == self.schema@[r].fields@.len()
    }

    /// Whether the names of the tables and columns are those of the schema: the snake case
    /// forms of the plural names of the resources and of the names of the fields.
    pub open spec fn named(&self) -> bool {
        &&& forall|r: int|
            0 <= r < self.schema@.len() ==> (#[trigger] self.tables@[r])@ == snake_case(
                self.schema@[r].plural_name@,
            )
        &&& forall|r: int, f: int|
            0 <= r < self.schema@.len() && 0 <= f < self.schema@[r].fields@.len() ==> (
            #[trigger] self.columns@[r]@[f])@ == snake_case(self.schema@[r].fields@[f].name@)
    }

    /// Whether this layout is consistent: the schema is consistent, there is a name for each
    /// table and column, and no two tables, and no two columns of a table, have the same name.
    pub open spec fn wf(&self) -> bool {
        &&& self.schema.wf()
        &&& self.sized()
        &&& distinct(self.tables@)
        &&& forall|r: int| 0 <= r < self.schema@.len() ==> distinct((#[trigger] self.columns@[r])@)
    }

    /// Lay out the resources of a schema.
    ///
    /// # Errors
    ///
    /// Fails if the table of a resource has the name of the table of a resource before it, or if
    /// two fields of a resource have columns of the same name. The error names the first resource
    /// of the schema of which this holds.
    #[verifier::loop_isolation(false)]
    pub fn new(schema: Schema) -> (r: Result<Layout, Error>)
        requires
            schema.wf(),
        ensures
            match r {
                Ok(layout) => layout.wf() && layout.named() && layout.schema == schema && forall|
                    q: int,
                |
                    0 <= q < schema@.len() ==> !(#[trigger] table_clash(schema@, q))
                        && !column_clash(schema@[q]),
                Err(Error::ParseResource { resource, error }) => exists|q: int|
                    {
                        &&& 0 <= q < schema@.len()
                        &&& resource == (#[trigger] schema@[q]).name
                        &&& table_clash(schema@, q) || column_clash(schema@[q])
                        &&& forall|p: int|
                            0 <= p < q ==> !(#[trigger] table_clash(schema@, p)) && !column_clash(
                                schema@[p],
                            )
                        &&& error@ == if table_clash(schema@, q) {
                            "the name of the table is in use"@
                        } else {
                            "the names of the columns are not distinct"@
                        }
                    },
                Err(_) => false,
            },
    {
        let mut tables: Vec<String> = Vec::new();
        let mut columns: Vec<Vec<String>> = Vec::new();
        let mut r: usize = 0;
        while r < schema.len()
            invariant
                r <= schema@.len(),
                tables@.len() == r,
                columns@.len() == r,
                forall|q: int|
                    0 <= q < r ==> (#[trigger] tables@[q])@ == snake_case(schema@[q].plural_name@),
                forall|q: int|
                    0 <= q < r ==> (#[trigger] columns@[q])@.len() == schema@[q].fields@.len(),
                forall|q: int, f: int|
                    0 <= q < r && 0 <= f < schema@[q].fields@.len() ==> (
                    #[trigger] columns@[q]@[f])@ == snake_case(schema@[q].fields@[f].name@),
                distinct(tables@),
                forall|q: int| 0 <= q < r ==> distinct((#[trigger] columns@[q])@),
                forall|q: int| 0 <= q < r ==> !(#[trigger] table_clash(schema@, q)),
                forall|q: int| 0 <= q < r ==> !column_clash(#[trigger] schema@[q]),
            decreases schema@.len() - r,
        {
            let resource = schema.resource(r);
            let table = table_name(resource);
            proof {
                lemma_position(tables@, table@);
            }
            if find(&tables, table.as_str()).is_some() {
                proof {
                    let q = position(tables@, table@)->Some_0;
                    assert(snake_case(schema@[q].plural_name@) == snake_case(
                        schema@[r as int].plural_name@,
                    ));
                }
                return Err(
                    Error::ParseResource {
                        resource: resource.name.clone(),
                        error: String::from_str("the name of the table is in use"),
                    },
                );
            }
            proof {
                assert(!table_clash(schema@, r as int)) by {
                    if table_clash(schema@, r as int) {
                        let q = choose|q: int|
                            0 <= q < r && snake_case(#[trigger] schema@[q].plural_name@)
                                == snake_case(schema@[r as int].plural_name@);
                        assert(tables@[q]@ == table@);
                    }
                }
            }
            let mut names: Vec<String> = Vec::new();
            let mut f: usize = 0;
            while f < resource.fields.len()
                invariant
                    f <= resource.fields@.len(),
                    names@.len() == f,
                    forall|g: int|
                        0 <= g < f ==> (#[trigger] names@[g])@ == snake_case(
                            resource.fields@[g].name@,
                        ),
                decreases resource.fields@.len() - f,
            {
                names.push(column_name(resource, f));
                f += 1;
            }
            if !check_distinct(&names) {
                proof {
                    let (a, b) = choose|a: int, b: int|
                        0 <= a < b < names@.len() && (#[trigger] names@[a])@ == (
                        #[trigger] names@[b])@;
                    assert(snake_case(resource.fields@[a].name@) == snake_case(
                        resource.fields@[b].name@,
                    ));
                }
                return Err(
                    Error::ParseResource {
                        resource: resource.name.clone(),
                        error: String::from_str("the names of the columns are not distinct"),
                    },
                );
            }
            proof {
                assert(!column_clash(*resource)) by {
                    if column_clash(*resource) {
                        let (a, b) = choose|a: int, b: int|
                            0 <= a < b < resource.fields@.len() && snake_case(
                                #[trigger] resource.fields@[a].name@,
                            ) == snake_case(#[trigger] resource.fields@[b].name@);
                        assert(names@[a]@ == names@[b]@);
                    }
                }
            }
            let ghost held = tables@;
            tables.push(table);
            columns.push(names);
            proof {
                assert forall|i: int, j: int| 0 <= i < j < tables@.len() implies (
                #[trigger] tables@[i])@ != (#[trigger] tables@[j])@ by {
                    if j < held.len() {
                        assert(held[i] == tables@[i] && held[j] == tables@[j]);
                    } else {
                        assert(held[i] == tables@[i]);
                    }
                }
            }
            r += 1;
        }
        Ok(Layout { schema, tables, columns })
    }

    /// The name of the table corresponding to the resource at position `resource`.
    pub fn table(&self, resource: usize) -> (r: String)
        requires
            self.wf(),
            resource < self.schema@.len(),
        ensures
            r == self.tables@[resource as int],
    {
        self.tables[resource].clone()
    }

    /// The name of the column corresponding to the field at position `field` of the resource at
    /// position `resource`.
    pub fn column(&self, resource: usize, field: usize) -> (r: String)
        requires
            self.wf(),
            resource < self.schema@.len(),
            field < self.schema@[resource as int].fields@.len(),
        ensures
            r == self.columns@[resource as int]@[field as int],
    {
        self.columns[resource][field].clone()
    }

    /// The column corresponding to a field, qualified by the table of its resource.
    pub open spec fn qualified(&self, resource: int, field: int) -> db::Column {
        db::Column {
            table: Some(self.tables@[resource]),
            name: self.columns@[resource]@[field],
        }
    }

    /// The column corresponding to the field at position `field` of the resource at position
    /// `resource`, qualified by the table of the resource.
    pub fn field_column(&self, resource: usize, field: usize) -> (r: db::Column)
        requires
            self.wf(),
            resource < self.schema@.len(),
            field < self.schema@[resource as int].fields@.len(),
        ensures
            r == self.qualified(resource as int, field as int),
    {
        db::Column::qualified(self.table(resource), self.column(resource, field))
    }
}

} // verus!
