//! Type system for a relational GraphQL API.
//!
//! A relational GraphQL API is one which allows the client to filter results based on complex
//! queries that involve relations between nodes of the subgraph being queried. The queries are
//! solved by compiling the expressive GraphQL query into a backend which can efficiently solve
//! relational queries, like an RDBMS.
//!
//! At a high-level the type system consists of the following notions:
//! * Every entity in the application's data model has a [`Type`], including scalars (the leaves
//!   of the graph).
//! * Every [`Type`] has a [`Predicate`], a filter that can be applied to objects of that type in
//!   order to prune query output.
//! * A [`Scalar`] is a primitive value, a leaf of a graph. There is a fixed set of supported
//!   scalar kinds, and these cannot be extended.
//! * A [`Resource`] corresponds to a GraphQL object type or a table in a relational database. It
//!   can have many named fields of scalar type as well as relations to other resources. These
//!   relations can be singular (one-to-one or many-to-one) or plural (one-to-many or
//!   many-to-many).
//!
//! Resources are described by a [`Schema`], which is built once and then consulted by backends.

use vstd::prelude::*;
use vstd::string::*;

verus! {

/// A type for unique, sequentially increasing IDs.
pub type Id = i32;

/// The kinds of scalar. This set is closed.
#[derive(Clone, Copy, Debug, PartialEq, Eq, Structural)]
pub enum ScalarKind {
    I32,
    I64,
    U32,
    U64,
    String,
}

impl ScalarKind {
    /// The name of this kind of scalar.
    pub open spec fn spec_name(&self) -> Seq<char> {
        match *self {
            ScalarKind::I32 => "i32"@,
            ScalarKind::I64 => "i64"@,
            ScalarKind::U32 => "u32"@,
            ScalarKind::U64 => "u64"@,
            ScalarKind::String => "String"@,
        }
    }

    /// The name of this kind of scalar.
    pub fn name(&self) -> (r: &'static str)
        ensures
            r@ == self.spec_name(),
    {
        match self {
            ScalarKind::I32 => "i32",
            ScalarKind::I64 => "i64",
            ScalarKind::U32 => "u32",
            ScalarKind::U64 => "u64",
            ScalarKind::String => "String",
        }
    }

    /// The plural form of the name of this kind of scalar.
    pub open spec fn spec_plural_name(&self) -> Seq<char> {
        match *self {
            ScalarKind::I32 => "i32s"@,
            ScalarKind::I64 => "i64s"@,
            ScalarKind::U32 => "u32s"@,
            ScalarKind::U64 => "u64s"@,
            ScalarKind::String => "Strings"@,
        }
    }

    /// The plural form of the name of this kind of scalar.
    pub fn plural_name(&self) -> (r: &'static str)
        ensures
            r@ == self.spec_plural_name(),
    {
        match self {
            ScalarKind::I32 => "i32s",
            ScalarKind::I64 => "i64s",
            ScalarKind::U32 => "u32s",
            ScalarKind::U64 => "u64s",
            ScalarKind::String => "Strings",
        }
    }

    /// Whether scalars of this kind are integers.
    pub open spec fn is_int(&self) -> bool {
        *self != ScalarKind::String
    }
}

/// A primitive value in the relational GraphQL type system.
///
/// Scalars make up the leaves of a graph-oriented data model. Unlike resources, scalars do not
/// have properties or relationships to other objects: their only property is their value.
#[derive(Debug, PartialEq, Eq)]
pub enum Scalar {
    I32(i32),
    I64(i64),
    U32(u32),
    U64(u64),
    String(String),
}

impl Clone for Scalar {
    fn clone(&self) -> (r: Self)
        ensures
            r == *self,
    {
        match self {
            Scalar::I32(x) => Scalar::I32(*x),
            Scalar::I64(x) => Scalar::I64(*x),
            Scalar::U32(x) => Scalar::U32(*x),
            Scalar::U64(x) => Scalar::U64(*x),
            Scalar::String(x) => Scalar::String(x.clone()),
        }
    }
}

impl Scalar {
    /// The kind of this scalar.
    pub open spec fn spec_kind(&self) -> ScalarKind {
        match *self {
            Scalar::I32(_) => ScalarKind::I32,
            Scalar::I64(_) => ScalarKind::I64,
            Scalar::U32(_) => ScalarKind::U32,
            Scalar::U64(_) => ScalarKind::U64,
            Scalar::String(_) => ScalarKind::String,
        }
    }

    /// The kind of this scalar.
    #[verifier::when_used_as_spec(spec_kind)]
    pub fn kind(&self) -> (k: ScalarKind)
        ensures
            k == self.spec_kind(),
    {
        match self {
            Scalar::I32(_) => ScalarKind::I32,
            Scalar::I64(_) => ScalarKind::I64,
            Scalar::U32(_) => ScalarKind::U32,
            Scalar::U64(_) => ScalarKind::U64,
            Scalar::String(_) => ScalarKind::String,
        }
    }
}

/// A pattern match on the kind of a scalar.
///
/// A backend often needs a known, finite set of scalar kinds which it must represent: an RDBMS
/// backend, for example, maps each kind of scalar to a primitive type of the database. A
/// visitor handles every kind of scalar, one method for each, so that no kind can be forgotten.
pub trait ScalarVisitor: Sized {
    /// The type of value which is returned by this match.
    type Output;

    /// Whether this visitor can be applied to the given kind of scalar.
    spec fn accepts(self, kind: ScalarKind) -> bool;

    /// Whether `output` is what this visitor makes of the given kind of scalar.
    spec fn visits(self, kind: ScalarKind, output: Self::Output) -> bool;

    /// Handle the case where the scalar is an `i32`.
    fn visit_i32(self) -> (output: Self::Output)
        requires
            self.accepts(ScalarKind::I32),
        ensures
            self.visits(ScalarKind::I32, output),
    ;

    /// Handle the case where the scalar is an `i64`.
    fn visit_i64(self) -> (output: Self::Output)
        requires
            self.accepts(ScalarKind::I64),
        ensures
            self.visits(ScalarKind::I64, output),
    ;

    /// Handle the case where the scalar is a `u32`.
    fn visit_u32(self) -> (output: Self::Output)
        requires
            self.accepts(ScalarKind::U32),
        ensures
            self.visits(ScalarKind::U32, output),
    ;

    /// Handle the case where the scalar is a `u64`.
    fn visit_u64(self) -> (output: Self::Output)
        requires
            self.accepts(ScalarKind::U64),
        ensures
            self.visits(ScalarKind::U64, output),
    ;

    /// Handle the case where the scalar is a `String`.
    fn visit_string(self) -> (output: Self::Output)
        requires
            self.accepts(ScalarKind::String),
        ensures
            self.visits(ScalarKind::String, output),
    ;
}

impl ScalarKind {
    /// Perform a pattern match on this kind of scalar.
    ///
    /// The visitor is given the case of this kind, and of no other.
    pub fn visit<V: ScalarVisitor>(&self, visitor: V) -> (output: V::Output)
        requires
            visitor.accepts(*self),
        ensures
            visitor.visits(*self, output),
    {
        match self {
            ScalarKind::I32 => visitor.visit_i32(),
            ScalarKind::I64 => visitor.visit_i64(),
            ScalarKind::U32 => visitor.visit_u32(),
            ScalarKind::U64 => visitor.visit_u64(),
            ScalarKind::String => visitor.visit_string(),
        }
    }
}

/// A scalar value in a predicate.
#[derive(Debug, PartialEq, Eq)]
pub enum Value {
    /// A literal, constant value.
    Lit(Scalar),
    /// A pattern matching variable.
    Var(usize),
}

impl Clone for Value {
    fn clone(&self) -> (r: Self)
        ensures
            r == *self,
    {
        match self {
            Value::Lit(x) => Value::Lit(x.clone()),
            Value::Var(x) => Value::Var(*x),
        }
    }
}

/// Comparison operators for integral scalar types.
#[derive(Clone, Copy, Debug, PartialEq, Eq, Structural)]
pub enum IntCmpOp {
    EQ,
    NE,
    GE,
    GT,
    LE,
    LT,
}

impl IntCmpOp {
    /// The spelling of this operator.
    pub open spec fn symbol(&self) -> Seq<char> {
        match *self {
            IntCmpOp::EQ => "="@,
            IntCmpOp::NE => "!="@,
            IntCmpOp::GE => ">="@,
            IntCmpOp::GT => ">"@,
            IntCmpOp::LE => "<="@,
            IntCmpOp::LT => "<"@,
        }
    }

    /// Format this operator.
    pub fn to_string(&self) -> (r: String)
        ensures
            r@ == self.symbol(),
    {
        match self {
            IntCmpOp::EQ => String::from_str("="),
            IntCmpOp::NE => String::from_str("!="),
            IntCmpOp::GE => String::from_str(">="),
            IntCmpOp::GT => String::from_str(">"),
            IntCmpOp::LE => String::from_str("<="),
            IntCmpOp::LT => String::from_str("<"),
        }
    }
}

/// Comparison operators for strings.
#[derive(Clone, Copy, Debug, PartialEq, Eq, Structural)]
pub enum StringCmpOp {
    EQ,
    NE,
}

impl StringCmpOp {
    /// The spelling of this operator.
    pub open spec fn symbol(&self) -> Seq<char> {
        match *self {
            StringCmpOp::EQ => "="@,
            StringCmpOp::NE => "!="@,
        }
    }

    /// Format this operator.
    pub fn to_string(&self) -> (r: String)
        ensures
            r@ == self.symbol(),
    {
        match self {
            StringCmpOp::EQ => String::from_str("="),
            StringCmpOp::NE => String::from_str("!="),
        }
    }
}

/// A comparison operator for some kind of scalar.
#[derive(Clone, Copy, Debug, PartialEq, Eq, Structural)]
pub enum CmpOp {
    Int(IntCmpOp),
    String(StringCmpOp),
}

/// A generic interface to a backend-specific compiler for predicates on scalars.
///
/// A [`ScalarPredicate`] uses this interface to instruct an arbitrary backend on how to compile
/// it into a backend-specific format.
pub trait ScalarPredicateCompiler: Sized {
    /// The backend-specific compilation result.
    type Result;

    /// Whether this compiler can compile the comparison of a scalar with `value` using `op`.
    spec fn accepts(self, op: CmpOp, value: Value) -> bool;

    /// Whether `result` is what this compiler makes of the comparison of a scalar with `value`
    /// using `op`.
    spec fn compiles(self, op: CmpOp, value: Value, result: Self::Result) -> bool;

    /// Instruct the backend to compile a comparison-based predicate.
    ///
    /// The predicate will act on scalars by comparing a given scalar with a constant [`Value`],
    /// using `op` to do the comparison.
    fn cmp(self, op: CmpOp, value: Value) -> (result: Self::Result)
        requires
            self.accepts(op, value),
        ensures
            self.compiles(op, value, result),
    ;
}

/// A comparison on an integral scalar.
#[derive(Debug, PartialEq, Eq)]
pub struct IntCmp {
    /// The type of comparison.
    pub op: IntCmpOp,
    /// The value to compare with.
    pub value: Value,
}

impl IntCmp {
    /// A predicate which compares integers with `value` using `op`.
    pub fn new(op: IntCmpOp, value: Value) -> (c: Self)
        ensures
            c == (IntCmp { op, value }),
    {
        IntCmp { op, value }
    }

    /// Compile this comparison into a backend-specific format using the given compiler.
    pub fn compile<C: ScalarPredicateCompiler>(self, compiler: C) -> (result: C::Result)
        requires
            compiler.accepts(CmpOp::Int(self.op), self.value),
        ensures
            compiler.compiles(CmpOp::Int(self.op), self.value, result),
    {
        compiler.cmp(CmpOp::Int(self.op), self.value)
    }
}

/// A boolean predicate on an integral scalar.
#[derive(Debug, PartialEq, Eq)]
pub enum IntPredicate {
    /// Satisfied if the comparison is true.
    Cmp(IntCmp),
    /// Satisfied if the integer being filtered matches the given value.
    Is(Value),
}

impl IntPredicate {
    /// A predicate which compares integers with `value` using `op`.
    pub fn cmp(op: IntCmpOp, value: Value) -> (p: Self)
        ensures
            p == IntPredicate::Cmp(IntCmp { op, value }),
    {
        IntPredicate::Cmp(IntCmp::new(op, value))
    }

    /// A predicate which compares integers with `value`.
    pub fn is(value: Value) -> (p: Self)
        ensures
            p == IntPredicate::Is(value),
    {
        IntPredicate::Is(value)
    }

    /// The comparison that this predicate stands for.
    pub open spec fn comparison(self) -> IntCmp {
        match self {
            IntPredicate::Cmp(c) => c,
            IntPredicate::Is(value) => IntCmp { op: IntCmpOp::EQ, value },
        }
    }

    /// Compile this predicate into a form which the backend can execute.
    ///
    /// The predicate decomposes itself into exactly one comparison.
    pub fn compile<C: ScalarPredicateCompiler>(self, compiler: C) -> (result: C::Result)
        requires
            compiler.accepts(CmpOp::Int(self.comparison().op),
                self.comparison().value),
        ensures
            compiler.compiles(
                CmpOp::Int(self.comparison().op),
                self.comparison().value,
                result,
            ),
    {
        match self {
            IntPredicate::Cmp(c) => c.compile(compiler),
            IntPredicate::Is(value) => IntCmp::new(IntCmpOp::EQ, value).compile(compiler),
        }
    }
}

/// A comparison on strings.
#[derive(Debug, PartialEq, Eq)]
pub struct StringCmp {
    /// The type of comparison.
    pub op: StringCmpOp,
    /// The value to compare with.
    pub value: Value,
}

impl StringCmp {
    /// A predicate which compares strings with `value` using `op`.
    pub fn new(op: StringCmpOp, value: Value) -> (c: Self)
        ensures
            c == (StringCmp { op, value }),
    {
        StringCmp { op, value }
    }

    /// Compile this comparison into a backend-specific format using the given compiler.
    pub fn compile<C: ScalarPredicateCompiler>(self, compiler: C) -> (result: C::Result)
        requires
            compiler.accepts(CmpOp::String(self.op), self.value),
        ensures
            compiler.compiles(CmpOp::String(self.op), self.value, result),
    {
        compiler.cmp(CmpOp::String(self.op), self.value)
    }
}

/// A boolean predicate on strings.
#[derive(Debug, PartialEq, Eq)]
pub enum StringPredicate {
    /// Satisfied if the comparison is true.
    Cmp(StringCmp),
    /// Satisfied if the string being filtered matches the given value.
    Is(Value),
}

impl StringPredicate {
    /// A predicate which compares strings with `value` using `op`.
    pub fn cmp(op: StringCmpOp, value: Value) -> (p: Self)
        ensures
            p == StringPredicate::Cmp(StringCmp { op, value }),
    {
        StringPredicate::Cmp(StringCmp::new(op, value))
    }

    /// A predicate which compares strings with `value`.
    pub fn is(value: Value) -> (p: Self)
        ensures
            p == StringPredicate::Is(value),
    {
        StringPredicate::Is(value)
    }

    /// The comparison that this predicate stands for.
    pub open spec fn comparison(self) -> StringCmp {
        match self {
            StringPredicate::Cmp(c) => c,
            StringPredicate::Is(value) => StringCmp { op: StringCmpOp::EQ, value },
        }
    }

    /// Compile this predicate into a form which the backend can execute.
    ///
    /// The predicate decomposes itself into exactly one comparison.
    pub fn compile<C: ScalarPredicateCompiler>(self, compiler: C) -> (result: C::Result)
        requires
            compiler.accepts(CmpOp::String(self.comparison().op),
                self.comparison().value),
        ensures
            compiler.compiles(
                CmpOp::String(self.comparison().op),
                self.comparison().value,
                result,
            ),
    {
        match self {
            StringPredicate::Cmp(c) => c.compile(compiler),
            StringPredicate::Is(value) => StringCmp::new(StringCmpOp::EQ, value).compile(compiler),
        }
    }
}

/// A boolean predicate on a scalar.
#[derive(Debug, PartialEq, Eq)]
pub enum ScalarPredicate {
    /// A predicate on an integral scalar.
    Int(IntPredicate),
    /// A predicate on a string.
    String(StringPredicate),
}

impl ScalarPredicate {
    /// The operator of the comparison that this predicate stands for.
    pub open spec fn op(self) -> CmpOp {
        match self {
            ScalarPredicate::Int(p) => CmpOp::Int(p.comparison().op),
            ScalarPredicate::String(p) => CmpOp::String(p.comparison().op),
        }
    }

    /// The value that this predicate compares with.
    pub open spec fn value(self) -> Value {
        match self {
            ScalarPredicate::Int(p) => p.comparison().value,
            ScalarPredicate::String(p) => p.comparison().value,
        }
    }

    /// Compile this predicate into a form which the backend can execute.
    ///
    /// The predicate decomposes itself into exactly one comparison.
    pub fn compile<C: ScalarPredicateCompiler>(self, compiler: C) -> (result: C::Result)
        requires
            compiler.accepts(self.op(), self.value()),
        ensures
            compiler.compiles(self.op(), self.value(), result),
    {
        match self {
            ScalarPredicate::Int(p) => p.compile(compiler),
            ScalarPredicate::String(p) => p.compile(compiler),
        }
    }
}

/// A boolean predicate on a [`Type`].
#[derive(Debug, PartialEq, Eq)]
pub enum Predicate {
    /// A predicate on a scalar.
    Scalar(ScalarPredicate),
    /// A predicate on a resource.
    Resource(ResourcePredicate),
}

/// A boolean predicate on a resource.
#[derive(Debug, PartialEq, Eq)]
pub enum ResourcePredicate {
    /// Satisfied if every field of the resource satisfies its sub-predicate, if it has one.
    Has(Has),
    /// Satisfied if the primary field of the resource satisfies the given predicate.
    Is(Box<Predicate>),
}

/// The sub-predicates of a predicate on a resource.
#[derive(Debug, PartialEq, Eq)]
pub struct Has {
    /// One optional sub-predicate for each field of the resource.
    pub fields: Vec<Option<Predicate>>,
    /// One optional sub-predicate for each plural field of the resource.
    pub plural_fields: Vec<Option<PluralPredicate>>,
}

/// A predicate which must match a certain quantity of items.
#[derive(Debug, PartialEq, Eq)]
pub struct Quantified {
    /// The minimum or maximum number of items which must match.
    pub quantity: usize,
    /// The predicate to match against specific items.
    pub predicate: Predicate,
}

/// A predicate used to filter collections of items.
#[derive(Debug, PartialEq, Eq)]
pub enum PluralPredicate {
    /// Matches if at least some number of items in the collection match a predicate.
    AtLeast(Quantified),
    /// Matches if at most some number of items in the collection match a predicate.
    AtMost(Quantified),
    /// Matches if at any items in the collection match a predicate.
    Any(Predicate),
    /// Matches if all items in the collection match a predicate.
    All(Predicate),
    /// Matches if no items in the collection match a predicate.
    NoneOf(Predicate),
    /// Matches if the collection includes the specified value.
    Includes(Value),
}

impl ScalarPredicate {
    /// Does this predicate compare with a literal?
    ///
    /// A predicate which compares with a pattern variable cannot be compiled.
    pub fn is_literal(&self) -> (r: bool)
        ensures
            r == (self.value() is Lit),
    {
        let value = match self {
            ScalarPredicate::Int(IntPredicate::Cmp(c)) => &c.value,
            ScalarPredicate::Int(IntPredicate::Is(value)) => value,
            ScalarPredicate::String(StringPredicate::Cmp(c)) => &c.value,
            ScalarPredicate::String(StringPredicate::Is(value)) => value,
        };
        match value {
            Value::Lit(_) => true,
            Value::Var(_) => false,
        }
    }
}

/// Whether the compilation of a predicate is implemented: the predicate compares with no pattern
/// variable, and holds no sub-predicate on a plural field, at any depth.
pub open spec fn implemented(predicate: Predicate) -> bool
    decreases predicate,
{
    match predicate {
        Predicate::Scalar(p) => p.value() is Lit,
        Predicate::Resource(p) => resource_implemented(p),
    }
}

/// Whether the compilation of a predicate on a resource is implemented: the predicate compares
/// with no pattern variable, and holds no sub-predicate on a plural field, at any depth.
pub open spec fn resource_implemented(predicate: ResourcePredicate) -> bool
    decreases predicate,
{
    match predicate {
        ResourcePredicate::Has(has) => !(has.has_plural()) && forall|f: int|
            0 <= f < has.fields@.len() ==> ((#[trigger] has.fields@[f]) matches Some(sub)
                ==> implemented(sub)),
        ResourcePredicate::Is(sub) => implemented(*sub),
    }
}

impl Predicate {
    /// Is the compilation of this predicate implemented?
    ///
    /// It is unless the predicate compares with a pattern variable or holds a sub-predicate on a
    /// plural field, at any depth.
    pub fn is_implemented(&self) -> (r: bool)
        ensures
            r == implemented(*self),
        decreases self,
    {
        match self {
            Predicate::Scalar(p) => p.is_literal(),
            Predicate::Resource(p) => p.is_implemented(),
        }
    }
}

impl ResourcePredicate {
    /// Is the compilation of this predicate implemented?
    ///
    /// It is unless the predicate compares with a pattern variable or holds a sub-predicate on a
    /// plural field, at any depth.
    #[verifier::loop_isolation(false)]
    pub fn is_implemented(&self) -> (r: bool)
        ensures
            r == resource_implemented(*self),
        decreases self,
    {
        match self {
            ResourcePredicate::Is(sub) => sub.is_implemented(),
            ResourcePredicate::Has(has) => {
                let mut p: usize = 0;
                while p < has.plural_fields.len()
                    invariant
                        p <= has.plural_fields@.len(),
                        forall|q: int| 0 <= q < p ==> (#[trigger] has.plural_fields@[q]) is None,
                    decreases has.plural_fields@.len() - p,
                {
                    if has.plural_fields[p].is_some() {
                        proof {
                            assert(has.plural_fields@[p as int] is Some);
                        }
                        return false;
                    }
                    p += 1;
                }
                let mut f: usize = 0;
                while f < has.fields.len()
                    invariant
                        f <= has.fields@.len(),
                        !(has.has_plural()),
                        *self == ResourcePredicate::Has(*has),
                        forall|g: int|
                            0 <= g < f ==> ((#[trigger] has.fields@[g]) matches Some(sub)
                                ==> implemented(sub)),
                    decreases has.fields@.len() - f,
                {
                    match &has.fields[f] {
                        Some(sub) => {
                            proof {
                                assert(*self == ResourcePredicate::Has(*has));
                                assert(decreases_to!(*self => *has));
                                assert(decreases_to!(*has => has.fields));
                                assert(decreases_to!(has.fields => has.fields@));
                                assert(decreases_to!(has.fields@ => has.fields@[f as int]));
                                assert(has.fields@[f as int] == Some(*sub));
                                assert(decreases_to!(has.fields@[f as int] => *sub));
                            }
                            if !sub.is_implemented() {
                                return false;
                            }
                        },
                        None => {},
                    }
                    f += 1;
                }
                true
            },
        }
    }
}

impl Has {
    /// Whether this predicate holds a sub-predicate on a plural field.
    pub open spec fn has_plural(self) -> bool {
        exists|p: int|
            0 <= p < self.plural_fields@.len() && (#[trigger] self.plural_fields@[p]) is Some
    }

    /// A predicate without sub-predicates on a resource with the given numbers of fields.
    pub fn new(num_fields: usize, num_plural_fields: usize) -> (h: Self)
        ensures
            h.fields@ == Seq::new(num_fields as nat, |i: int| None::<Predicate>),
            h.plural_fields@ == Seq::new(num_plural_fields as nat, |i: int| None::<PluralPredicate>),
    {
        let mut fields: Vec<Option<Predicate>> = Vec::new();
        while fields.len() < num_fields
            invariant
                fields.len() <= num_fields,
                forall|i: int| 0 <= i < fields.len() ==> (#[trigger] fields[i]) is None,
            decreases num_fields - fields.len(),
        {
            fields.push(None);
        }
        let mut plural_fields: Vec<Option<PluralPredicate>> = Vec::new();
        while plural_fields.len() < num_plural_fields
            invariant
                plural_fields.len() <= num_plural_fields,
                forall|i: int| 0 <= i < plural_fields.len() ==> (#[trigger] plural_fields[i]) is None,
            decreases num_plural_fields - plural_fields.len(),
        {
            plural_fields.push(None);
        }
        proof {
            assert(fields@ =~= Seq::new(num_fields as nat, |i: int| None::<Predicate>));
            assert(plural_fields@ =~= Seq::new(
                num_plural_fields as nat,
                |i: int| None::<PluralPredicate>,
            ));
        }
        Has { fields, plural_fields }
    }

    /// Set the sub-predicate on the field at position `field`.
    ///
    /// A position which is not that of a field is ignored.
    pub fn field(self, field: usize, predicate: Predicate) -> (h: Self)
        ensures
            h.plural_fields == self.plural_fields,
            field < self.fields@.len() ==> h.fields@ == self.fields@.update(
                field as int,
                Some(predicate),
            ),
            field >= self.fields@.len() ==> h.fields@ == self.fields@,
    {
        let mut h = self;
        if field < h.fields.len() {
            h.fields.set(field, Some(predicate));
        }
        h
    }

    /// Set the sub-predicate on the plural field at position `field`.
    ///
    /// A position which is not that of a plural field is ignored.
    pub fn plural_field(self, field: usize, predicate: PluralPredicate) -> (h: Self)
        ensures
            h.fields == self.fields,
            field < self.plural_fields@.len() ==> h.plural_fields@ == self.plural_fields@.update(
                field as int,
                Some(predicate),
            ),
            field >= self.plural_fields@.len() ==> h.plural_fields@ == self.plural_fields@,
    {
        let mut h = self;
        if field < h.plural_fields.len() {
            h.plural_fields.set(field, Some(predicate));
        }
        h
    }

    /// The sub-predicate on the field at position `field`, if there is one.
    pub open spec fn slot(self, field: int) -> Option<Predicate> {
        if 0 <= field < self.fields@.len() {
            self.fields@[field]
        } else {
            None
        }
    }

    /// Get the sub-predicate on the field at position `field`, if there is one.
    pub fn get(&self, field: usize) -> (p: Option<&Predicate>)
        ensures
            p == match self.slot(field as int) {
                Some(q) => Some(&q),
                None => None,
            },
    {
        if field < self.fields.len() {
            self.fields[field].as_ref()
        } else {
            None
        }
    }

    /// Replace the sub-predicate on the field at position `field`, if there is one, and return
    /// the one that it replaces.
    ///
    /// Nothing changes if the field has no sub-predicate.
    pub fn replace(&mut self, field: usize, predicate: Predicate) -> (p: Option<Predicate>)
        ensures
            p == old(self).slot(field as int),
            final(self).plural_fields == old(self).plural_fields,
            final(self).fields@.len() == old(self).fields@.len(),
            final(self).slot(field as int) == match old(self).slot(field as int) {
                Some(_) => Some(predicate),
                None => None,
            },
            forall|i: int| i != field ==> final(self).slot(i) == old(self).slot(i),
    {
        if field < self.fields.len() && self.fields[field].is_some() {
            let ghost before = self.fields@;
            let replaced = self.fields[field].take();
            self.fields.set(field, Some(predicate));
            proof {
                assert(self.fields@ =~= before.update(field as int, Some(predicate)));
            }
            replaced
        } else {
            None
        }
    }

    /// Take the sub-predicate on the field at position `field`, if there is one.
    ///
    /// The next time this function or [`get`](Self::get) is called on the same field, it will
    /// return [`None`], since the field has been taken.
    pub fn take(&mut self, field: usize) -> (p: Option<Predicate>)
        ensures
            p == old(self).slot(field as int),
            final(self).slot(field as int) is None,
            final(self).plural_fields == old(self).plural_fields,
            final(self).fields@.len() == old(self).fields@.len(),
            forall|i: int| i != field ==> final(self).slot(i) == old(self).slot(i),
    {
        if field < self.fields.len() {
            let ghost before = self.fields@;
            let taken = self.fields[field].take();
            proof {
                assert(self.fields@ =~= before.update(field as int, None));
            }
            taken
        } else {
            None
        }
    }
}

/// The type of a field: a kind of scalar, or a resource of a schema.
#[derive(Clone, Copy, Debug, PartialEq, Eq, Structural)]
pub enum Type {
    /// A scalar of the given kind.
    Scalar(ScalarKind),
    /// The resource at the given position of the schema.
    Resource(usize),
}

/// Visitor which allows a [`Type`] to describe itself to a backend.
///
/// A visitor learns whether a type is a scalar or a resource, and receives the corresponding
/// call.
pub trait Visitor: Sized {
    /// An output summarizing the results of visiting the type.
    type Output;

    /// Whether `output` is what this visitor makes of the given type.
    spec fn visits(self, ty: Type, output: Self::Output) -> bool;

    /// Visit a type which is the resource at the given position of the schema.
    fn resource(self, resource: usize) -> (output: Self::Output)
        ensures
            self.visits(Type::Resource(resource), output),
    ;

    /// Visit a type which is a scalar of the given kind.
    fn scalar(self, kind: ScalarKind) -> (output: Self::Output)
        ensures
            self.visits(Type::Scalar(kind), output),
    ;
}

impl Type {
    /// Describe the structure and definition of this type.
    pub fn describe<V: Visitor>(&self, visitor: V) -> (output: V::Output)
        ensures
            visitor.visits(*self, output),
    {
        match self {
            Type::Resource(resource) => visitor.resource(*resource),
            Type::Scalar(kind) => visitor.scalar(*kind),
        }
    }
}

/// Metadata about a field of a resource.
#[derive(Debug, PartialEq, Eq)]
pub struct Field {
    /// The name of the field.
    pub name: String,
    /// The type of the field.
    pub ty: Type,
}

impl Field {
    /// A field with the given name and type.
    pub fn new(name: String, ty: Type) -> (f: Self)
        ensures
            f == (Field { name, ty }),
    {
        Field { name, ty }
    }
}

/// Metadata about a plural field of a resource.
#[derive(Debug, PartialEq, Eq)]
pub struct PluralField {
    /// The name of the field.
    pub name: String,
    /// The position in the schema of the resource of the items in this collection.
    pub singular: usize,
    /// The position, among the fields of the items in this collection, of the field which
    /// refers to the owner of the collection. A relation has such a field if it is one-to-many,
    /// and has none if it is many-to-many.
    pub inverse: Option<usize>,
}

impl PluralField {
    /// Is the relation one-to-many: do the items of the collection refer to their owner?
    pub fn is_one_to_many(&self) -> (r: bool)
        ensures
            r == (self.inverse is Some),
    {
        self.inverse.is_some()
    }

    /// A plural field with the given name, relating to a collection of the given resource.
    pub fn new(name: String, singular: usize, inverse: Option<usize>) -> (f: Self)
        ensures
            f == (PluralField { name, singular, inverse }),
    {
        PluralField { name, singular, inverse }
    }
}

/// A complex type in the relational GraphQL type system.
///
/// A resource has exactly one ID field, an ordered list of singular fields (its ID among them),
/// and an ordered list of plural fields. The order of the fields is the same in every operation.
#[derive(Debug, PartialEq, Eq)]
pub struct Resource {
    /// The name of this resource.
    pub name: String,
    /// The plural form of the name.
    pub plural_name: String,
    /// The singular fields of this resource.
    pub fields: Vec<Field>,
    /// The plural fields of this resource.
    pub plural_fields: Vec<PluralField>,
    /// The position among the fields of the unique, sequentially increasing ID.
    pub id: usize,
    /// The position among the fields of the primary field, if this resource declares one.
    pub primary: Option<usize>,
}

/// Visitor which allows the fields of a [`Resource`] to describe themselves to a backend.
pub trait FieldVisitor: Sized {
    /// An output summarizing the results of visiting a field.
    type Output;

    /// Whether a visit of `field` takes this visitor to the state `after`, with `output`.
    spec fn visits(self, field: Field, after: Self, output: Self::Output) -> bool;

    /// Tell the visitor about a field.
    fn visit(&mut self, field: &Field) -> (output: Self::Output)
        ensures
            old(self).visits(*field, *final(self), output),
    ;
}

/// Visitor which allows the plural fields of a [`Resource`] to describe themselves to a backend.
pub trait PluralFieldVisitor: Sized {
    /// An output summarizing the results of visiting a plural field.
    type Output;

    /// Whether a visit of `field` takes this visitor to the state `after`, with `output`.
    spec fn visits(self, field: PluralField, after: Self, output: Self::Output) -> bool;

    /// Tell the visitor about a plural field.
    fn visit(&mut self, field: &PluralField) -> (output: Self::Output)
        ensures
            old(self).visits(*field, *final(self), output),
    ;
}

/// Whether a visitor which starts in the first of `states` goes through them, one for each of
/// `fields` in their order, with `outputs`.
pub open spec fn describes<V: FieldVisitor>(
    fields: Seq<Field>,
    states: Seq<V>,
    outputs: Seq<V::Output>,
) -> bool {
    &&& states.len() == fields.len() + 1
    &&& outputs.len() == fields.len()
    &&& forall|f: int|
        0 <= f < fields.len() ==> (#[trigger] states[f]).visits(fields[f], states[f + 1], outputs[f])
}

/// Whether a visitor which starts in the first of `states` goes through them, one for each of
/// `fields` in their order, with `outputs`.
pub open spec fn describes_plural<V: PluralFieldVisitor>(
    fields: Seq<PluralField>,
    states: Seq<V>,
    outputs: Seq<V::Output>,
) -> bool {
    &&& states.len() == fields.len() + 1
    &&& outputs.len() == fields.len()
    &&& forall|f: int|
        0 <= f < fields.len() ==> (#[trigger] states[f]).visits(fields[f], states[f + 1], outputs[f])
}

/// The visitor which collects the names of fields.
pub struct FieldNames;

impl FieldVisitor for FieldNames {
    type Output = String;

    open spec fn visits(self, field: Field, after: Self, output: String) -> bool {
        output == field.name
    }

    fn visit(&mut self, field: &Field) -> (output: String) {
        field.name.clone()
    }
}

impl Resource {
    /// Describe the fields of this resource.
    ///
    /// The visitor is told about every field exactly once, in the order of the fields, which is
    /// the same on every call, and the outputs are collected in that order.
    pub fn describe_fields<V: FieldVisitor>(&self, visitor: &mut V) -> (outputs: Vec<V::Output>)
        ensures
            exists|states: Seq<V>|
                #[trigger] describes(self.fields@, states, outputs@) && states.first() == *old(
                    visitor,
                ) && states.last() == *final(visitor),
    {
        let ghost mut states: Seq<V> = seq![*visitor];
        let mut outputs: Vec<V::Output> = Vec::new();
        let mut f: usize = 0;
        while f < self.fields.len()
            invariant
                f <= self.fields@.len(),
                describes(self.fields@.take(f as int), states, outputs@),
                states.first() == *old(visitor),
                states.last() == *visitor,
            decreases self.fields@.len() - f,
        {
            let ghost before = states;
            let ghost held = outputs@;
            let output = visitor.visit(&self.fields[f]);
            outputs.push(output);
            proof {
                states = states.push(*visitor);
                let fields = self.fields@.take(f + 1);
                assert forall|g: int| 0 <= g < fields.len() implies (#[trigger] states[g]).visits(
                    fields[g],
                    states[g + 1],
                    outputs@[g],
                ) by {
                    if g < f {
                        assert(before[g].visits(self.fields@.take(f as int)[g], before[g + 1], held[g]));
                    }
                }
            }
            f += 1;
        }
        proof {
            assert(self.fields@.take(f as int) =~= self.fields@);
        }
        outputs
    }

    /// Describe the plural fields of this resource.
    ///
    /// The visitor is told about every plural field exactly once, in the order of the plural
    /// fields, which is the same on every call, and the outputs are collected in that order.
    pub fn describe_plural_fields<V: PluralFieldVisitor>(&self, visitor: &mut V) -> (outputs: Vec<
        V::Output,
    >)
        ensures
            exists|states: Seq<V>|
                #[trigger] describes_plural(self.plural_fields@, states, outputs@)
                    && states.first() == *old(visitor) && states.last() == *final(visitor),
    {
        let ghost mut states: Seq<V> = seq![*visitor];
        let mut outputs: Vec<V::Output> = Vec::new();
        let mut f: usize = 0;
        while f < self.plural_fields.len()
            invariant
                f <= self.plural_fields@.len(),
                describes_plural(self.plural_fields@.take(f as int), states, outputs@),
                states.first() == *old(visitor),
                states.last() == *visitor,
            decreases self.plural_fields@.len() - f,
        {
            let ghost before = states;
            let ghost held = outputs@;
            let output = visitor.visit(&self.plural_fields[f]);
            outputs.push(output);
            proof {
                states = states.push(*visitor);
                let fields = self.plural_fields@.take(f + 1);
                assert forall|g: int| 0 <= g < fields.len() implies (#[trigger] states[g]).visits(
                    fields[g],
                    states[g + 1],
                    outputs@[g],
                ) by {
                    if g < f {
                        assert(before[g].visits(
                            self.plural_fields@.take(f as int)[g],
                            before[g + 1],
                            held[g],
                        ));
                    }
                }
            }
            f += 1;
        }
        proof {
            assert(self.plural_fields@.take(f as int) =~= self.plural_fields@);
        }
        outputs
    }

    /// The names of this resource's singular fields.
    pub fn field_names(&self) -> (names: Vec<String>)
        ensures
            names@.len() == self.fields@.len(),
            forall|i: int| 0 <= i < names@.len() ==> (#[trigger] names@[i]) == self.fields@[i].name,
    {
        let mut visitor = FieldNames;
        let names = self.describe_fields(&mut visitor);
        proof {
            let states = choose|states: Seq<FieldNames>|
                #[trigger] describes(self.fields@, states, names@);
            assert forall|i: int| 0 <= i < names@.len() implies (#[trigger] names@[i])
                == self.fields@[i].name by {
                assert(states[i].visits(self.fields@[i], states[i + 1], names@[i]));
            }
        }
        names
    }

    /// Is the field at position `field` the unique ID field of this resource?
    pub fn is_id(&self, field: usize) -> (r: bool)
        ensures
            r == (field == self.id),
    {
        field == self.id
    }
}

/// Why a resource cannot be added to a schema.
#[derive(Clone, Copy, Debug, PartialEq, Eq, Structural)]
pub enum SchemaError {
    /// The resource does not designate one of its fields of type [`Id`] as its ID.
    MissingId,
    /// The resource designates a primary field which it does not have.
    UnknownPrimary,
    /// A field has the type of a resource which was not added to the schema before.
    UnknownResource,
    /// A plural field relates to a resource which is not in the schema.
    UnknownSingular,
}

/// Whether `resource` designates one of its fields of type [`Id`] as its ID.
pub open spec fn has_id(resource: Resource) -> bool {
    &&& resource.id < resource.fields@.len()
    &&& resource.fields@[resource.id as int].ty == Type::Scalar(ScalarKind::I32)
}

/// Whether the primary field of `resource`, if it designates one, is one of its fields.
pub open spec fn has_primary(resource: Resource) -> bool {
    resource.primary matches Some(p) ==> p < resource.fields@.len()
}

/// Whether every field of `resource` with the type of a resource refers to one of the first
/// `known` resources of a schema.
pub open spec fn fields_known(resource: Resource, known: int) -> bool {
    forall|f: int|
        0 <= f < resource.fields@.len() ==> (#[trigger] resource.fields@[f].ty matches Type::Resource(
            t,
        ) ==> t < known)
}

/// Whether the plural field `field` of the resource at position `owner` of `resources` relates to
/// one of these resources and, if the relation is one-to-many, names one of its fields, which
/// refers to the owner.
pub open spec fn plural_field_wf(resources: Seq<Resource>, owner: int, field: PluralField) -> bool {
    &&& field.singular < resources.len()
    &&& field.inverse matches Some(i) ==> {
        &&& i < resources[field.singular as int].fields@.len()
        &&& resources[field.singular as int].fields@[i as int].ty == Type::Resource(owner as usize)
    }
}

/// Whether every plural field of the resource at position `owner` is consistent with
/// `resources`.
pub open spec fn plural_fields_wf(resources: Seq<Resource>, owner: int) -> bool {
    forall|f: int|
        0 <= f < resources[owner].plural_fields@.len() ==> plural_field_wf(
            resources,
            owner,
            #[trigger] resources[owner].plural_fields@[f],
        )
}

/// Whether every plural field of `resource` is a many-to-many relation to one of the first
/// `known` resources of a schema.
pub open spec fn plural_fields_known(resource: Resource, known: int) -> bool {
    forall|f: int|
        0 <= f < resource.plural_fields@.len() ==> (#[trigger] resource.plural_fields@[f]).singular
            < known && resource.plural_fields@[f].inverse is None
}

/// The reason, if any, why `resource` cannot follow `known` resources in a schema.
pub open spec fn rejection(resource: Resource, known: int) -> Option<SchemaError> {
    if !has_id(resource) {
        Some(SchemaError::MissingId)
    } else if !has_primary(resource) {
        Some(SchemaError::UnknownPrimary)
    } else if !fields_known(resource, known) {
        Some(SchemaError::UnknownResource)
    } else if !plural_fields_known(resource, known + 1) {
        Some(SchemaError::UnknownSingular)
    } else {
        None
    }
}

/// A registry of the resources of a data model.
///
/// Each resource is known by its position in the schema. A field can have the type of a
/// resource which precedes its own in the schema, so singular relations never form a cycle.
/// A plural field can relate to any resource of the schema, its own included.
#[derive(Debug)]
pub struct Schema {
    resources: Vec<Resource>,
}

impl View for Schema {
    type V = Seq<Resource>;

    closed spec fn view(&self) -> Seq<Resource> {
        self.resources@
    }
}

impl Schema {
    /// Whether the resource at position `r` of `resources` is consistent with the others.
    pub open spec fn resource_wf(resources: Seq<Resource>, r: int) -> bool {
        &&& has_id(resources[r])
        &&& has_primary(resources[r])
        &&& fields_known(resources[r], r)
        &&& plural_fields_wf(resources, r)
    }

    /// Whether every resource of this schema is consistent with the others.
    pub open spec fn wf(&self) -> bool {
        forall|r: int| 0 <= r < self@.len() ==> Self::resource_wf(self@, r)
    }

    /// A schema without resources.
    pub fn new() -> (s: Self)
        ensures
            s.wf(),
            s@.len() == 0,
    {
        Schema { resources: Vec::new() }
    }

    /// The number of resources in this schema.
    pub fn len(&self) -> (n: usize)
        ensures
            n == self@.len(),
    {
        self.resources.len()
    }

    /// The resource at position `r`.
    pub fn resource(&self, r: usize) -> (resource: &Resource)
        requires
            r < self@.len(),
        ensures
            *resource == self@[r as int],
    {
        &self.resources[r]
    }

    /// Add a resource to this schema, and return its position.
    ///
    /// # Errors
    ///
    /// The schema is left unchanged if the resource has no ID, if it designates a primary field
    /// that it does not have, if the type of one of its fields is a resource that is not yet in
    /// the schema, or if one of its plural fields is not a many-to-many relation to a resource
    /// in the schema or to the resource itself.
    #[verifier::loop_isolation(false)]
    pub fn add(&mut self, resource: Resource) -> (r: Result<usize, SchemaError>)
        requires
            old(self).wf(),
        ensures
            final(self).wf(),
            match rejection(resource, old(self)@.len() as int) {
                Some(e) => r == Err::<usize, SchemaError>(e) && final(self)@ == old(self)@,
                None => r == Ok::<usize, SchemaError>(old(self)@.len() as usize) && final(self)@
                    == old(self)@.push(resource),
            },
    {
        let known = self.resources.len();
        if !(resource.id < resource.fields.len()) {
            return Err(SchemaError::MissingId);
        }
        match resource.fields[resource.id].ty {
            Type::Scalar(ScalarKind::I32) => {},
            _ => {
                return Err(SchemaError::MissingId);
            },
        }
        match resource.primary {
            Some(p) => {
                if p >= resource.fields.len() {
                    return Err(SchemaError::UnknownPrimary);
                }
            },
            None => {},
        }
        let mut f: usize = 0;
        while f < resource.fields.len()
            invariant
                f <= resource.fields.len(),
                forall|g: int|
                    0 <= g < f ==> (#[trigger] resource.fields@[g].ty matches Type::Resource(t) ==> t
                        < known),
            decreases resource.fields.len() - f,
        {
            match resource.fields[f].ty {
                Type::Resource(t) => {
                    if t >= known {
                        proof {
                            assert(resource.fields@[f as int].ty matches Type::Resource(u) && u
                                >= known);
                        }
                        return Err(SchemaError::UnknownResource);
                    }
                },
                Type::Scalar(_) => {},
            }
            f += 1;
        }
        let mut p: usize = 0;
        while p < resource.plural_fields.len()
            invariant
                p <= resource.plural_fields.len(),
                forall|g: int|
                    0 <= g < p ==> (#[trigger] resource.plural_fields@[g]).singular <= known
                        && resource.plural_fields@[g].inverse is None,
            decreases resource.plural_fields.len() - p,
        {
            if resource.plural_fields[p].singular > known || resource.plural_fields[p].inverse.is_some() {
                proof {
                    assert(!(resource.plural_fields@[p as int].singular < known + 1
                        && resource.plural_fields@[p as int].inverse is None));
                }
                return Err(SchemaError::UnknownSingular);
            }
            p += 1;
        }
        let ghost before = self@;
        self.resources.push(resource);
        proof {
            assert forall|r: int| 0 <= r < self@.len() implies Self::resource_wf(self@, r) by {
                if r < before.len() {
                    assert(Self::resource_wf(before, r));
                    assert(self@[r] == before[r]);
                    assert forall|f: int| 0 <= f < self@[r].plural_fields@.len() implies plural_field_wf(
                        self@,
                        r,
                        #[trigger] self@[r].plural_fields@[f],
                    ) by {
                        let field = before[r].plural_fields@[f];
                        assert(plural_field_wf(before, r, field));
                        assert(self@[field.singular as int] == before[field.singular as int]);
                    }
                } else {
                    assert forall|f: int| 0 <= f < self@[r].plural_fields@.len() implies plural_field_wf(
                        self@,
                        r,
                        #[trigger] self@[r].plural_fields@[f],
                    ) by {
                        assert(resource.plural_fields@[f].singular < known + 1);
                    }
                }
            }
        }
        Ok(known)
    }

    /// Add a plural field to the resource at position `owner`.
    ///
    /// This is how a resource comes to relate to a collection of a resource which follows it in
    /// the schema, and to a collection whose items refer to their owner.
    ///
    /// # Errors
    ///
    /// The schema is left unchanged if `owner` is not in the schema, or if the field is not
    /// consistent with the schema: if the resource that it relates to is not in the schema, or
    /// if the field that it names as the inverse of the relation is not a field of that resource
    /// with the type of the owner.
    pub fn add_plural_field(&mut self, owner: usize, field: PluralField) -> (r: Result<
        (),
        SchemaError,
    >)
        requires
            old(self).wf(),
        ensures
            final(self).wf(),
            final(self)@.len() == old(self)@.len(),
            owner >= old(self)@.len() ==> r == Err::<(), SchemaError>(SchemaError::UnknownResource)
                && final(self)@ == old(self)@,
            owner < old(self)@.len() && !plural_field_wf(old(self)@, owner as int, field) ==> r
                == Err::<(), SchemaError>(SchemaError::UnknownSingular) && final(self)@
                == old(self)@,
            owner < old(self)@.len() && plural_field_wf(old(self)@, owner as int, field) ==> {
                let before = old(self)@[owner as int];
                &&& r == Ok::<(), SchemaError>(())
                &&& final(self)@ == old(self)@.update(
                    owner as int,
                    final(self)@[owner as int],
                )
                &&& final(self)@[owner as int].plural_fields@ == before.plural_fields@.push(field)
                &&& final(self)@[owner as int].fields == before.fields
                &&& final(self)@[owner as int].name == before.name
                &&& final(self)@[owner as int].plural_name == before.plural_name
                &&& final(self)@[owner as int].id == before.id
                &&& final(self)@[owner as int].primary == before.primary
            },
    {
        if owner >= self.resources.len() {
            return Err(SchemaError::UnknownResource);
        }
        if field.singular >= self.resources.len() {
            return Err(SchemaError::UnknownSingular);
        }
        match field.inverse {
            Some(i) => {
                if i >= self.resources[field.singular].fields.len() {
                    return Err(SchemaError::UnknownSingular);
                }
                match self.resources[field.singular].fields[i].ty {
                    Type::Resource(t) => {
                        if t != owner {
                            return Err(SchemaError::UnknownSingular);
                        }
                    },
                    Type::Scalar(_) => {
                        return Err(SchemaError::UnknownSingular);
                    },
                }
            },
            None => {},
        }
        let ghost before = self@;
        self.resources[owner].plural_fields.push(field);
        proof {
            assert(self@ =~= before.update(owner as int, self@[owner as int]));
            assert forall|r: int| 0 <= r < self@.len() implies Self::resource_wf(self@, r) by {
                assert(Self::resource_wf(before, r));
                assert(self@[r].fields == before[r].fields);
                assert forall|f: int| 0 <= f < self@[r].plural_fields@.len() implies plural_field_wf(
                    self@,
                    r,
                    #[trigger] self@[r].plural_fields@[f],
                ) by {
                    let item = self@[r].plural_fields@[f];
                    if r == owner && f == before[r].plural_fields@.len() {
                        assert(item == field);
                    } else {
                        assert(item == before[r].plural_fields@[f]);
                        assert(plural_field_wf(before, r, item));
                    }
                    assert(self@[item.singular as int].fields == before[item.singular as int].fields);
                }
            }
        }
        Ok(())
    }
}

/// An object of some [`Type`]: a scalar, or an item of a resource.
#[derive(Debug, PartialEq, Eq)]
pub enum Instance {
    /// A scalar value.
    Scalar(Scalar),
    /// An item of a resource.
    Resource(Record),
}

/// An item of a resource: one object for each field of the resource, in the order of the
/// fields.
#[derive(Debug, PartialEq, Eq)]
pub struct Record {
    /// The position in the schema of the resource of this item.
    pub resource: usize,
    /// The values of the fields.
    pub fields: Vec<Instance>,
}

/// The mathematical value of an [`Instance`].
pub enum InstanceView {
    Scalar(Scalar),
    Resource(RecordView),
}

/// The mathematical value of a [`Record`].
pub struct RecordView {
    pub resource: usize,
    pub fields: Seq<InstanceView>,
}

/// The mathematical value of an object.
pub open spec fn instance_view(instance: Instance) -> InstanceView
    decreases instance,
{
    match instance {
        Instance::Scalar(s) => InstanceView::Scalar(s),
        Instance::Resource(r) => InstanceView::Resource(record_view(r)),
    }
}

/// The mathematical value of an item: the values of its fields, in their order.
pub open spec fn record_view(record: Record) -> RecordView
    decreases record,
{
    RecordView {
        resource: record.resource,
        fields: Seq::new(
            record.fields@.len(),
            |i: int|
                if 0 <= i < record.fields@.len() {
                    instance_view(record.fields@[i])
                } else {
                    InstanceView::Scalar(Scalar::I32(0))
                },
        ),
    }
}

impl View for Instance {
    type V = InstanceView;

    open spec fn view(&self) -> InstanceView {
        instance_view(*self)
    }
}

impl View for Record {
    type V = RecordView;

    open spec fn view(&self) -> RecordView {
        record_view(*self)
    }
}

impl Record {
    /// Access the field at position `field` of this item.
    pub fn get(&self, field: usize) -> (value: &Instance)
        requires
            field < self.fields@.len(),
        ensures
            *value == self.fields@[field as int],
    {
        &self.fields[field]
    }
}

impl Clone for Instance {
    fn clone(&self) -> (r: Self)
        ensures
            r@ == self@,
        decreases self,
    {
        match self {
            Instance::Scalar(s) => Instance::Scalar(s.clone()),
            Instance::Resource(record) => Instance::Resource(record.clone()),
        }
    }
}

impl Clone for Record {
    fn clone(&self) -> (r: Self)
        ensures
            r@ == self@,
        decreases self,
    {
        let mut fields: Vec<Instance> = Vec::new();
        let mut i: usize = 0;
        while i < self.fields.len()
            invariant
                i <= self.fields@.len(),
                fields@.len() == i,
                forall|k: int| 0 <= k < i ==> (#[trigger] fields@[k])@ == self.fields@[k]@,
            decreases self.fields@.len() - i,
        {
            proof {
                assert(decreases_to!(self => self.fields));
                assert(decreases_to!(self.fields => self.fields@));
                assert(decreases_to!(self.fields@ => self.fields@[i as int]));
            }
            fields.push(self.fields[i].clone());
            i += 1;
        }
        let record = Record { resource: self.resource, fields };
        proof {
            assert(record@.fields =~= self@.fields);
        }
        record
    }
}

} // verus!
