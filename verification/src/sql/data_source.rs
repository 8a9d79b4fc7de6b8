//! A GraphQL data source for a SQL database.

use super::db::mock;
use super::ops;
use super::ops::select::record_views;
use super::ops::{Error, Layout};
use crate::graphql::type_system::{Instance, Record, RecordView, ResourcePredicate};
use vstd::prelude::*;

verus! {

/// Placeholder for connection objects (connections or edges) which have no additional fields.
#[derive(Clone, Copy, Debug, PartialEq, Eq, Structural)]
pub struct EmptyFields;

/// A specification of a page to load in a paginated connection.
#[derive(Clone, Copy, Debug)]
pub struct PageRequest {
    /// Limit the results to the first N items that otherwise match the request.
    pub first: Option<usize>,
    /// Start the page at the item indicated by this cursor.
    pub after: Option<usize>,
    /// Limit the results to the last N items that otherwise match the request.
    pub last: Option<usize>,
    /// End the page before the item indicated by this cursor.
    pub before: Option<usize>,
}

/// An item in a page of a paginated connection.
#[derive(Debug)]
pub struct Edge {
    /// The position of the item in the connection.
    pub cursor: usize,
    /// The item.
    pub node: Record,
    /// The additional fields of the edge.
    pub fields: EmptyFields,
}

/// A paginated connection to a set of rows.
#[derive(Debug)]
pub struct SqlConnection<C> {
    fields: C,
    // For now we just keep all items in the connection in memory.
    edges: Vec<Record>,
}

/// The smaller of two numbers.
pub open spec fn least(a: int, b: int) -> int {
    if a <= b {
        a
    } else {
        b
    }
}

/// The positions of the first item of a page and of the item after its last item, in a
/// connection with `len` items.
///
/// The page is taken from the items between the cursors: of these, the first `first` items, and
/// of those, the last `last` items. A cursor beyond the items stands for the end of the items,
/// and a limit beyond the number of items that there are stands for that number.
pub open spec fn window(len: int, page: PageRequest) -> (int, int) {
    let after = match page.after {
        Some(after) => least(after as int, len),
        None => 0,
    };
    let before = match page.before {
        Some(before) => least(before as int, len),
        None => len,
    };
    let between = if after <= before {
        before - after
    } else {
        0
    };
    let first = match page.first {
        Some(first) => least(first as int, between),
        None => between,
    };
    let last = match page.last {
        Some(last) => least(last as int, first),
        None => first,
    };
    (after + first - last, after + first)
}

impl<C> SqlConnection<C> {
    /// The items of this connection.
    pub closed spec fn nodes(&self) -> Seq<RecordView> {
        record_views(self.edges@)
    }

    /// The additional fields of this connection.
    pub closed spec fn spec_fields(&self) -> C {
        self.fields
    }

    /// An empty connection.
    pub fn empty(fields: C) -> (c: Self)
        ensures
            c.nodes() == Seq::<RecordView>::empty(),
            c.spec_fields() == fields,
    {
        let c = SqlConnection { fields, edges: Vec::new() };
        proof {
            assert(c.nodes() =~= Seq::<RecordView>::empty());
        }
        c
    }

    /// A connection to the given items.
    pub fn new(fields: C, edges: Vec<Record>) -> (c: Self)
        ensures
            c.nodes() == record_views(edges@),
            c.spec_fields() == fields,
    {
        SqlConnection { fields, edges }
    }

    /// Are there more objects after `cursor`?
    pub fn has_next(&self, cursor: &usize) -> (r: bool)
        ensures
            r == (*cursor + 1 < self.nodes().len()),
    {
        *cursor < self.edges.len() && *cursor + 1 < self.edges.len()
    }

    /// Are there more objects before `cursor`?
    pub fn has_previous(&self, cursor: &usize) -> (r: bool)
        ensures
            r == (*cursor > 0),
    {
        *cursor > 0
    }

    /// Get the additional connection-level fields.
    pub fn fields(&self) -> (r: &C)
        ensures
            *r == self.spec_fields(),
    {
        &self.fields
    }

    /// Load a page from a paginated connection.
    ///
    /// Every request is answered: a request for more items than there are gives the items that
    /// there are.
    pub fn load(&self, page: PageRequest) -> (r: Vec<Edge>)
        ensures
            ({
                let (start, end) = window(self.nodes().len() as int, page);
                &&& 0 <= start <= end <= self.nodes().len()
                &&& r@.len() == end - start
                &&& forall|i: int|
                    0 <= i < r@.len() ==> (#[trigger] r@[i]).cursor == start + i && r@[i].node@
                        == self.nodes()[start + i]
            }),
    {
        let len = self.edges.len();
        let after = match page.after {
            Some(after) => if after <= len {
                after
            } else {
                len
            },
            None => 0,
        };
        let before = match page.before {
            Some(before) => if before <= len {
                before
            } else {
                len
            },
            None => len,
        };
        let between = if after <= before {
            before - after
        } else {
            0
        };
        let first = match page.first {
            Some(first) => if first <= between {
                first
            } else {
                between
            },
            None => between,
        };
        let last = match page.last {
            Some(last) => if last <= first {
                last
            } else {
                first
            },
            None => first,
        };
        let start = after + (first - last);
        let end = after + first;
        let mut out: Vec<Edge> = Vec::new();
        let mut i: usize = start;
        while i < end
            invariant
                start <= i <= end,
                end <= self.edges@.len(),
                out@.len() == i - start,
                forall|k: int|
                    0 <= k < out@.len() ==> (#[trigger] out@[k]).cursor == start + k && out@[k].node@
                        == self.edges@[start + k]@,
            decreases end - i,
        {
            out.push(Edge { cursor: i, node: self.edges[i].clone(), fields: EmptyFields });
            i += 1;
        }
        out
    }
}

/// A data source for the GraphQL API implemented using an in-memory SQL database.
#[derive(Debug)]
pub struct SqlDataSource {
    db: mock::Connection,
    layout: Layout,
}

impl SqlDataSource {
    /// Whether the database and the layout of the schema are consistent.
    pub closed spec fn wf(&self) -> bool {
        self.db.wf() && self.layout.wf()
    }

    /// The tables of the database.
    pub closed spec fn tables(&self) -> Seq<mock::TableView> {
        self.db@
    }

    /// The layout of the schema.
    pub closed spec fn layout(&self) -> Layout {
        self.layout
    }

    /// A data source which stores the resources of a schema in a database.
    pub fn new(db: mock::Connection, layout: Layout) -> (s: Self)
        requires
            db.wf(),
            layout.wf(),
        ensures
            s.wf(),
            s.tables() == db@,
            s.layout() == layout,
    {
        SqlDataSource { db, layout }
    }

    /// The database of this data source.
    pub fn db(&self) -> (r: &mock::Connection)
        ensures
            r@ == self.tables(),
            self.wf() ==> r.wf(),
    {
        &self.db
    }

    /// Load a page from a paginated connection.
    pub fn load_page<C>(&self, conn: &SqlConnection<C>, page: PageRequest) -> (r: Vec<Edge>)
        ensures
            ({
                let (start, end) = window(conn.nodes().len() as int, page);
                &&& 0 <= start <= end <= conn.nodes().len()
                &&& r@.len() == end - start
                &&& forall|i: int|
                    0 <= i < r@.len() ==> (#[trigger] r@[i]).cursor == start + i && r@[i].node@
                        == conn.nodes()[start + i]
            }),
    {
        conn.load(page)
    }

    /// Register the resource at position `resource` in the schema.
    ///
    /// A table is created for the resource and for each resource that it refers to, directly or
    /// through other resources. A table which exists is left as it is, and no other table is
    /// created.
    pub fn register(&mut self, resource: usize) -> (r: Result<(), Error>)
        requires
            old(self).wf(),
            resource < old(self).layout().schema@.len(),
        ensures
            final(self).wf(),
            final(self).layout() == old(self).layout(),
            r == Ok::<(), Error>(()),
            ops::register::registered(
                old(self).tables(),
                final(self).tables(),
                old(self).layout(),
                resource as int,
            ),
    {
        ops::register::execute(&mut self.db, &self.layout, resource)
    }

    /// Get a paginated connection to the items of the resource at position `resource` matching
    /// `filter`.
    ///
    /// The filter must be one whose compilation is implemented: see
    /// [`ResourcePredicate::is_implemented`].
    pub fn query(&self, resource: usize, filter: Option<ResourcePredicate>) -> (r: Result<
        SqlConnection<EmptyFields>,
        Error,
    >)
        requires
            self.wf(),
            resource < self.layout().schema@.len(),
            filter matches Some(predicate) ==> crate::graphql::type_system::resource_implemented(
                predicate,
            ),
        ensures
            match ops::select::found(self.tables(), self.layout(), resource as int, filter, None) {
                Ok(records) => r matches Ok(connection) && connection.nodes() == records,
                Err(e) => r matches Err(error) && error == e,
            },
    {
        match ops::select::execute(&self.db, &self.layout, resource, filter) {
            Ok(objects) => Ok(SqlConnection::new(EmptyFields, objects)),
            Err(e) => Err(e),
        }
    }

    /// Insert new items of the resource at position `resource` into the database.
    pub fn insert(&mut self, resource: usize, resources: Vec<Vec<Instance>>) -> (r: Result<(), Error>)
        requires
            old(self).wf(),
            resource < old(self).layout().schema@.len(),
        ensures
            final(self).wf(),
            final(self).layout() == old(self).layout(),
            match ops::insert::rows(
                old(self).layout().schema@[resource as int],
                ops::insert::records(resources@),
            ) {
                Err(e) => r == Err::<(), Error>(e) && final(self).tables() == old(self).tables(),
                Ok(stored) => match mock::inserted(
                    old(self).tables(),
                    old(self).layout().tables@[resource as int],
                    ops::insert::input_columns(old(self).layout(), resource as int),
                    stored,
                ) {
                    Ok(tables) => r == Ok::<(), Error>(()) && final(self).tables() == tables,
                    Err(error) => r == Err::<(), Error>(Error::Sql { error })
                        && final(self).tables() == old(self).tables(),
                },
            },
    {
        ops::insert::execute(&mut self.db, &self.layout, resource, resources)
    }
}

} // verus!
