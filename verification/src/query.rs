//! Queries: the read and write operations that the nodes of a query graph hold.

use crate::projection::{FieldId, ModelProjection};
use vstd::prelude::*;

verus! {

/// Identifier of a model, the kind of record that a query works on.
pub type ModelId = u64;

/// What a query does to the records of its model.
#[derive(Clone, Copy, Debug, PartialEq, Eq, Structural)]
pub enum QueryKind {
    Read,
    CreateRecord,
    UpdateRecord,
    DeleteRecord,
}

/// A query as contracts see it: its kind, the model it targets and the fields
/// that its result exposes.
pub struct QueryView {
    pub kind: QueryKind,
    pub model: ModelId,
    pub returned: Set<FieldId>,
}

/// Reads the selected fields of records of one model.
#[derive(Debug)]
pub struct ReadQuery {
    pub model: ModelId,
    pub selected_fields: ModelProjection,
}

/// Creates one record and returns the fields named.
#[derive(Debug)]
pub struct CreateRecord {
    pub model: ModelId,
    pub returned_fields: ModelProjection,
}

/// Updates one record and returns the fields named.
#[derive(Debug)]
pub struct UpdateRecord {
    pub model: ModelId,
    pub returned_fields: ModelProjection,
}

/// Deletes one record and returns the fields named.
#[derive(Debug)]
pub struct DeleteRecord {
    pub model: ModelId,
    pub returned_fields: ModelProjection,
}

#[derive(Debug)]
pub enum WriteQuery {
    CreateRecord(CreateRecord),
    UpdateRecord(UpdateRecord),
    DeleteRecord(DeleteRecord),
}

#[derive(Debug)]
pub enum Query {
    Read(ReadQuery),
    Write(WriteQuery),
}

impl View for Query {
    type V = QueryView;

    open spec fn view(&self) -> QueryView {
        match self {
            Query::Read(q) => QueryView {
                kind: QueryKind::Read,
                model: q.model,
                returned: q.selected_fields@,
            },
            Query::Write(WriteQuery::CreateRecord(q)) => QueryView {
                kind: QueryKind::CreateRecord,
                model: q.model,
                returned: q.returned_fields@,
            },
            Query::Write(WriteQuery::UpdateRecord(q)) => QueryView {
                kind: QueryKind::UpdateRecord,
                model: q.model,
                returned: q.returned_fields@,
            },
            Query::Write(WriteQuery::DeleteRecord(q)) => QueryView {
                kind: QueryKind::DeleteRecord,
                model: q.model,
                returned: q.returned_fields@,
            },
        }
    }
}

impl Query {
    /// A read of `selected_fields` on `model`.
    pub fn read(model: ModelId, selected_fields: ModelProjection) -> (q: Query)
        ensures
            q@ == (QueryView { kind: QueryKind::Read, model, returned: selected_fields@ }),
    {
        Query::Read(ReadQuery { model, selected_fields })
    }

    /// A create on `model` that returns `returned_fields`.
    pub fn create_record(model: ModelId, returned_fields: ModelProjection) -> (q: Query)
        ensures
            q@ == (QueryView {
                kind: QueryKind::CreateRecord,
                model,
                returned: returned_fields@,
            }),
    {
        Query::Write(WriteQuery::CreateRecord(CreateRecord { model, returned_fields }))
    }

    /// What the query does.
    pub fn kind(&self) -> (k: QueryKind)
        ensures
            k == self@.kind,
    {
        match self {
            Query::Read(_) => QueryKind::Read,
            Query::Write(WriteQuery::CreateRecord(_)) => QueryKind::CreateRecord,
            Query::Write(WriteQuery::UpdateRecord(_)) => QueryKind::UpdateRecord,
            Query::Write(WriteQuery::DeleteRecord(_)) => QueryKind::DeleteRecord,
        }
    }

    /// The model whose records the query works on.
    pub fn model(&self) -> (m: ModelId)
        ensures
            m == self@.model,
    {
        match self {
            Query::Read(q) => q.model,
            Query::Write(WriteQuery::CreateRecord(q)) => q.model,
            Query::Write(WriteQuery::UpdateRecord(q)) => q.model,
            Query::Write(WriteQuery::DeleteRecord(q)) => q.model,
        }
    }

    /// The fields that the query's result exposes.
    pub fn returned_fields(&self) -> (p: &ModelProjection)
        ensures
            p@ == self@.returned,
    {
        match self {
            Query::Read(q) => &q.selected_fields,
            Query::Write(WriteQuery::CreateRecord(q)) => &q.returned_fields,
            Query::Write(WriteQuery::UpdateRecord(q)) => &q.returned_fields,
            Query::Write(WriteQuery::DeleteRecord(q)) => &q.returned_fields,
        }
    }

    /// Whether the query's result already exposes every field of `projection`.
    pub fn returns_fields(&self, projection: &ModelProjection) -> (b: bool)
        ensures
            b == projection@.subset_of(self@.returned),
    {
        self.returned_fields().covers(projection)
    }
}

impl Clone for Query {
    fn clone(&self) -> (out: Self)
        ensures
            out@ == self@,
    {
        match self {
            Query::Read(q) => Query::Read(
                ReadQuery { model: q.model, selected_fields: q.selected_fields.clone() },
            ),
            Query::Write(WriteQuery::CreateRecord(q)) => Query::Write(
                WriteQuery::CreateRecord(
                    CreateRecord { model: q.model, returned_fields: q.returned_fields.clone() },
                ),
            ),
            Query::Write(WriteQuery::UpdateRecord(q)) => Query::Write(
                WriteQuery::UpdateRecord(
                    UpdateRecord { model: q.model, returned_fields: q.returned_fields.clone() },
                ),
            ),
            Query::Write(WriteQuery::DeleteRecord(q)) => Query::Write(
                WriteQuery::DeleteRecord(
                    DeleteRecord { model: q.model, returned_fields: q.returned_fields.clone() },
                ),
            ),
        }
    }
}

} // verus!
