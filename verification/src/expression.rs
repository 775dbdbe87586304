//! The expression tree that a query graph is lowered to.

use crate::projection::{FieldId, ModelProjection};
use crate::query::{Query, QueryView};
use vstd::prelude::*;

verus! {

/// Identifier of a node of a query graph. Bindings are named by it.
pub type NodeId = usize;

/// A change that is applied to a query, when the tree is evaluated, with the
/// result that the named parent node produced.
#[derive(Debug)]
pub enum QueryTransformer {
    /// Narrow the query to the records that the parent's fields select.
    InjectFilter(ModelProjection, NodeId),
    /// Hand the parent's fields to the query as data.
    InjectData(ModelProjection, NodeId),
}

pub enum TransformerView {
    InjectFilter(Set<FieldId>, NodeId),
    InjectData(Set<FieldId>, NodeId),
}

impl TransformerView {
    /// The node whose result the transformer reads.
    pub open spec fn parent(self) -> NodeId {
        match self {
            TransformerView::InjectFilter(_, n) => n,
            TransformerView::InjectData(_, n) => n,
        }
    }
}

impl View for QueryTransformer {
    type V = TransformerView;

    open spec fn view(&self) -> TransformerView {
        match self {
            QueryTransformer::InjectFilter(p, n) => TransformerView::InjectFilter(p@, *n),
            QueryTransformer::InjectData(p, n) => TransformerView::InjectData(p@, *n),
        }
    }
}

/// A value that is known when the tree is built.
#[derive(Debug)]
pub enum Data {
    Query(Query),
}

/// A call that the evaluator performs.
#[derive(Debug)]
pub enum FnInvocation {
    /// Apply the transformers, in order, to the query.
    TransformQuery(Query, Vec<QueryTransformer>),
}

/// One named value: `expr` is evaluated once and is visible under `name`.
#[derive(Debug)]
pub struct Binding {
    pub name: NodeId,
    pub expr: Expression,
}

#[derive(Debug)]
pub enum Expression {
    /// Evaluate the bindings in order, then `inner` with them in scope.
    Let { bindings: Vec<Binding>, inner: Box<Expression> },
    Data(Data),
    Invoke(FnInvocation),
}

pub struct BindingView {
    pub name: NodeId,
    pub expr: ExpressionView,
}

pub enum ExpressionView {
    Let { bindings: Seq<BindingView>, inner: Box<ExpressionView> },
    Data(QueryView),
    Invoke(QueryView, Seq<TransformerView>),
}

impl Expression {
    /// The tree as contracts see it.
    pub open spec fn model(&self) -> ExpressionView
        decreases self,
    {
        match self {
            Expression::Let { bindings, inner } => ExpressionView::Let {
                bindings: Seq::new(
                    bindings.len() as nat,
                    |i: int|
                        if 0 <= i < bindings.len() {
                            BindingView { name: bindings[i].name, expr: bindings[i].expr.model() }
                        } else {
                            arbitrary()
                        },
                ),
                inner: Box::new(inner.model()),
            },
            Expression::Data(Data::Query(q)) => ExpressionView::Data(q@),
            Expression::Invoke(FnInvocation::TransformQuery(q, ts)) => ExpressionView::Invoke(
                q@,
                ts@.map_values(|t: QueryTransformer| t@),
            ),
        }
    }
}

impl View for Expression {
    type V = ExpressionView;

    open spec fn view(&self) -> ExpressionView {
        self.model()
    }
}

impl View for Binding {
    type V = BindingView;

    open spec fn view(&self) -> BindingView {
        BindingView { name: self.name, expr: self.expr@ }
    }
}

} // verus!
