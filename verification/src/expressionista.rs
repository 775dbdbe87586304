//! Lowering of a query graph into an expression tree.

use crate::error::{InterpretationResult, InterpreterError};
use crate::expression::{
    Binding, BindingView, Data, Expression, ExpressionView, FnInvocation, NodeId,
    QueryTransformer, TransformerView,
};
use crate::projection::{FieldId, ModelProjection};
use crate::query::{Query, QueryKind, QueryView};
use crate::query_graph::{
    DependencyView, EdgeRef, EdgeView, GraphView, Node, NodeRef, NodeView, QueryDependency,
    QueryGraph,
};
use vstd::prelude::*;

verus! {

/// The expression that runs `query` once `transformers` have been applied: the
/// query itself where there is nothing to apply, a deferred transformation
/// otherwise.
pub open spec fn base_expression(
    query: QueryView,
    transformers: Seq<TransformerView>,
) -> ExpressionView {
    if transformers.len() == 0 {
        ExpressionView::Data(query)
    } else {
        ExpressionView::Invoke(query, transformers)
    }
}

/// Whether the result of `query` lacks a field that `expected` asks for.
pub open spec fn reload_needed(query: QueryView, expected: Option<Set<FieldId>>) -> bool {
    expected matches Some(p) && !p.subset_of(query.returned)
}

/// The read that fetches `projection` for the records that `query` produced
/// under the binding `node_id`: a read on the same model, narrowed by the
/// fields that `query` returned.
pub open spec fn reload_expression(
    query: QueryView,
    node_id: NodeId,
    projection: Set<FieldId>,
) -> ExpressionView {
    base_expression(
        QueryView { kind: QueryKind::Read, model: query.model, returned: projection },
        seq![TransformerView::InjectFilter(query.returned, node_id)],
    )
}

/// A let with the single binding `name := expr` around `inner`.
pub open spec fn bind(name: NodeId, expr: ExpressionView, inner: ExpressionView) -> ExpressionView {
    ExpressionView::Let { bindings: seq![BindingView { name, expr }], inner: Box::new(inner) }
}

/// The expression of one node, given the expression `query_expr` of its own
/// query, the expression `child` of the nodes that are walked after it, and the
/// fields `expected` that they need from its result.
///
/// Where a reload is needed, the node's result is bound under its id, and the
/// reload is bound under the same id inside it (or is itself the body, where
/// nothing depends on the node). Otherwise the node's result is bound around
/// what follows, or stands alone.
pub open spec fn with_reload(
    node_id: NodeId,
    query: QueryView,
    query_expr: ExpressionView,
    child: Option<ExpressionView>,
    expected: Option<Set<FieldId>>,
) -> ExpressionView {
    if reload_needed(query, expected) {
        let reload = reload_expression(query, node_id, expected->0);
        match child {
            Some(ce) => bind(node_id, query_expr, bind(node_id, reload, ce)),
            None => bind(node_id, query_expr, reload),
        }
    } else {
        match child {
            Some(ce) => bind(node_id, query_expr, ce),
            None => query_expr,
        }
    }
}

/// The transformer that an edge contributes to the query of its target: the
/// injection that the edge carries, named after the edge's source. An edge
/// without a dependency contributes none.
pub open spec fn edge_transformer(graph: GraphView) -> spec_fn(EdgeRef) -> Option<
    TransformerView,
> {
    edge_injection(graph.edges)
}

/// What each edge among `edges` injects into the query of its target.
pub open spec fn edge_injection(edges: Seq<EdgeView>) -> spec_fn(EdgeRef) -> Option<
    TransformerView,
> {
    |e: EdgeRef|
        match edges[e.edge_ix as int].content {
            Some(DependencyView::InjectFilter(f)) => Some(
                TransformerView::InjectFilter(f, edges[e.edge_ix as int].source),
            ),
            Some(DependencyView::InjectData(d)) => Some(
                TransformerView::InjectData(d, edges[e.edge_ix as int].source),
            ),
            None => None,
        }
}

/// The transformers of a node with the incoming edges given: one for each
/// edge that carries a dependency, in the order of the edges.
pub open spec fn query_transformers(graph: GraphView, incoming: Seq<EdgeRef>) -> Seq<
    TransformerView,
> {
    incoming.filter_map(edge_transformer(graph))
}

/// Whether `edge` carries a dependency that reads `field`.
pub open spec fn edge_requires(graph: GraphView, edge: EdgeRef, field: FieldId) -> bool {
    edge_reads(graph.edges, edge, field)
}

/// Whether the edge `edge` among `all` carries a dependency that reads
/// `field`.
pub open spec fn edge_reads(all: Seq<EdgeView>, edge: EdgeRef, field: FieldId) -> bool {
    all[edge.edge_ix as int].content matches Some(d) && d.fields().contains(field)
}

/// The fields that some edge among `edges` reads.
pub open spec fn required_fields(graph: GraphView, edges: Seq<EdgeRef>) -> Set<FieldId> {
    fields_read(graph.edges, edges)
}

/// The fields that some edge of `edges`, taken from `all`, reads.
pub open spec fn fields_read(all: Seq<EdgeView>, edges: Seq<EdgeRef>) -> Set<FieldId> {
    Set::new(
        |f: FieldId| exists|i: int| 0 <= i < edges.len() && edge_reads(all, #[trigger] edges[i], f),
    )
}

/// What the dependents of a node with the outgoing edges given need of its
/// result: nothing in particular where no edge leaves the node, otherwise the
/// fields that the dependencies on the edges read.
pub open spec fn expected_projection(graph: GraphView, outgoing: Seq<EdgeRef>) -> Option<
    Set<FieldId>,
> {
    if outgoing.len() == 0 {
        None
    } else {
        Some(required_fields(graph, outgoing))
    }
}

/// Whether the slot holds a query that creates a record.
pub open spec fn creates_record(slot: NodeView) -> bool {
    slot matches NodeView::Query(query) && query.kind == QueryKind::CreateRecord
}

/// The query that the walk finds at `node`, or why the node cannot be
/// translated: its content has been taken out, or it holds something other
/// than the creation of a record, the one query with a rule so far.
pub open spec fn node_query(graph: GraphView, node: NodeRef) -> Result<QueryView, InterpreterError> {
    match graph.nodes[node.node_ix as int] {
        NodeView::Consumed => Err(InterpreterError::NodeConsumed(node.node_ix)),
        NodeView::Query(query) => if query.kind == QueryKind::CreateRecord {
            Ok(query)
        } else {
            Err(InterpreterError::NotYetSupported(node.node_ix))
        },
        _ => Err(InterpreterError::NotYetSupported(node.node_ix)),
    }
}

/// The expression of `node`, which holds `query`, around the expression
/// `child` of the nodes that are walked after it: the query with the
/// transformers of all the edges that arrive at the node, in their order,
/// and with a reload where the edges that leave the node read a field that
/// the query does not return.
pub open spec fn node_expression(
    graph: GraphView,
    node: NodeRef,
    query: QueryView,
    child: Option<ExpressionView>,
) -> ExpressionView {
    with_reload(
        node.node_ix,
        query,
        base_expression(query, query_transformers(graph, graph.incoming(node))),
        child,
        expected_projection(graph, graph.outgoing(node)),
    )
}

/// One step of the translation: the outcome for `node` and what is walked
/// after it, given the outcome `below` for what is walked after it. A failure
/// of the node itself comes before one further on.
pub open spec fn walk_step(
    graph: GraphView,
    node: NodeRef,
    below: Result<Option<ExpressionView>, InterpreterError>,
) -> Result<Option<ExpressionView>, InterpreterError> {
    match node_query(graph, node) {
        Err(e) => Err(e),
        Ok(query) => match below {
            Err(e) => Err(e),
            Ok(child) => Ok(Some(node_expression(graph, node, query, child))),
        },
    }
}

/// The expression of the nodes of `order` from place `k` on: each node is
/// bound around those that follow it, so that the result of a node is in
/// scope wherever a later node depends on it. Behind the last node there is
/// nothing. The first node that cannot be translated fails the whole.
pub open spec fn walk_translation(graph: GraphView, order: Seq<NodeRef>, k: nat) -> Result<
    Option<ExpressionView>,
    InterpreterError,
>
    decreases order.len() - k,
{
    if k >= order.len() {
        Ok(None)
    } else {
        walk_step(graph, order[k as int], walk_translation(graph, order, k + 1))
    }
}

/// The expression that a graph compiles to, or why it has none.
///
/// A graph with a dangling edge fails on the first such edge; one without
/// exactly one root fails for want of a root; one with a cycle fails on the
/// first node that the walk cannot come to. Otherwise every node is walked
/// once, each after the sources of all the edges that arrive at it, and the
/// result is the translation of that walk.
pub open spec fn translation(graph: GraphView) -> Result<ExpressionView, InterpreterError> {
    if graph.dangling_edges().len() > 0 {
        Err(InterpreterError::DanglingEdge(graph.dangling_edges()[0].edge_ix))
    } else if graph.root() is None {
        Err(InterpreterError::MissingRoot)
    } else {
        match graph.walk_order() {
            Err(e) => Err(e),
            Ok(order) => match walk_translation(graph, order, 0) {
                Err(e) => Err(e),
                Ok(Some(expr)) => Ok(expr),
                Ok(None) => Err(InterpreterError::MissingRoot),
            },
        }
    }
}

/// The outcome of a walk as contracts see it.
pub open spec fn outcome_view(outcome: InterpretationResult<Option<Expression>>) -> Result<
    Option<ExpressionView>,
    InterpreterError,
> {
    match outcome {
        Ok(Some(expr)) => Ok(Some(expr@)),
        Ok(None) => Ok(None),
        Err(e) => Err(e),
    }
}

/// The expected projection depends only on which edges are listed: an edge
/// that is listed twice is counted once.
pub proof fn lemma_expected_projection_ignores_repetition(
    graph: GraphView,
    first: Seq<EdgeRef>,
    second: Seq<EdgeRef>,
)
    requires
        first.to_set() == second.to_set(),
    ensures
        expected_projection(graph, first) == expected_projection(graph, second),
{
    if first.len() > 0 {
        assert(first.to_set().contains(first[0]));
        assert(second.contains(first[0]));
    }
    if second.len() > 0 {
        assert(second.to_set().contains(second[0]));
        assert(first.contains(second[0]));
    }
    assert forall|f: FieldId| required_fields(graph, first).contains(f) implies required_fields(
        graph,
        second,
    ).contains(f) by {
        let i = choose|i: int| 0 <= i < first.len() && edge_requires(graph, #[trigger] first[i], f);
        assert(first.to_set().contains(first[i]));
        assert(second.contains(first[i]));
        let j = choose|j: int| 0 <= j < second.len() && second[j] == first[i];
        assert(edge_requires(graph, second[j], f));
    }
    assert forall|f: FieldId| required_fields(graph, second).contains(f) implies required_fields(
        graph,
        first,
    ).contains(f) by {
        let i = choose|i: int|
            0 <= i < second.len() && edge_requires(graph, #[trigger] second[i], f);
        assert(second.to_set().contains(second[i]));
        assert(first.contains(second[i]));
        let j = choose|j: int| 0 <= j < first.len() && first[j] == second[i];
        assert(edge_requires(graph, first[j], f));
    }
    assert(required_fields(graph, first) =~= required_fields(graph, second));
}

/// The expected projection does not depend on the order in which the
/// outgoing edges are listed.
pub proof fn lemma_expected_projection_ignores_order(
    graph: GraphView,
    first: Seq<EdgeRef>,
    second: Seq<EdgeRef>,
)
    requires
        first.to_multiset() == second.to_multiset(),
    ensures
        expected_projection(graph, first) == expected_projection(graph, second),
{
    first.to_multiset_ensures();
    second.to_multiset_ensures();
    assert forall|e: EdgeRef| first.to_set().contains(e) <==> second.to_set().contains(e) by {
        assert(first.contains(e) <==> first.to_multiset().count(e) > 0);
        assert(second.contains(e) <==> second.to_multiset().count(e) > 0);
    }
    assert(first.to_set() =~= second.to_set());
    lemma_expected_projection_ignores_repetition(graph, first, second);
}

/// Without outgoing edges nothing is expected: not even the empty projection.
pub proof fn lemma_no_edges_no_projection(graph: GraphView, outgoing: Seq<EdgeRef>)
    ensures
        expected_projection(graph, outgoing) is None <==> outgoing.len() == 0,
{
}

/// A query that returns every expected field is never reloaded: its
/// expression is bound once around what follows it, or stands alone, and the
/// body of the binding is the expression of what follows itself.
pub proof fn lemma_covered_projection_needs_no_reload(
    node_id: NodeId,
    query: QueryView,
    query_expr: ExpressionView,
    child: Option<ExpressionView>,
    expected: Option<Set<FieldId>>,
)
    requires
        expected matches Some(p) ==> p.subset_of(query.returned),
    ensures
        with_reload(node_id, query, query_expr, child, expected) == (match child {
            Some(ce) => bind(node_id, query_expr, ce),
            None => query_expr,
        }),
{
}

/// A query that lacks an expected field, with a dependent, gives three
/// levels: the query bound under the node's id, the reload bound under the
/// same id inside it, and the dependent innermost.
pub proof fn lemma_missing_projection_nests_reload(
    node_id: NodeId,
    query: QueryView,
    query_expr: ExpressionView,
    child: ExpressionView,
    expected: Set<FieldId>,
)
    requires
        !expected.subset_of(query.returned),
    ensures
        with_reload(node_id, query, query_expr, Some(child), Some(expected)) == bind(
            node_id,
            query_expr,
            bind(node_id, reload_expression(query, node_id, expected), child),
        ),
        bind(node_id, query_expr, bind(node_id, reload_expression(query, node_id, expected), child))
            == (ExpressionView::Let {
            bindings: seq![BindingView { name: node_id, expr: query_expr }],
            inner: Box::new(
                ExpressionView::Let {
                    bindings: seq![
                        BindingView {
                            name: node_id,
                            expr: reload_expression(query, node_id, expected),
                        },
                    ],
                    inner: Box::new(child),
                },
            ),
        }),
{
}

/// A graph of one node that creates a record, without edges, compiles to the
/// query of that node and nothing around it.
pub proof fn lemma_single_node_translation(graph: GraphView, query: QueryView)
    requires
        graph.nodes == seq![NodeView::Query(query)],
        graph.edges.len() == 0,
        query.kind == QueryKind::CreateRecord,
    ensures
        translation(graph) == (Ok::<ExpressionView, InterpreterError>(ExpressionView::Data(query))),
{
    reveal_with_fuel(Seq::filter, 3);
    let root = NodeRef { node_ix: 0 };
    let none = Seq::<NodeRef>::empty();
    assert(graph.edge_refs() =~= Seq::<EdgeRef>::empty());
    assert(graph.dangling_edges() =~= Seq::<EdgeRef>::empty());
    assert(graph.incoming(root) =~= Seq::<EdgeRef>::empty());
    assert(graph.outgoing(root) =~= Seq::<EdgeRef>::empty());
    assert(graph.node_refs() =~= seq![root]);
    assert(graph.node_refs().drop_last() =~= none);
    assert(graph.is_root()(root));
    assert(graph.roots() =~= seq![root]);
    assert(graph.root() == Some(root));
    assert(graph.is_ready(none)(root));
    assert(graph.ready_nodes(none) =~= seq![root]);
    assert(graph.walk_prefix(0) == Ok::<Seq<NodeRef>, InterpreterError>(none));
    assert(none.push(root) =~= seq![root]);
    assert(graph.walk_order() == Ok::<Seq<NodeRef>, InterpreterError>(seq![root]));
    assert(query_transformers(graph, graph.incoming(root)) =~= Seq::<TransformerView>::empty());
    assert(walk_translation(graph, seq![root], 1) == Ok::<
        Option<ExpressionView>,
        InterpreterError,
    >(None));
}

/// A graph of two nodes that create records, with one edge from the first
/// to the second, compiles to the expression of the first node around that
/// of the second: the second query with what the edge injects, and the first
/// with a reload where the edge reads a field that the first does not return.
pub proof fn lemma_parent_and_child_translation(
    graph: GraphView,
    parent: QueryView,
    child: QueryView,
    content: Option<DependencyView>,
)
    requires
        graph.nodes == seq![NodeView::Query(parent), NodeView::Query(child)],
        graph.edges == seq![EdgeView { source: 0, target: 1, content }],
        parent.kind == QueryKind::CreateRecord,
        child.kind == QueryKind::CreateRecord,
    ensures
        translation(graph) == (Ok::<ExpressionView, InterpreterError>(
            with_reload(
                0,
                parent,
                ExpressionView::Data(parent),
                Some(
                    base_expression(
                        child,
                        match edge_transformer(graph)(EdgeRef { edge_ix: 0 }) {
                            Some(t) => seq![t],
                            None => Seq::empty(),
                        },
                    ),
                ),
                Some(
                    match content {
                        Some(d) => d.fields(),
                        None => Set::empty(),
                    },
                ),
            ),
        )),
{
    reveal_with_fuel(Seq::filter, 4);
    let first = NodeRef { node_ix: 0 };
    let second = NodeRef { node_ix: 1 };
    let edge = EdgeRef { edge_ix: 0 };
    let empty = Seq::<EdgeRef>::empty();
    let none = Seq::<NodeRef>::empty();
    assert(graph.edge_refs() =~= seq![edge]);
    assert(graph.edge_refs().drop_last() =~= empty);
    assert(graph.dangling_edges() =~= empty);
    assert(graph.incoming(first) =~= empty);
    assert(graph.incoming(second) =~= seq![edge]);
    assert(graph.outgoing(first) =~= seq![edge]);
    assert(graph.outgoing(second) =~= empty);
    assert(graph.node_refs() =~= seq![first, second]);
    assert(graph.node_refs().drop_last() =~= seq![first]);
    assert(graph.node_refs().drop_last().drop_last() =~= none);
    assert(graph.is_root()(first));
    assert(!graph.is_root()(second));
    assert(graph.roots() =~= seq![first]);
    assert(graph.root() == Some(first));

    assert(graph.is_ready(none)(first));
    assert(!graph.is_ready(none)(second)) by {
        assert(graph.edges[0].target == second.node_ix);
    }
    assert(graph.ready_nodes(none) =~= seq![first]);
    assert(graph.walk_prefix(0) == Ok::<Seq<NodeRef>, InterpreterError>(none));
    assert(none.push(first) =~= seq![first]);
    assert(graph.walk_prefix(1) == Ok::<Seq<NodeRef>, InterpreterError>(seq![first]));
    assert(seq![first].contains(first)) by {
        assert(seq![first][0] == first);
    }
    assert(!graph.is_ready(seq![first])(first));
    assert(graph.is_ready(seq![first])(second));
    assert(graph.ready_nodes(seq![first]) =~= seq![second]);
    assert(seq![first].push(second) =~= seq![first, second]);
    let order = seq![first, second];
    assert(graph.walk_order() == Ok::<Seq<NodeRef>, InterpreterError>(order));

    let injected: Seq<TransformerView> = match edge_transformer(graph)(edge) {
        Some(t) => seq![t],
        None => Seq::empty(),
    };
    assert(seq![edge].drop_last() =~= empty);
    assert(query_transformers(graph, seq![edge]) =~= injected);
    assert(query_transformers(graph, empty) =~= Seq::<TransformerView>::empty());
    let wanted: Set<FieldId> = match content {
        Some(d) => d.fields(),
        None => Set::empty(),
    };
    assert(required_fields(graph, seq![edge]) =~= wanted) by {
        assert forall|f: FieldId| wanted.contains(f) implies required_fields(
            graph,
            seq![edge],
        ).contains(f) by {
            assert(edge_requires(graph, seq![edge][0], f));
        }
    }
    let leaf = base_expression(child, injected);
    assert(walk_translation(graph, order, 2) == Ok::<Option<ExpressionView>, InterpreterError>(
        None,
    ));
    assert(walk_translation(graph, order, 1) == Ok::<Option<ExpressionView>, InterpreterError>(
        Some(leaf),
    ));
}

/// A graph without a dangling edge and without a cycle, with one root, in
/// which every node creates a record, compiles: a node at which several
/// edges arrive is no obstacle.
pub proof fn lemma_acyclic_graph_compiles(graph: GraphView)
    requires
        graph.nodes.len() <= usize::MAX,
        graph.edges.len() <= usize::MAX,
        graph.root() is Some,
        graph.dangling_edges().len() == 0,
        graph.acyclic(),
        forall|i: int| 0 <= i < graph.nodes.len() ==> creates_record(#[trigger] graph.nodes[i]),
    ensures
        translation(graph) is Ok,
{
    graph.lemma_no_dangling_edge();
    graph.lemma_acyclic_walk_completes(graph.nodes.len());
    graph.lemma_walk_prefix_sound(graph.nodes.len());
    graph.lemma_root_is_node();
    match graph.walk_order() {
        Ok(order) => {
            lemma_walk_of_creates_translates(graph, order, 0);
        },
        Err(_) => {},
    }
}

/// A walk over nodes that all create records translates, and to an
/// expression unless it is empty.
proof fn lemma_walk_of_creates_translates(graph: GraphView, order: Seq<NodeRef>, k: nat)
    requires
        k <= order.len(),
        forall|i: int| 0 <= i < order.len() ==> graph.has_node(#[trigger] order[i]),
        forall|i: int| 0 <= i < graph.nodes.len() ==> creates_record(#[trigger] graph.nodes[i]),
    ensures
        walk_translation(graph, order, k) is Ok,
        k < order.len() ==> walk_translation(graph, order, k)->Ok_0 is Some,
    decreases order.len() - k,
{
    if k < order.len() {
        lemma_walk_of_creates_translates(graph, order, k + 1);
        assert(graph.has_node(order[k as int]));
        assert(creates_record(graph.nodes[order[k as int].node_ix as int]));
    }
}

/// The names that an expression binds along its chain of lets, outermost
/// first.
pub open spec fn bound_names(expr: ExpressionView) -> Seq<NodeId>
    decreases expr,
{
    match expr {
        ExpressionView::Let { bindings, inner } => bindings.map_values(|b: BindingView| b.name)
            + bound_names(*inner),
        _ => Seq::empty(),
    }
}

/// Whether the result of `node` is reloaded: the edges that leave it read a
/// field that its query does not return.
pub open spec fn reloads(graph: GraphView, node: NodeRef) -> bool {
    node_query(graph, node) matches Ok(query) && reload_needed(
        query,
        expected_projection(graph, graph.outgoing(node)),
    )
}

/// Whether `name` is the id of a node of `order` at place `k` or behind it.
pub open spec fn names_node_from(order: Seq<NodeRef>, k: nat, name: NodeId) -> bool {
    exists|j: int| k <= j < order.len() && (#[trigger] order[j]).node_ix == name
}

/// Whether `names` are names of the walk from place `k` on: each is the id
/// of a node walked there, and no name stands twice, but for the name of a
/// node whose result is reloaded, which stands twice in a row.
pub open spec fn names_of_walk(
    names: Seq<NodeId>,
    graph: GraphView,
    order: Seq<NodeRef>,
    k: nat,
) -> bool {
    &&& forall|i: int| 0 <= i < names.len() ==> names_node_from(order, k, #[trigger] names[i])
    &&& forall|i: int, j: int|
        0 <= i < j < names.len() && #[trigger] names[i] == #[trigger] names[j] ==> j == i + 1
            && reloads(graph, NodeRef { node_ix: names[i] })
}

/// The names that the translation of a walk binds are the ids of the nodes
/// walked, each bound once along the chain, or twice in a row where the
/// result of the node is reloaded.
pub proof fn lemma_walk_binds_node_ids(graph: GraphView, order: Seq<NodeRef>, k: nat)
    requires
        order.no_duplicates(),
        k <= order.len(),
    ensures
        walk_translation(graph, order, k) matches Ok(Some(expr)) ==> names_of_walk(
            bound_names(expr),
            graph,
            order,
            k,
        ),
    decreases order.len() - k,
{
    if k < order.len() {
        lemma_walk_binds_node_ids(graph, order, k + 1);
        let node = order[k as int];
        let id = node.node_ix;
        match (node_query(graph, node), walk_translation(graph, order, k + 1)) {
            (Ok(query), Ok(child)) => {
                let expr = node_expression(graph, node, query, child);
                let names = bound_names(expr);
                let inner_names: Seq<NodeId> = match child {
                    Some(ce) => bound_names(ce),
                    None => Seq::empty(),
                };
                let own: Seq<NodeId> = if reloads(graph, node) {
                    if child is Some {
                        seq![id, id]
                    } else {
                        seq![id]
                    }
                } else {
                    if child is Some {
                        seq![id]
                    } else {
                        Seq::empty()
                    }
                };
                let query_expr = base_expression(
                    query,
                    query_transformers(graph, graph.incoming(node)),
                );
                let expected = expected_projection(graph, graph.outgoing(node));
                assert(bound_names(query_expr) =~= Seq::<NodeId>::empty());
                assert(seq![BindingView { name: id, expr: query_expr }].map_values(
                    |b: BindingView| b.name,
                ) =~= seq![id]);
                if reloads(graph, node) {
                    let reload = reload_expression(query, id, expected->0);
                    assert(bound_names(reload) =~= Seq::<NodeId>::empty());
                    assert(seq![BindingView { name: id, expr: reload }].map_values(
                        |b: BindingView| b.name,
                    ) =~= seq![id]);
                    match child {
                        Some(ce) => {
                            assert(bound_names(bind(id, reload, ce)) =~= seq![id] + inner_names);
                        },
                        None => {},
                    }
                }
                assert(names =~= own + inner_names);
                assert(names_node_from(order, k, id)) by {
                    assert(order[k as int].node_ix == id);
                }
                assert forall|i: int| 0 <= i < names.len() implies names_node_from(
                    order,
                    k,
                    #[trigger] names[i],
                ) by {
                    if i >= own.len() {
                        assert(names[i] == inner_names[i - own.len()]);
                        assert(names_node_from(order, k + 1, inner_names[i - own.len()]));
                        let j = choose|j: int|
                            k + 1 <= j < order.len() && (#[trigger] order[j]).node_ix == names[i];
                        assert(order[j].node_ix == names[i]);
                    }
                }
                assert forall|i: int, j: int|
                    0 <= i < j < names.len() && #[trigger] names[i] == #[trigger] names[j] implies j
                    == i + 1 && reloads(graph, NodeRef { node_ix: names[i] }) by {
                    if j < own.len() {
                        assert(NodeRef { node_ix: id } == node);
                    } else if i < own.len() {
                        assert(names[j] == inner_names[j - own.len()]);
                        assert(names_node_from(order, k + 1, inner_names[j - own.len()]));
                        let p = choose|p: int|
                            k + 1 <= p < order.len() && (#[trigger] order[p]).node_ix == names[j];
                        assert(order[p] == order[k as int]);
                        assert(false);
                    } else {
                        assert(names[i] == inner_names[i - own.len()]);
                        assert(names[j] == inner_names[j - own.len()]);
                    }
                }
            },
            _ => {},
        }
    }
}

/// The names that the translation of a graph binds are ids of its nodes, and
/// no name is bound twice along the chain, but for a reload, which follows
/// the binding that it reloads under the same name.
pub proof fn lemma_translation_binds_node_ids(graph: GraphView)
    requires
        graph.nodes.len() <= usize::MAX,
    ensures
        translation(graph) matches Ok(expr) ==> {
            &&& forall|i: int|
                0 <= i < bound_names(expr).len() ==> (#[trigger] bound_names(expr)[i])
                    < graph.nodes.len()
            &&& forall|i: int, j: int|
                0 <= i < j < bound_names(expr).len() && #[trigger] bound_names(expr)[i]
                    == #[trigger] bound_names(expr)[j] ==> j == i + 1 && reloads(
                    graph,
                    NodeRef { node_ix: bound_names(expr)[i] },
                )
        },
{
    match (translation(graph), graph.walk_order()) {
        (Ok(expr), Ok(order)) => {
            graph.lemma_walk_prefix_sound(graph.nodes.len());
            lemma_walk_binds_node_ids(graph, order, 0);
            let names = bound_names(expr);
            assert forall|i: int| 0 <= i < names.len() implies (#[trigger] names[i])
                < graph.nodes.len() by {
                assert(names_node_from(order, 0, names[i]));
                let j = choose|j: int|
                    0 <= j < order.len() && (#[trigger] order[j]).node_ix == names[i];
                assert(graph.has_node(order[j]));
            }
        },
        _ => {},
    }
}

/// The names of the first `k` of `bindings`.
pub open spec fn names_before(bindings: Seq<BindingView>, k: int) -> Set<NodeId> {
    bindings.take(k).map_values(|b: BindingView| b.name).to_set()
}

/// Whether `expr` can be evaluated with the names of `scope` bound: every
/// transformer reads the result of a node whose name is in scope where the
/// transformer stands. A binding of a let sees the bindings before it, the
/// body of the let sees them all.
pub open spec fn well_scoped(expr: ExpressionView, scope: Set<NodeId>) -> bool
    decreases expr,
{
    match expr {
        ExpressionView::Data(_) => true,
        ExpressionView::Invoke(_, transformers) => forall|i: int|
            0 <= i < transformers.len() ==> scope.contains((#[trigger] transformers[i]).parent()),
        ExpressionView::Let { bindings, inner } => {
            &&& forall|i: int|
                0 <= i < bindings.len() ==> well_scoped(
                    (#[trigger] bindings[i]).expr,
                    scope.union(names_before(bindings, i)),
                )
            &&& well_scoped(*inner, scope.union(names_before(bindings, bindings.len() as int)))
        },
    }
}

/// The ids of the nodes that stand before place `k` in `order`.
pub open spec fn walked_ids(order: Seq<NodeRef>, k: nat) -> Set<NodeId> {
    Set::new(|id: NodeId| exists|j: int| 0 <= j < k && (#[trigger] order[j]).node_ix == id)
}

/// A let with one binding is well scoped where the bound expression is, and
/// the body is with the name added.
proof fn lemma_bind_scoped(
    name: NodeId,
    expr: ExpressionView,
    inner: ExpressionView,
    scope: Set<NodeId>,
)
    requires
        well_scoped(expr, scope),
        well_scoped(inner, scope.insert(name)),
    ensures
        well_scoped(bind(name, expr, inner), scope),
{
    let bindings = seq![BindingView { name, expr }];
    assert(bindings.take(0).map_values(|b: BindingView| b.name) =~= Seq::<NodeId>::empty());
    assert(names_before(bindings, 0) =~= Set::<NodeId>::empty());
    assert(scope.union(names_before(bindings, 0)) =~= scope);
    assert(bindings.take(1) =~= bindings);
    assert(bindings.map_values(|b: BindingView| b.name) =~= seq![name]);
    assert(seq![name].to_set() =~= Set::<NodeId>::empty().insert(name)) by {
        assert(seq![name][0] == name);
    }
    assert(scope.union(names_before(bindings, 1)) =~= scope.insert(name));
}

/// The transformers of a node read results of nodes that the walk has come
/// to before.
proof fn lemma_transformers_in_scope(graph: GraphView, order: Seq<NodeRef>, k: nat)
    requires
        graph.edges.len() <= usize::MAX,
        graph.sources_first(order),
        k < order.len(),
    ensures
        forall|i: int|
            0 <= i < query_transformers(graph, graph.incoming(order[k as int])).len()
                ==> walked_ids(order, k).contains(
                (#[trigger] query_transformers(graph, graph.incoming(order[k as int]))[i]).parent(),
            ),
{
    let node = order[k as int];
    let incoming = graph.incoming(node);
    let transformers = query_transformers(graph, incoming);
    assert forall|i: int| 0 <= i < transformers.len() implies walked_ids(order, k).contains(
        (#[trigger] transformers[i]).parent(),
    ) by {
        let t = transformers[i];
        assert(transformers.contains(t));
        incoming.lemma_filter_map_contains(edge_injection(graph.edges), t);
        let e = choose|e: EdgeRef|
            #[trigger] incoming.contains(e) && edge_injection(graph.edges)(e) == Some(t);
        let p = choose|p: int| 0 <= p < incoming.len() && incoming[p] == e;
        graph.edge_refs().lemma_filter_pred(graph.arrives_at(node), p);
        graph.lemma_incident_edges_known(node);
        assert(graph.has_edge(incoming[p]));
        let ix = e.edge_ix as int;
        assert(graph.edges[ix].target == node.node_ix);
        assert(t.parent() == graph.edges[ix].source);
        let source = NodeRef { node_ix: graph.edges[ix].source };
        assert(order.take(k as int).contains(source));
        let j = choose|j: int| 0 <= j < order.take(k as int).len() && order.take(k as int)[j] == source;
        assert(order[j].node_ix == t.parent());
    }
}

/// The translation of a walk that puts sources first is well scoped: each
/// query is transformed with results that are bound around it.
pub proof fn lemma_walk_is_scoped(graph: GraphView, order: Seq<NodeRef>, k: nat)
    requires
        graph.edges.len() <= usize::MAX,
        graph.sources_first(order),
        k <= order.len(),
    ensures
        walk_translation(graph, order, k) matches Ok(Some(expr)) ==> well_scoped(
            expr,
            walked_ids(order, k),
        ),
    decreases order.len() - k,
{
    if k < order.len() {
        lemma_walk_is_scoped(graph, order, k + 1);
        lemma_transformers_in_scope(graph, order, k);
        let node = order[k as int];
        let id = node.node_ix;
        let scope = walked_ids(order, k);
        assert(walked_ids(order, k + 1) =~= scope.insert(id)) by {
            assert(order[k as int].node_ix == id);
        }
        match (node_query(graph, node), walk_translation(graph, order, k + 1)) {
            (Ok(query), Ok(child)) => {
                let query_expr = base_expression(
                    query,
                    query_transformers(graph, graph.incoming(node)),
                );
                let expected = expected_projection(graph, graph.outgoing(node));
                assert(well_scoped(query_expr, scope));
                if reload_needed(query, expected) {
                    let reload = reload_expression(query, id, expected->0);
                    assert(well_scoped(reload, scope.insert(id))) by {
                        let ts = seq![TransformerView::InjectFilter(query.returned, id)];
                        assert(forall|i: int| 0 <= i < ts.len() ==> (#[trigger] ts[i]).parent() == id);
                    }
                    match child {
                        Some(ce) => {
                            assert(scope.insert(id).insert(id) =~= scope.insert(id));
                            lemma_bind_scoped(id, reload, ce, scope.insert(id));
                            lemma_bind_scoped(id, query_expr, bind(id, reload, ce), scope);
                        },
                        None => {
                            lemma_bind_scoped(id, query_expr, reload, scope);
                        },
                    }
                } else {
                    match child {
                        Some(ce) => {
                            lemma_bind_scoped(id, query_expr, ce, scope);
                        },
                        None => {},
                    }
                }
            },
            _ => {},
        }
    }
}

/// The translation of a graph needs nothing bound from outside: wherever a
/// query is transformed with the result of a node, that node is bound
/// around it.
pub proof fn lemma_translation_is_scoped(graph: GraphView)
    requires
        graph.nodes.len() <= usize::MAX,
        graph.edges.len() <= usize::MAX,
    ensures
        translation(graph) matches Ok(expr) ==> well_scoped(expr, Set::empty()),
{
    match (translation(graph), graph.walk_order()) {
        (Ok(expr), Ok(order)) => {
            graph.lemma_walk_puts_sources_first(graph.nodes.len());
            lemma_walk_is_scoped(graph, order, 0);
            assert(walked_ids(order, 0) =~= Set::<NodeId>::empty());
        },
        _ => {},
    }
}

/// Compiles query graphs into expression trees.
pub struct Expressionista;

impl Expressionista {
    /// Compiles the graph: every node once, each after the nodes that it
    /// depends on, starting at the root. The content of each node is taken
    /// out of the graph as the node is translated.
    pub fn translate(graph: QueryGraph) -> (out: InterpretationResult<Expression>)
        ensures
            match out {
                Ok(expr) => translation(graph@) == Ok::<ExpressionView, InterpreterError>(expr@),
                Err(e) => translation(graph@) == Err::<ExpressionView, InterpreterError>(e),
            },
    {
        let ghost start = graph@;
        let mut graph = graph;
        let dangling = graph.dangling_edges();
        if dangling.len() > 0 {
            return Err(InterpreterError::DanglingEdge(dangling[0].edge_ix));
        }
        if graph.root_node().is_none() {
            return Err(InterpreterError::MissingRoot);
        }
        let order = match graph.walk_order() {
            Ok(order) => order,
            Err(e) => {
                return Err(e);
            },
        };
        // The nodes that depend on a node are translated before it, so that
        // their expression can stand inside its binding.
        let mut below: InterpretationResult<Option<Expression>> = Ok(None);
        let mut k: usize = order.len();
        while k > 0
            invariant
                k <= order.len(),
                order@.no_duplicates(),
                forall|i: int| 0 <= i < order@.len() ==> start.has_node(#[trigger] order@[i]),
                graph@.edges == start.edges,
                graph@.nodes.len() == start.nodes.len(),
                forall|i: int|
                    0 <= i < k ==> graph@.nodes[(#[trigger] order@[i]).node_ix as int]
                        == start.nodes[order@[i].node_ix as int],
                outcome_view(below) == walk_translation(start, order@, k as nat),
            decreases k,
        {
            k = k - 1;
            let ghost before = graph@;
            assert(before.nodes[order@[k as int].node_ix as int]
                == start.nodes[order@[k as int].node_ix as int]);
            below = Self::translate_node(&mut graph, &order[k], below);
            let ghost further = walk_translation(start, order@, (k + 1) as nat);
            assert(walk_step(before, order@[k as int], further) == walk_step(
                start,
                order@[k as int],
                further,
            ));
        }
        match below {
            Ok(Some(expr)) => Ok(expr),
            Ok(None) => Err(InterpreterError::MissingRoot),
            Err(e) => Err(e),
        }
    }

    /// Translates `node` around the outcome `below` of the nodes that are
    /// walked after it, and takes its content out of the graph.
    fn translate_node(
        graph: &mut QueryGraph,
        node: &NodeRef,
        below: InterpretationResult<Option<Expression>>,
    ) -> (out: InterpretationResult<Option<Expression>>)
        requires
            old(graph)@.has_node(*node),
        ensures
            final(graph)@ == old(graph)@.pluck(*node),
            outcome_view(out) == walk_step(old(graph)@, *node, outcome_view(below)),
    {
        let node_id = node.id();
        let outgoing_edges = graph.outgoing_edges(node);
        let incoming_edges = graph.incoming_edges(node);

        let transformers = Self::collect_query_transformers(graph, incoming_edges.as_slice());
        let expected_return_projection = Self::collect_expected_projection(
            graph,
            outgoing_edges.as_slice(),
        );
        let query = match graph.pluck_node(node) {
            Ok(Node::Query(query)) => query,
            Ok(_) => {
                return Err(InterpreterError::NotYetSupported(node_id));
            },
            Err(e) => {
                assert(graph@.nodes =~= old(graph)@.pluck(*node).nodes);
                return Err(e);
            },
        };
        let query_expr = match Self::translate_query(node_id, query.clone(), transformers) {
            Ok(expr) => expr,
            Err(e) => {
                return Err(e);
            },
        };
        match below {
            Err(e) => Err(e),
            Ok(child_expr) => Ok(
                Some(
                    Self::reload_records_conditionally(
                        node_id,
                        &query,
                        query_expr,
                        child_expr,
                        expected_return_projection,
                    ),
                ),
            ),
        }
    }

    /// The expression of the query of one node, where there is a rule for it.
    fn translate_query(node_id: NodeId, query: Query, transformers: Vec<QueryTransformer>) -> (out:
        InterpretationResult<Expression>)
        ensures
            match out {
                Ok(expr) => query@.kind == QueryKind::CreateRecord && expr@ == base_expression(
                    query@,
                    transformers@.map_values(|t: QueryTransformer| t@),
                ),
                Err(e) => query@.kind != QueryKind::CreateRecord && e
                    == InterpreterError::NotYetSupported(node_id),
            },
    {
        match query.kind() {
            QueryKind::CreateRecord => Ok(Self::translate_create_record(query, transformers)),
            _ => Err(InterpreterError::NotYetSupported(node_id)),
        }
    }

    /// The creation of a record needs nothing beyond its own query.
    fn translate_create_record(query: Query, transformers: Vec<QueryTransformer>) -> (out:
        Expression)
        ensures
            out@ == base_expression(query@, transformers@.map_values(|t: QueryTransformer| t@)),
    {
        Self::query_transform_expression(query, transformers)
    }

    /// Wraps one expression in a let with a single binding.
    fn bind_one(name: NodeId, expr: Expression, inner: Expression) -> (out: Expression)
        ensures
            out@ == bind(name, expr@, inner@),
    {
        let mut bindings: Vec<Binding> = Vec::new();
        bindings.push(Binding { name, expr });
        let out = Expression::Let { bindings, inner: Box::new(inner) };
        assert(out@->Let_bindings =~= seq![BindingView { name, expr: expr@ }]);
        out
    }

    /// Binds the node's result and, where the query does not return every
    /// expected field, a reload of the missing fields under the same name.
    pub fn reload_records_conditionally(
        node_id: NodeId,
        query: &Query,
        query_expr: Expression,
        child_expr: Option<Expression>,
        expected_return_projection: Option<ModelProjection>,
    ) -> (out: Expression)
        ensures
            out@ == with_reload(
                node_id,
                query@,
                query_expr@,
                match child_expr {
                    Some(ce) => Some(ce@),
                    None => None,
                },
                match expected_return_projection {
                    Some(p) => Some(p@),
                    None => None,
                },
            ),
    {
        match (expected_return_projection, child_expr) {
            (Some(p), Some(ce)) => {
                if !query.returns_fields(&p) {
                    let reload_query_expr = Self::derive_reload_query_expression(query, node_id, p);
                    Self::bind_one(node_id, query_expr, Self::bind_one(node_id, reload_query_expr, ce))
                } else {
                    Self::bind_one(node_id, query_expr, ce)
                }
            },
            (Some(p), None) => {
                if !query.returns_fields(&p) {
                    let reload_query_expr = Self::derive_reload_query_expression(query, node_id, p);
                    Self::bind_one(node_id, query_expr, reload_query_expr)
                } else {
                    query_expr
                }
            },
            (None, Some(ce)) => Self::bind_one(node_id, query_expr, ce),
            (None, None) => query_expr,
        }
    }

    /// The query itself where no transformer applies, the deferred
    /// transformation of the query otherwise.
    pub fn query_transform_expression(query: Query, transformers: Vec<QueryTransformer>) -> (out:
        Expression)
        ensures
            out@ == base_expression(query@, transformers@.map_values(|t: QueryTransformer| t@)),
    {
        if transformers.len() == 0 {
            Expression::Data(Data::Query(query))
        } else {
            Expression::Invoke(FnInvocation::TransformQuery(query, transformers))
        }
    }

    /// The read that fetches `projection` of the records that `query` wrote,
    /// found again by the fields that `query` returned under `parent_query_id`.
    pub fn derive_reload_query_expression(
        query: &Query,
        parent_query_id: NodeId,
        projection: ModelProjection,
    ) -> (out: Expression)
        ensures
            out@ == reload_expression(query@, parent_query_id, projection@),
    {
        let reload_query = Query::read(query.model(), projection);
        let mut transformers: Vec<QueryTransformer> = Vec::new();
        transformers.push(
            QueryTransformer::InjectFilter(query.returned_fields().clone(), parent_query_id),
        );
        assert(transformers@.map_values(|t: QueryTransformer| t@) =~= seq![
            TransformerView::InjectFilter(query@.returned, parent_query_id),
        ]);
        Self::query_transform_expression(reload_query, transformers)
    }

    /// The transformers that the incoming edges ask for, in the order of the
    /// edges. Edges without a dependency are passed over.
    pub fn collect_query_transformers(graph: &QueryGraph, incoming_edges: &[EdgeRef]) -> (out: Vec<
        QueryTransformer,
    >)
        requires
            graph@.knows_edges(incoming_edges@),
        ensures
            out@.map_values(|t: QueryTransformer| t@) == query_transformers(
                graph@,
                incoming_edges@,
            ),
    {
        let mut out: Vec<QueryTransformer> = Vec::new();
        let mut i: usize = 0;
        let ghost f = edge_transformer(graph@);
        let ghost view = |t: QueryTransformer| t@;
        assert(out@.map_values(view) =~= incoming_edges@.take(0).filter_map(f));
        while i < incoming_edges.len()
            invariant
                i <= incoming_edges.len(),
                graph@.knows_edges(incoming_edges@),
                f == edge_transformer(graph@),
                view == |t: QueryTransformer| t@,
                out@.map_values(view) == incoming_edges@.take(i as int).filter_map(f),
            decreases incoming_edges.len() - i,
        {
            let parent_edge = &incoming_edges[i];
            assert(graph@.has_edge(incoming_edges@[i as int]));
            let dep = graph.edge_content(parent_edge);
            let parent_node = graph.edge_source(parent_edge);
            let ghost before = out@;
            proof {
                incoming_edges@.lemma_filter_map_take_succ(f, i as int);
            }
            match dep {
                Some(QueryDependency::InjectFilter(p)) => {
                    let t = QueryTransformer::InjectFilter(p.clone(), parent_node.id());
                    out.push(t);
                    assert(out@.map_values(view) =~= before.map_values(view) + seq![t@]);
                },
                Some(QueryDependency::InjectData(p)) => {
                    let t = QueryTransformer::InjectData(p.clone(), parent_node.id());
                    out.push(t);
                    assert(out@.map_values(view) =~= before.map_values(view) + seq![t@]);
                },
                None => {
                    assert(before.map_values(view) + Seq::<TransformerView>::empty()
                        =~= before.map_values(view));
                },
            }
            i = i + 1;
        }
        assert(incoming_edges@.take(i as int) =~= incoming_edges@);
        out
    }

    /// The fields that the dependents of a node need of its result: `None`
    /// where no edge leaves the node, otherwise the union of what the
    /// dependencies on the outgoing edges read.
    pub fn collect_expected_projection(graph: &QueryGraph, outgoing_edges: &[EdgeRef]) -> (out:
        Option<ModelProjection>)
        requires
            graph@.knows_edges(outgoing_edges@),
        ensures
            (match out {
                Some(p) => Some(p@),
                None => None,
            }) == expected_projection(graph@, outgoing_edges@),
            out is None <==> outgoing_edges@.len() == 0,
    {
        if outgoing_edges.len() == 0 {
            return None;
        }
        let mut union = ModelProjection::empty();
        let mut i: usize = 0;
        assert(union@ =~= required_fields(graph@, outgoing_edges@.take(0)));
        while i < outgoing_edges.len()
            invariant
                i <= outgoing_edges.len(),
                graph@.knows_edges(outgoing_edges@),
                union@ == required_fields(graph@, outgoing_edges@.take(i as int)),
            decreases outgoing_edges.len() - i,
        {
            let edge = &outgoing_edges[i];
            assert(graph@.has_edge(outgoing_edges@[i as int]));
            let ghost before = union@;
            let ghost shorter = outgoing_edges@.take(i as int);
            let ghost longer = outgoing_edges@.take(i as int + 1);
            match graph.edge_content(edge) {
                Some(dep) => {
                    union = union.merge(dep.projection());
                },
                None => {},
            }
            assert(union@ =~= required_fields(graph@, longer)) by {
                assert forall|f: FieldId| union@.contains(f) implies required_fields(
                    graph@,
                    longer,
                ).contains(f) by {
                    if before.contains(f) {
                        let j = choose|j: int|
                            0 <= j < shorter.len() && edge_requires(graph@, #[trigger] shorter[j], f);
                        assert(edge_requires(graph@, longer[j], f));
                    } else {
                        assert(edge_requires(graph@, longer[i as int], f));
                    }
                }
                assert forall|f: FieldId| required_fields(graph@, longer).contains(
                    f,
                ) implies union@.contains(f) by {
                    let j = choose|j: int|
                        0 <= j < longer.len() && edge_requires(graph@, #[trigger] longer[j], f);
                    if j < i {
                        assert(edge_requires(graph@, shorter[j], f));
                    }
                }
            }
            i = i + 1;
        }
        assert(outgoing_edges@.take(i as int) =~= outgoing_edges@);
        Some(union)
    }
}

} // verus!
