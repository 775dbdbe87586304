use engine_core::error::InterpreterError;
use engine_core::expression::{Binding, Data, Expression, FnInvocation, QueryTransformer};
use engine_core::expressionista::Expressionista;
use engine_core::projection::ModelProjection;
use engine_core::query::{DeleteRecord, Query, QueryKind, UpdateRecord, WriteQuery};
use engine_core::query_graph::{EdgeRef, Node, NodeRef, QueryDependency, QueryGraph};

fn fields(ids: &[u64]) -> ModelProjection {
    ModelProjection::new(ids.to_vec())
}

fn create(model: u64, returned: &[u64]) -> Query {
    Query::create_record(model, fields(returned))
}

fn filter(ids: &[u64]) -> Option<QueryDependency> {
    Some(QueryDependency::InjectFilter(fields(ids)))
}

fn data(ids: &[u64]) -> Option<QueryDependency> {
    Some(QueryDependency::InjectData(fields(ids)))
}

fn sorted(p: &ModelProjection) -> Vec<u64> {
    let mut out = p.fields();
    out.sort();
    out
}

/// The query of a plain data leaf.
fn leaf(expr: &Expression) -> &Query {
    match expr {
        Expression::Data(Data::Query(q)) => q,
        other => panic!("no data leaf: {:?}", other),
    }
}

/// The query and the transformers of a deferred transformation.
fn invocation(expr: &Expression) -> (&Query, &Vec<QueryTransformer>) {
    match expr {
        Expression::Invoke(FnInvocation::TransformQuery(q, ts)) => (q, ts),
        other => panic!("no invocation: {:?}", other),
    }
}

/// The one binding of a let, and its body.
fn single_let(expr: &Expression) -> (&Binding, &Expression) {
    match expr {
        Expression::Let { bindings, inner } => {
            assert_eq!(bindings.len(), 1);
            (&bindings[0], inner)
        }
        other => panic!("no let: {:?}", other),
    }
}

fn assert_filter(t: &QueryTransformer, ids: &[u64], parent: usize) {
    match t {
        QueryTransformer::InjectFilter(p, n) => {
            assert_eq!(sorted(p), ids.to_vec());
            assert_eq!(*n, parent);
        }
        other => panic!("no filter: {:?}", other),
    }
}

fn assert_data(t: &QueryTransformer, ids: &[u64], parent: usize) {
    match t {
        QueryTransformer::InjectData(p, n) => {
            assert_eq!(sorted(p), ids.to_vec());
            assert_eq!(*n, parent);
        }
        other => panic!("no data: {:?}", other),
    }
}

/// Checks that `expr` reads `wanted` of `model`, found by `by` of `parent`.
fn assert_reload(expr: &Expression, model: u64, wanted: &[u64], by: &[u64], parent: usize) {
    let (query, transformers) = invocation(expr);
    assert_eq!(query.kind(), QueryKind::Read);
    assert_eq!(query.model(), model);
    assert_eq!(sorted(query.returned_fields()), wanted.to_vec());
    assert_eq!(transformers.len(), 1);
    assert_filter(&transformers[0], by, parent);
}

#[test]
fn single_node_translates_to_its_query_alone() {
    let mut graph = QueryGraph::new();
    let root = graph.create_node(Node::Query(create(7, &[1, 2])));
    assert_eq!(root, NodeRef { node_ix: 0 });
    let expr = Expressionista::translate(graph).unwrap();
    let query = leaf(&expr);
    assert_eq!(query.kind(), QueryKind::CreateRecord);
    assert_eq!(query.model(), 7);
    assert_eq!(sorted(query.returned_fields()), vec![1, 2]);
}

#[test]
fn write_that_returns_the_expected_fields_is_not_reloaded() {
    let mut graph = QueryGraph::new();
    let parent = graph.create_node(Node::Query(create(1, &[10, 11])));
    let child = graph.create_node(Node::Query(create(2, &[20])));
    graph.create_edge(&parent, &child, filter(&[10]));
    let expr = Expressionista::translate(graph).unwrap();
    let (binding, inner) = single_let(&expr);
    assert_eq!(binding.name, 0);
    assert_eq!(leaf(&binding.expr).model(), 1);
    let (query, transformers) = invocation(inner);
    assert_eq!(query.model(), 2);
    assert_eq!(query.kind(), QueryKind::CreateRecord);
    assert_eq!(transformers.len(), 1);
    assert_filter(&transformers[0], &[10], 0);
}

#[test]
fn write_that_lacks_fields_is_reloaded_before_its_child() {
    let mut graph = QueryGraph::new();
    let parent = graph.create_node(Node::Query(create(1, &[10])));
    let child = graph.create_node(Node::Query(create(2, &[20])));
    graph.create_edge(&parent, &child, data(&[10, 12]));
    let expr = Expressionista::translate(graph).unwrap();
    let (write, reload_level) = single_let(&expr);
    assert_eq!(write.name, 0);
    assert_eq!(leaf(&write.expr).kind(), QueryKind::CreateRecord);
    assert_eq!(leaf(&write.expr).model(), 1);
    let (reload, child_level) = single_let(reload_level);
    assert_eq!(reload.name, 0);
    assert_reload(&reload.expr, 1, &[10, 12], &[10], 0);
    let (query, transformers) = invocation(child_level);
    assert_eq!(query.model(), 2);
    assert_eq!(transformers.len(), 1);
    assert_data(&transformers[0], &[10, 12], 0);
}

#[test]
fn reload_without_dependents_is_the_body() {
    let query = create(3, &[1]);
    let base = Expressionista::query_transform_expression(query.clone(), vec![]);
    let expr = Expressionista::reload_records_conditionally(
        5,
        &query,
        base,
        None,
        Some(fields(&[1, 2])),
    );
    let (binding, inner) = single_let(&expr);
    assert_eq!(binding.name, 5);
    assert_eq!(leaf(&binding.expr).model(), 3);
    assert_reload(inner, 3, &[1, 2], &[1], 5);
}

#[test]
fn no_projection_and_no_dependents_leaves_the_query_alone() {
    let query = create(3, &[1]);
    let base = Expressionista::query_transform_expression(query.clone(), vec![]);
    let expr = Expressionista::reload_records_conditionally(5, &query, base, None, None);
    assert_eq!(leaf(&expr).model(), 3);
    let base = Expressionista::query_transform_expression(query.clone(), vec![]);
    let expr =
        Expressionista::reload_records_conditionally(5, &query, base, None, Some(fields(&[1])));
    assert_eq!(leaf(&expr).model(), 3);
}

#[test]
fn dependents_without_projection_are_bound_once() {
    let query = create(3, &[1]);
    let base = Expressionista::query_transform_expression(query.clone(), vec![]);
    let child = Expressionista::query_transform_expression(create(4, &[]), vec![]);
    let expr = Expressionista::reload_records_conditionally(5, &query, base, Some(child), None);
    let (binding, inner) = single_let(&expr);
    assert_eq!(binding.name, 5);
    assert_eq!(leaf(&binding.expr).model(), 3);
    assert_eq!(leaf(inner).model(), 4);
}

#[test]
fn derived_reload_reads_the_projection_by_what_the_query_returned() {
    let query = create(9, &[1, 2]);
    let expr = Expressionista::derive_reload_query_expression(&query, 4, fields(&[3, 1]));
    assert_reload(&expr, 9, &[1, 3], &[1, 2], 4);
}

#[test]
fn query_with_transformers_is_invoked() {
    let ts = vec![QueryTransformer::InjectData(fields(&[1]), 0)];
    let expr = Expressionista::query_transform_expression(create(2, &[]), ts);
    let (query, transformers) = invocation(&expr);
    assert_eq!(query.model(), 2);
    assert_eq!(transformers.len(), 1);
    assert_data(&transformers[0], &[1], 0);
}

#[test]
fn transformers_follow_the_incoming_edges_and_skip_bare_ones() {
    let mut graph = QueryGraph::new();
    let a = graph.create_node(Node::Query(create(1, &[1])));
    let b = graph.create_node(Node::Query(create(2, &[2])));
    let c = graph.create_node(Node::Query(create(3, &[3])));
    let e0 = graph.create_edge(&a, &c, data(&[1]));
    let e1 = graph.create_edge(&a, &b, None);
    let e2 = graph.create_edge(&b, &c, None);
    let e3 = graph.create_edge(&b, &c, filter(&[2, 5]));
    assert_eq!(graph.incoming_edges(&c), vec![e0, e2, e3]);
    assert_eq!(graph.incoming_edges(&b), vec![e1]);
    assert_eq!(graph.outgoing_edges(&a), vec![e0, e1]);
    let ts = Expressionista::collect_query_transformers(&graph, &graph.incoming_edges(&c));
    assert_eq!(ts.len(), 2);
    assert_data(&ts[0], &[1], 0);
    assert_filter(&ts[1], &[2, 5], 1);
    let ts = Expressionista::collect_query_transformers(&graph, &[e3, e0]);
    assert_eq!(ts.len(), 2);
    assert_filter(&ts[0], &[2, 5], 1);
    assert_data(&ts[1], &[1], 0);
    assert!(Expressionista::collect_query_transformers(&graph, &[e1]).is_empty());
}

#[test]
fn expected_projection_is_the_union_whatever_the_order() {
    let mut graph = QueryGraph::new();
    let a = graph.create_node(Node::Query(create(1, &[1])));
    let b = graph.create_node(Node::Query(create(2, &[2])));
    let c = graph.create_node(Node::Query(create(3, &[3])));
    let e0 = graph.create_edge(&a, &b, filter(&[4, 1]));
    let e1 = graph.create_edge(&a, &c, None);
    let e2 = graph.create_edge(&a, &c, data(&[1, 9]));
    let orders: Vec<Vec<EdgeRef>> = vec![
        vec![e0, e1, e2],
        vec![e0, e2, e1],
        vec![e1, e0, e2],
        vec![e1, e2, e0],
        vec![e2, e0, e1],
        vec![e2, e1, e0],
    ];
    for order in orders.iter() {
        let p = Expressionista::collect_expected_projection(&graph, order).unwrap();
        assert_eq!(sorted(&p), vec![1, 4, 9]);
        assert_eq!(p.len(), 3);
    }
    let first = Expressionista::collect_expected_projection(&graph, &orders[0]).unwrap();
    let last = Expressionista::collect_expected_projection(&graph, &orders[5]).unwrap();
    assert!(first.same_fields(&last));
}

#[test]
fn no_outgoing_edges_expect_nothing() {
    let mut graph = QueryGraph::new();
    let a = graph.create_node(Node::Query(create(1, &[1])));
    assert!(Expressionista::collect_expected_projection(&graph, &[]).is_none());
    assert!(graph.outgoing_edges(&a).is_empty());
}

#[test]
fn edges_without_dependency_expect_the_empty_projection() {
    let mut graph = QueryGraph::new();
    let a = graph.create_node(Node::Query(create(1, &[1])));
    let b = graph.create_node(Node::Query(create(2, &[2])));
    let e = graph.create_edge(&a, &b, None);
    let p = Expressionista::collect_expected_projection(&graph, &[e]).unwrap();
    assert_eq!(p.len(), 0);
    let expr = Expressionista::translate(graph).unwrap();
    let (binding, inner) = single_let(&expr);
    assert_eq!(binding.name, 0);
    assert_eq!(leaf(inner).model(), 2);
}

#[test]
fn several_dependents_are_chained_in_walk_order() {
    let mut graph = QueryGraph::new();
    let root = graph.create_node(Node::Query(create(1, &[1])));
    let x = graph.create_node(Node::Query(create(2, &[])));
    let y = graph.create_node(Node::Query(create(3, &[])));
    let z = graph.create_node(Node::Query(create(4, &[])));
    graph.create_edge(&root, &y, None);
    graph.create_edge(&root, &x, filter(&[1]));
    graph.create_edge(&x, &z, None);
    assert_eq!(graph.walk_order(), Ok(vec![root, x, y, z]));
    let expr = Expressionista::translate(graph).unwrap();
    let (first, inner) = single_let(&expr);
    assert_eq!(first.name, 0);
    assert_eq!(leaf(&first.expr).model(), 1);
    let (second, inner) = single_let(inner);
    assert_eq!(second.name, 1);
    let (query, transformers) = invocation(&second.expr);
    assert_eq!(query.model(), 2);
    assert_eq!(transformers.len(), 1);
    assert_filter(&transformers[0], &[1], 0);
    let (third, inner) = single_let(inner);
    assert_eq!(third.name, 2);
    assert_eq!(leaf(&third.expr).model(), 3);
    assert_eq!(leaf(inner).model(), 4);
}

#[test]
fn walk_order_puts_a_node_behind_all_its_sources() {
    let mut graph = QueryGraph::new();
    let a = graph.create_node(Node::Query(create(1, &[])));
    let b = graph.create_node(Node::Query(create(2, &[])));
    let c = graph.create_node(Node::Query(create(3, &[])));
    let d = graph.create_node(Node::Query(create(4, &[])));
    graph.create_edge(&a, &b, None);
    graph.create_edge(&d, &b, None);
    graph.create_edge(&a, &c, None);
    graph.create_edge(&c, &d, None);
    assert_eq!(graph.ready_nodes(&vec![]), vec![a]);
    assert_eq!(graph.ready_nodes(&vec![a]), vec![c]);
    assert_eq!(graph.ready_nodes(&vec![a, c, d]), vec![b]);
    assert!(graph.is_ready(&vec![a], &c));
    assert!(!graph.is_ready(&vec![a], &b));
    assert!(!graph.is_ready(&vec![a], &a));
    assert_eq!(graph.unwalked_nodes(&vec![a, c]), vec![b, d]);
    assert_eq!(graph.walk_order(), Ok(vec![a, c, d, b]));
}

#[test]
fn dangling_edge_fails_with_the_first_such_edge() {
    let mut graph = QueryGraph::new();
    let a = graph.create_node(Node::Query(create(1, &[])));
    let b = graph.create_node(Node::Query(create(2, &[])));
    graph.create_edge(&a, &b, None);
    graph.create_edge(&a, &NodeRef { node_ix: 5 }, None);
    graph.create_edge(&NodeRef { node_ix: 9 }, &b, None);
    assert_eq!(graph.dangling_edges(), vec![EdgeRef { edge_ix: 1 }, EdgeRef { edge_ix: 2 }]);
    assert_eq!(Expressionista::translate(graph).unwrap_err(), InterpreterError::DanglingEdge(1));
}

#[test]
fn graph_without_a_single_root_fails() {
    assert_eq!(
        Expressionista::translate(QueryGraph::new()).unwrap_err(),
        InterpreterError::MissingRoot
    );
    let mut two_roots = QueryGraph::new();
    two_roots.create_node(Node::Query(create(1, &[])));
    two_roots.create_node(Node::Query(create(2, &[])));
    assert_eq!(two_roots.root_node(), None);
    assert_eq!(Expressionista::translate(two_roots).unwrap_err(), InterpreterError::MissingRoot);
    let mut cycle = QueryGraph::new();
    let a = cycle.create_node(Node::Query(create(1, &[])));
    let b = cycle.create_node(Node::Query(create(2, &[])));
    cycle.create_edge(&a, &b, None);
    cycle.create_edge(&b, &a, None);
    assert_eq!(Expressionista::translate(cycle).unwrap_err(), InterpreterError::MissingRoot);
}

#[test]
fn node_with_two_sources_is_translated_once_behind_both() {
    let mut graph = QueryGraph::new();
    let a = graph.create_node(Node::Query(create(1, &[1])));
    let b = graph.create_node(Node::Query(create(2, &[2])));
    let c = graph.create_node(Node::Query(create(3, &[])));
    graph.create_edge(&a, &b, None);
    graph.create_edge(&a, &c, data(&[1]));
    graph.create_edge(&b, &c, filter(&[2]));
    assert_eq!(graph.root_node(), Some(a));
    assert_eq!(graph.walk_order(), Ok(vec![a, b, c]));
    let expr = Expressionista::translate(graph).unwrap();
    let (first, inner) = single_let(&expr);
    assert_eq!(first.name, 0);
    assert_eq!(leaf(&first.expr).model(), 1);
    let (second, inner) = single_let(inner);
    assert_eq!(second.name, 1);
    assert_eq!(leaf(&second.expr).model(), 2);
    let (query, transformers) = invocation(inner);
    assert_eq!(query.model(), 3);
    assert_eq!(transformers.len(), 2);
    assert_data(&transformers[0], &[1], 0);
    assert_filter(&transformers[1], &[2], 1);
}

#[test]
fn two_edges_between_the_same_nodes_give_two_transformers() {
    let mut graph = QueryGraph::new();
    let a = graph.create_node(Node::Query(create(1, &[1, 2])));
    let b = graph.create_node(Node::Query(create(2, &[])));
    graph.create_edge(&a, &b, filter(&[1]));
    graph.create_edge(&a, &b, data(&[2]));
    let expr = Expressionista::translate(graph).unwrap();
    let (first, inner) = single_let(&expr);
    assert_eq!(first.name, 0);
    assert_eq!(leaf(&first.expr).model(), 1);
    let (query, transformers) = invocation(inner);
    assert_eq!(query.model(), 2);
    assert_eq!(transformers.len(), 2);
    assert_filter(&transformers[0], &[1], 0);
    assert_data(&transformers[1], &[2], 0);
}

#[test]
fn cycle_below_the_root_fails() {
    let mut graph = QueryGraph::new();
    let a = graph.create_node(Node::Query(create(1, &[])));
    let b = graph.create_node(Node::Query(create(2, &[])));
    let c = graph.create_node(Node::Query(create(3, &[])));
    graph.create_edge(&a, &b, None);
    graph.create_edge(&b, &c, None);
    graph.create_edge(&c, &b, None);
    assert_eq!(graph.walk_order(), Err(InterpreterError::UnreachableNode(1)));
    assert_eq!(Expressionista::translate(graph).unwrap_err(), InterpreterError::UnreachableNode(1));
}

#[test]
fn node_behind_a_cycle_fails() {
    let mut graph = QueryGraph::new();
    let root = graph.create_node(Node::Query(create(1, &[1])));
    let below = graph.create_node(Node::Query(create(2, &[])));
    let aside = graph.create_node(Node::Query(create(3, &[3])));
    let beside = graph.create_node(Node::Query(create(4, &[])));
    graph.create_edge(&root, &below, None);
    graph.create_edge(&aside, &beside, None);
    graph.create_edge(&beside, &aside, None);
    graph.create_edge(&aside, &below, filter(&[3]));
    assert_eq!(graph.root_node(), Some(root));
    assert_eq!(Expressionista::translate(graph).unwrap_err(), InterpreterError::UnreachableNode(1));
}

#[test]
fn content_can_be_taken_once() {
    let mut graph = QueryGraph::new();
    let a = graph.create_node(Node::Query(create(1, &[])));
    assert!(graph.node_content(&a).is_some());
    assert!(graph.pluck_node(&a).is_ok());
    assert!(graph.node_content(&a).is_none());
    assert_eq!(graph.pluck_node(&a).unwrap_err(), InterpreterError::NodeConsumed(0));
    assert_eq!(graph.node_count(), 1);
    assert_eq!(Expressionista::translate(graph).unwrap_err(), InterpreterError::NodeConsumed(0));
}

#[test]
fn queries_without_a_rule_fail_loudly() {
    let mut read = QueryGraph::new();
    read.create_node(Node::Query(Query::read(1, fields(&[1]))));
    assert_eq!(Expressionista::translate(read).unwrap_err(), InterpreterError::NotYetSupported(0));
    let mut update = QueryGraph::new();
    let root = update.create_node(Node::Query(create(1, &[])));
    let child = update.create_node(Node::Query(Query::Write(WriteQuery::UpdateRecord(
        UpdateRecord { model: 1, returned_fields: fields(&[]) },
    ))));
    update.create_edge(&root, &child, None);
    assert_eq!(
        Expressionista::translate(update).unwrap_err(),
        InterpreterError::NotYetSupported(1)
    );
    let mut delete = QueryGraph::new();
    delete.create_node(Node::Query(Query::Write(WriteQuery::DeleteRecord(DeleteRecord {
        model: 1,
        returned_fields: fields(&[]),
    }))));
    assert_eq!(
        Expressionista::translate(delete).unwrap_err(),
        InterpreterError::NotYetSupported(0)
    );
}

#[test]
fn markers_without_a_rule_fail_loudly() {
    for marker in [Node::Flow, Node::Computation, Node::Empty] {
        let mut graph = QueryGraph::new();
        graph.create_node(marker);
        assert_eq!(
            Expressionista::translate(graph).unwrap_err(),
            InterpreterError::NotYetSupported(0)
        );
    }
}

#[test]
fn edges_keep_their_ends_and_content() {
    let mut graph = QueryGraph::new();
    let a = graph.create_node(Node::Query(create(1, &[])));
    let b = graph.create_node(Node::Empty);
    let e = graph.create_edge(&a, &b, filter(&[3]));
    let bare = graph.create_edge(&b, &a, None);
    assert_eq!(graph.edge_count(), 2);
    assert_eq!(graph.edge_source(&e), a);
    assert_eq!(graph.edge_target(&e), b);
    assert_eq!(a.id(), 0);
    assert_eq!(b.id(), 1);
    match graph.edge_content(&e) {
        Some(dep) => assert_eq!(sorted(dep.projection()), vec![3]),
        None => panic!("no content"),
    }
    assert!(graph.edge_content(&bare).is_none());
}

#[test]
fn projection_holds_each_field_once() {
    let p = ModelProjection::new(vec![3, 1, 3, 2, 1]);
    assert_eq!(sorted(&p), vec![1, 2, 3]);
    assert_eq!(p.fields().len(), 3);
    assert_eq!(p.len(), 3);
    assert!(p.contains(2));
    assert!(!p.contains(4));
    let q = p.clone().insert(2).insert(7);
    assert_eq!(sorted(&q), vec![1, 2, 3, 7]);
    assert!(q.covers(&p));
    assert!(!p.covers(&q));
    assert!(p.covers(&ModelProjection::empty()));
    assert!(p.same_fields(&fields(&[1, 2, 3])));
    assert!(!p.same_fields(&q));
}

#[test]
fn union_of_projections_holds_every_field() {
    let u = ModelProjection::union(vec![fields(&[1, 2]), fields(&[]), fields(&[2, 5])]);
    assert_eq!(sorted(&u), vec![1, 2, 5]);
    assert_eq!(ModelProjection::union(vec![]).len(), 0);
    let m = fields(&[9]).merge(&fields(&[9, 8]));
    assert_eq!(sorted(&m), vec![8, 9]);
}

#[test]
fn query_returns_what_it_declares() {
    let q = create(1, &[1, 2]);
    assert!(q.returns_fields(&fields(&[2])));
    assert!(q.returns_fields(&fields(&[])));
    assert!(!q.returns_fields(&fields(&[2, 3])));
    let r = Query::read(4, fields(&[7]));
    assert_eq!(r.kind(), QueryKind::Read);
    assert_eq!(r.model(), 4);
    assert!(r.returns_fields(&fields(&[7])));
}
