//! The query graph: an arena of nodes and of dependency edges between them.

use crate::error::{InterpretationResult, InterpreterError};
use crate::expression::NodeId;
use crate::projection::{FieldId, ModelProjection};
use crate::query::{Query, QueryView};
use vstd::prelude::*;
use vstd::seq_lib::seq_to_set_is_finite;
use vstd::set_lib::lemma_len_subset;

verus! {

/// Handle of a node of a graph: its place in the arena.
#[derive(Clone, Copy, Debug, PartialEq, Eq, Structural)]
pub struct NodeRef {
    pub node_ix: usize,
}

/// Handle of an edge of a graph: its place in the arena.
#[derive(Clone, Copy, Debug, PartialEq, Eq, Structural)]
pub struct EdgeRef {
    pub edge_ix: usize,
}

impl NodeRef {
    /// The name under which the node's result is bound.
    pub fn id(&self) -> (id: NodeId)
        ensures
            id == self.node_ix,
    {
        self.node_ix
    }
}

/// What the target of an edge needs from the result of its source.
#[derive(Debug)]
pub enum QueryDependency {
    /// The fields by which the target is narrowed.
    InjectFilter(ModelProjection),
    /// The fields that the target receives as data.
    InjectData(ModelProjection),
}

pub enum DependencyView {
    InjectFilter(Set<FieldId>),
    InjectData(Set<FieldId>),
}

impl View for QueryDependency {
    type V = DependencyView;

    open spec fn view(&self) -> DependencyView {
        match self {
            QueryDependency::InjectFilter(p) => DependencyView::InjectFilter(p@),
            QueryDependency::InjectData(p) => DependencyView::InjectData(p@),
        }
    }
}

impl DependencyView {
    /// The fields of the source that the dependency reads.
    pub open spec fn fields(self) -> Set<FieldId> {
        match self {
            DependencyView::InjectFilter(p) => p,
            DependencyView::InjectData(p) => p,
        }
    }
}

impl QueryDependency {
    /// The fields of the source that the dependency reads.
    pub fn projection(&self) -> (p: &ModelProjection)
        ensures
            p@ == self@.fields(),
    {
        match self {
            QueryDependency::InjectFilter(p) => p,
            QueryDependency::InjectData(p) => p,
        }
    }
}

/// What a node holds: a query, or a marker that shapes the evaluation.
#[derive(Debug)]
pub enum Node {
    Query(Query),
    Flow,
    Computation,
    Empty,
}

/// A slot of the node arena as contracts see it. `Consumed` stands for a slot
/// whose content has been taken out.
pub enum NodeView {
    Query(QueryView),
    Flow,
    Computation,
    Empty,
    Consumed,
}

impl View for Node {
    type V = NodeView;

    open spec fn view(&self) -> NodeView {
        match self {
            Node::Query(q) => NodeView::Query(q@),
            Node::Flow => NodeView::Flow,
            Node::Computation => NodeView::Computation,
            Node::Empty => NodeView::Empty,
        }
    }
}

pub struct EdgeView {
    pub source: NodeId,
    pub target: NodeId,
    pub content: Option<DependencyView>,
}

struct Edge {
    source: usize,
    target: usize,
    content: Option<QueryDependency>,
}

/// A graph as contracts see it: the slots of both arenas, in insertion order.
pub struct GraphView {
    pub nodes: Seq<NodeView>,
    pub edges: Seq<EdgeView>,
}

/// Whether an edge among `edges` leaves `node`.
pub open spec fn leaving(edges: Seq<EdgeView>, node: NodeRef) -> spec_fn(EdgeRef) -> bool {
    |e: EdgeRef| edges[e.edge_ix as int].source == node.node_ix
}

/// Whether an edge among `edges` arrives at `node`.
pub open spec fn arriving(edges: Seq<EdgeView>, node: NodeRef) -> spec_fn(EdgeRef) -> bool {
    |e: EdgeRef| edges[e.edge_ix as int].target == node.node_ix
}

impl GraphView {
    /// Handles of all edges, in insertion order.
    pub open spec fn edge_refs(self) -> Seq<EdgeRef> {
        Seq::new(self.edges.len(), |i: int| EdgeRef { edge_ix: i as usize })
    }

    /// Handles of all nodes, in insertion order.
    pub open spec fn node_refs(self) -> Seq<NodeRef> {
        Seq::new(self.nodes.len(), |i: int| NodeRef { node_ix: i as usize })
    }

    pub open spec fn has_node(self, node: NodeRef) -> bool {
        node.node_ix < self.nodes.len()
    }

    pub open spec fn has_edge(self, edge: EdgeRef) -> bool {
        edge.edge_ix < self.edges.len()
    }

    pub open spec fn leaves(self, node: NodeRef) -> spec_fn(EdgeRef) -> bool {
        leaving(self.edges, node)
    }

    pub open spec fn arrives_at(self, node: NodeRef) -> spec_fn(EdgeRef) -> bool {
        arriving(self.edges, node)
    }

    /// The edges that leave `node`, in insertion order.
    pub open spec fn outgoing(self, node: NodeRef) -> Seq<EdgeRef> {
        self.edge_refs().filter(self.leaves(node))
    }

    /// The edges that arrive at `node`, in insertion order.
    pub open spec fn incoming(self, node: NodeRef) -> Seq<EdgeRef> {
        self.edge_refs().filter(self.arrives_at(node))
    }

    /// Whether an end of `edge` is no node of the graph.
    pub open spec fn dangles(self) -> spec_fn(EdgeRef) -> bool {
        |e: EdgeRef|
            self.edges[e.edge_ix as int].source >= self.nodes.len() || self.edges[e.edge_ix
                as int].target >= self.nodes.len()
    }

    /// The edges of which an end is no node of the graph, in insertion order.
    pub open spec fn dangling_edges(self) -> Seq<EdgeRef> {
        self.edge_refs().filter(self.dangles())
    }

    /// Whether no edge arrives at the node.
    pub open spec fn is_root(self) -> spec_fn(NodeRef) -> bool {
        |n: NodeRef| self.incoming(n).len() == 0
    }

    /// The nodes at which no edge arrives, in insertion order.
    pub open spec fn roots(self) -> Seq<NodeRef> {
        self.node_refs().filter(self.is_root())
    }

    /// The root: the one node at which no edge arrives, if there is exactly one.
    pub open spec fn root(self) -> Option<NodeRef> {
        if self.roots().len() == 1 {
            Some(self.roots()[0])
        } else {
            None
        }
    }

    /// Whether `node` can be walked next, after the nodes of `walked`: it has
    /// not been walked itself, and the source of every edge that arrives at it
    /// has been.
    pub open spec fn ready(self, walked: Seq<NodeRef>, node: NodeRef) -> bool {
        &&& !walked.contains(node)
        &&& forall|i: int|
            0 <= i < self.edges.len() && (#[trigger] self.edges[i]).target == node.node_ix
                ==> walked.contains(NodeRef { node_ix: self.edges[i].source })
    }

    pub open spec fn is_ready(self, walked: Seq<NodeRef>) -> spec_fn(NodeRef) -> bool {
        |n: NodeRef| self.ready(walked, n)
    }

    /// The nodes that can be walked next, in insertion order.
    pub open spec fn ready_nodes(self, walked: Seq<NodeRef>) -> Seq<NodeRef> {
        self.node_refs().filter(self.is_ready(walked))
    }

    pub open spec fn is_unwalked(self, walked: Seq<NodeRef>) -> spec_fn(NodeRef) -> bool {
        |n: NodeRef| !walked.contains(n)
    }

    /// The nodes that have not been walked, in insertion order.
    pub open spec fn unwalked_nodes(self, walked: Seq<NodeRef>) -> Seq<NodeRef> {
        self.node_refs().filter(self.is_unwalked(walked))
    }

    /// The first `k` nodes of the walk. The walk goes on with the first node,
    /// in insertion order, that is ready; so a node comes after the sources
    /// of all the edges that arrive at it. Where nodes are left and none is
    /// ready, the walk fails on the first node that is left.
    pub open spec fn walk_prefix(self, k: nat) -> Result<Seq<NodeRef>, InterpreterError>
        decreases k,
    {
        if k == 0 {
            Ok(Seq::empty())
        } else {
            match self.walk_prefix((k - 1) as nat) {
                Err(e) => Err(e),
                Ok(walked) => if self.ready_nodes(walked).len() > 0 {
                    Ok(walked.push(self.ready_nodes(walked)[0]))
                } else {
                    Err(InterpreterError::UnreachableNode(self.unwalked_nodes(walked)[0].node_ix))
                },
            }
        }
    }

    /// The walk over all nodes of the graph.
    pub open spec fn walk_order(self) -> Result<Seq<NodeRef>, InterpreterError> {
        self.walk_prefix(self.nodes.len())
    }

    /// Whether each node of `walked` stands behind the sources of all the
    /// edges that arrive at it.
    pub open spec fn sources_first(self, walked: Seq<NodeRef>) -> bool {
        forall|p: int, i: int|
            0 <= p < walked.len() && 0 <= i < self.edges.len() && (#[trigger] self.edges[i]).target
                == (#[trigger] walked[p]).node_ix ==> walked.take(p).contains(
                NodeRef { node_ix: self.edges[i].source },
            )
    }

    /// Whether every edge leads from a node of lower rank to one of higher
    /// rank.
    pub open spec fn ranked_by(self, rank: Seq<nat>) -> bool {
        &&& rank.len() == self.nodes.len()
        &&& forall|i: int|
            0 <= i < self.edges.len() ==> rank[(#[trigger] self.edges[i]).source as int]
                < rank[self.edges[i].target as int]
    }

    /// Whether the nodes can be ranked so that every edge leads upwards, as
    /// they can in a graph in which no path leads from a node back to it.
    pub open spec fn acyclic(self) -> bool {
        exists|rank: Seq<nat>| self.ranked_by(rank)
    }

    /// The graph with the content of `node` taken out.
    pub open spec fn pluck(self, node: NodeRef) -> GraphView {
        GraphView { nodes: self.nodes.update(node.node_ix as int, NodeView::Consumed), ..self }
    }

    /// Whether every handle in `edges` names an edge of the graph.
    pub open spec fn knows_edges(self, edges: Seq<EdgeRef>) -> bool {
        forall|i: int| 0 <= i < edges.len() ==> self.has_edge(#[trigger] edges[i])
    }

    /// Whether both ends of every edge are nodes of the graph.
    pub open spec fn attached(self) -> bool {
        forall|i: int|
            0 <= i < self.edges.len() ==> (#[trigger] self.edges[i]).source < self.nodes.len()
                && self.edges[i].target < self.nodes.len()
    }

    /// The edges that leave or reach a node are edges of the graph.
    pub proof fn lemma_incident_edges_known(self, node: NodeRef)
        ensures
            self.knows_edges(self.outgoing(node)),
            self.knows_edges(self.incoming(node)),
    {
        let out = self.outgoing(node);
        assert forall|i: int| 0 <= i < out.len() implies self.has_edge(#[trigger] out[i]) by {
            assert(out.contains(out[i]));
            self.edge_refs().lemma_filter_contains_rev(self.leaves(node), out[i]);
            let j = choose|j: int| 0 <= j < self.edge_refs().len() && self.edge_refs()[j] == out[i];
            assert(out[i].edge_ix <= usize::MAX);
            assert(j <= usize::MAX ==> out[i].edge_ix == j);
        }
        let inc = self.incoming(node);
        assert forall|i: int| 0 <= i < inc.len() implies self.has_edge(#[trigger] inc[i]) by {
            assert(inc.contains(inc[i]));
            self.edge_refs().lemma_filter_contains_rev(self.arrives_at(node), inc[i]);
            let j = choose|j: int| 0 <= j < self.edge_refs().len() && self.edge_refs()[j] == inc[i];
            assert(inc[i].edge_ix <= usize::MAX);
            assert(j <= usize::MAX ==> inc[i].edge_ix == j);
        }
    }

    /// Where no edge dangles, both ends of every edge are nodes of the graph.
    pub proof fn lemma_no_dangling_edge(self)
        requires
            self.dangling_edges().len() == 0,
            self.edges.len() <= usize::MAX,
        ensures
            self.attached(),
    {
        assert forall|i: int| 0 <= i < self.edges.len() implies (#[trigger] self.edges[i]).source
            < self.nodes.len() && self.edges[i].target < self.nodes.len() by {
            let e = self.edge_refs()[i];
            assert(e.edge_ix == i);
            if self.dangles()(e) {
                self.edge_refs().lemma_filter_contains(self.dangles(), i);
            }
        }
    }

    /// The root, where there is one, is a node of the graph.
    pub proof fn lemma_root_is_node(self)
        requires
            self.root() is Some,
        ensures
            self.has_node(self.root()->0),
    {
        let root = self.roots()[0];
        assert(self.roots().contains(root));
        self.node_refs().lemma_filter_contains_rev(self.is_root(), root);
        let j = choose|j: int| 0 <= j < self.node_refs().len() && self.node_refs()[j] == root;
        assert(root.node_ix <= usize::MAX);
        assert(j <= usize::MAX ==> root.node_ix == j);
    }

    /// The handles of the nodes are all different.
    pub proof fn lemma_node_refs_distinct(self)
        requires
            self.nodes.len() <= usize::MAX,
        ensures
            self.node_refs().no_duplicates(),
            forall|i: int| 0 <= i < self.nodes.len() ==> (#[trigger] self.node_refs()[i]).node_ix == i,
    {
    }

    /// What has been walked so far holds each node at most once, and nodes
    /// of the graph only.
    pub proof fn lemma_walk_prefix_sound(self, k: nat)
        requires
            self.nodes.len() <= usize::MAX,
        ensures
            self.walk_prefix(k) matches Ok(walked) ==> {
                &&& walked.len() == k
                &&& walked.no_duplicates()
                &&& forall|i: int| 0 <= i < walked.len() ==> self.has_node(#[trigger] walked[i])
            },
        decreases k,
    {
        if k > 0 {
            self.lemma_walk_prefix_sound((k - 1) as nat);
            match self.walk_prefix((k - 1) as nat) {
                Ok(walked) => {
                    let ready = self.ready_nodes(walked);
                    if ready.len() > 0 {
                        let next = ready[0];
                        self.node_refs().lemma_filter_pred(self.is_ready(walked), 0);
                        assert(ready.contains(next));
                        self.node_refs().lemma_filter_contains_rev(self.is_ready(walked), next);
                        self.lemma_node_refs_distinct();
                        assert(self.has_node(next));
                        assert(!walked.contains(next));
                        let longer = walked.push(next);
                        assert forall|i: int, j: int|
                            0 <= i < longer.len() && 0 <= j < longer.len() && i != j implies longer[i]
                            != longer[j] by {
                            if i == walked.len() {
                                assert(walked.contains(longer[j]));
                            } else if j == walked.len() {
                                assert(walked.contains(longer[i]));
                            }
                        }
                    }
                },
                Err(_) => {},
            }
        }
    }

    /// The walk comes to a node only behind the sources of all the edges that
    /// arrive at it.
    pub proof fn lemma_walk_puts_sources_first(self, k: nat)
        requires
            self.nodes.len() <= usize::MAX,
        ensures
            self.walk_prefix(k) matches Ok(walked) ==> self.sources_first(walked),
        decreases k,
    {
        if k > 0 {
            self.lemma_walk_puts_sources_first((k - 1) as nat);
            self.lemma_walk_prefix_sound((k - 1) as nat);
            match self.walk_prefix((k - 1) as nat) {
                Ok(walked) => {
                    let ready = self.ready_nodes(walked);
                    if ready.len() > 0 {
                        let next = ready[0];
                        self.node_refs().lemma_filter_pred(self.is_ready(walked), 0);
                        let longer = walked.push(next);
                        assert forall|p: int, i: int|
                            0 <= p < longer.len() && 0 <= i < self.edges.len() && (
                            #[trigger] self.edges[i]).target == (#[trigger] longer[p]).node_ix implies longer.take(
                            p,
                        ).contains(NodeRef { node_ix: self.edges[i].source }) by {
                            if p < walked.len() {
                                assert(longer.take(p) =~= walked.take(p));
                                assert(longer[p] == walked[p]);
                            } else {
                                assert(longer.take(p) =~= walked);
                            }
                        }
                    }
                },
                Err(_) => {},
            }
        }
    }

    /// A walk that has failed stays failed.
    pub proof fn lemma_walk_failure_stays(self, k: nat, m: nat)
        requires
            k <= m,
            self.walk_prefix(k) is Err,
        ensures
            self.walk_prefix(m) == self.walk_prefix(k),
        decreases m,
    {
        if k < m {
            self.lemma_walk_failure_stays(k, (m - 1) as nat);
        }
    }

    /// While fewer nodes have been walked than there are, one is left.
    pub proof fn lemma_some_node_unwalked(self, walked: Seq<NodeRef>)
        requires
            self.nodes.len() <= usize::MAX,
            walked.len() < self.nodes.len(),
            walked.no_duplicates(),
        ensures
            self.unwalked_nodes(walked).len() > 0,
            exists|i: int| 0 <= i < self.nodes.len() && !walked.contains(#[trigger] self.node_refs()[i]),
    {
        let all = self.node_refs();
        self.lemma_node_refs_distinct();
        all.unique_seq_to_set();
        walked.unique_seq_to_set();
        seq_to_set_is_finite(all);
        seq_to_set_is_finite(walked);
        if forall|i: int| 0 <= i < self.nodes.len() ==> walked.contains(#[trigger] all[i]) {
            assert forall|n: NodeRef| all.to_set().contains(n) implies walked.to_set().contains(n) by {
                let i = choose|i: int| 0 <= i < all.len() && all[i] == n;
                assert(walked.contains(all[i]));
            }
            lemma_len_subset(all.to_set(), walked.to_set());
            assert(false);
        }
        let i = choose|i: int| 0 <= i < self.nodes.len() && !walked.contains(#[trigger] all[i]);
        assert(self.is_unwalked(walked)(all[i]));
        all.lemma_filter_contains(self.is_unwalked(walked), i);
    }

    /// Among the nodes below `m` that are left, one of lowest rank.
    proof fn lemma_lowest_unwalked(self, rank: Seq<nat>, walked: Seq<NodeRef>, m: nat) -> (lowest:
        int)
        requires
            m <= self.nodes.len(),
            exists|i: int| 0 <= i < m && !walked.contains(#[trigger] self.node_refs()[i]),
        ensures
            0 <= lowest < m,
            !walked.contains(self.node_refs()[lowest]),
            forall|i: int|
                0 <= i < m && !walked.contains(#[trigger] self.node_refs()[i]) ==> rank[lowest]
                    <= rank[i],
        decreases m,
    {
        let last = m - 1;
        if exists|i: int| 0 <= i < last && !walked.contains(#[trigger] self.node_refs()[i]) {
            let rest = self.lemma_lowest_unwalked(rank, walked, last as nat);
            if !walked.contains(self.node_refs()[last]) && rank[last] < rank[rest] {
                last
            } else {
                rest
            }
        } else {
            last
        }
    }

    /// In a graph without a cycle and without a dangling edge the walk comes
    /// to every node: while nodes are left, one of them is ready.
    pub proof fn lemma_acyclic_walk_completes(self, k: nat)
        requires
            self.nodes.len() <= usize::MAX,
            self.attached(),
            self.acyclic(),
            k <= self.nodes.len(),
        ensures
            self.walk_prefix(k) is Ok,
        decreases k,
    {
        if k > 0 {
            self.lemma_acyclic_walk_completes((k - 1) as nat);
            self.lemma_walk_prefix_sound((k - 1) as nat);
            match self.walk_prefix((k - 1) as nat) {
                Ok(walked) => {
                    let rank = choose|rank: Seq<nat>| self.ranked_by(rank);
                    let all = self.node_refs();
                    self.lemma_node_refs_distinct();
                    self.lemma_some_node_unwalked(walked);
                    let lowest = self.lemma_lowest_unwalked(rank, walked, self.nodes.len());
                    let node = all[lowest];
                    assert forall|i: int|
                        0 <= i < self.edges.len() && (#[trigger] self.edges[i]).target
                            == node.node_ix implies walked.contains(
                        NodeRef { node_ix: self.edges[i].source },
                    ) by {
                        let source = self.edges[i].source as int;
                        assert(all[source] == NodeRef { node_ix: self.edges[i].source });
                        assert(rank[source] < rank[lowest]);
                    }
                    assert(self.is_ready(walked)(all[lowest]));
                    all.lemma_filter_contains(self.is_ready(walked), lowest);
                },
                Err(_) => {},
            }
        }
    }
}

/// A directed graph of query nodes. Nodes and edges are addressed by the
/// handles that `create_node` and `create_edge` return.
pub struct QueryGraph {
    nodes: Vec<Option<Node>>,
    edges: Vec<Edge>,
}

pub open spec fn slot_view(slot: Option<Node>) -> NodeView {
    match slot {
        Some(node) => node@,
        None => NodeView::Consumed,
    }
}

impl View for Edge {
    type V = EdgeView;

    closed spec fn view(&self) -> EdgeView {
        EdgeView {
            source: self.source,
            target: self.target,
            content: match self.content {
                Some(d) => Some(d@),
                None => None,
            },
        }
    }
}

impl View for QueryGraph {
    type V = GraphView;

    closed spec fn view(&self) -> GraphView {
        GraphView {
            nodes: self.nodes@.map_values(|slot: Option<Node>| slot_view(slot)),
            edges: self.edges@.map_values(|e: Edge| e@),
        }
    }
}

impl QueryGraph {
    /// The graph without nodes and edges.
    pub fn new() -> (g: Self)
        ensures
            g@.nodes.len() == 0,
            g@.edges.len() == 0,
    {
        QueryGraph { nodes: Vec::new(), edges: Vec::new() }
    }

    /// Number of node slots, consumed ones included.
    pub fn node_count(&self) -> (n: usize)
        ensures
            n == self@.nodes.len(),
    {
        self.nodes.len()
    }

    /// Number of edges.
    pub fn edge_count(&self) -> (n: usize)
        ensures
            n == self@.edges.len(),
    {
        self.edges.len()
    }

    /// Adds a node and returns its handle.
    pub fn create_node(&mut self, node: Node) -> (r: NodeRef)
        ensures
            r.node_ix == old(self)@.nodes.len(),
            final(self)@.nodes == old(self)@.nodes.push(node@),
            final(self)@.edges == old(self)@.edges,
    {
        let r = NodeRef { node_ix: self.nodes.len() };
        self.nodes.push(Some(node));
        assert(self@.nodes =~= old(self)@.nodes.push(node@));
        r
    }

    /// Adds an edge from `from` to `to` and returns its handle. Neither end is
    /// checked: an edge may dangle.
    pub fn create_edge(
        &mut self,
        from: &NodeRef,
        to: &NodeRef,
        content: Option<QueryDependency>,
    ) -> (r: EdgeRef)
        ensures
            r.edge_ix == old(self)@.edges.len(),
            final(self)@.nodes == old(self)@.nodes,
            final(self)@.edges == old(self)@.edges.push(
                EdgeView {
                    source: from.node_ix,
                    target: to.node_ix,
                    content: match content {
                        Some(d) => Some(d@),
                        None => None,
                    },
                },
            ),
    {
        let r = EdgeRef { edge_ix: self.edges.len() };
        let edge = Edge { source: from.node_ix, target: to.node_ix, content };
        self.edges.push(edge);
        assert(self@.edges =~= old(self)@.edges.push(edge@));
        r
    }

    /// The content of `node`, unless it has been taken out.
    pub fn node_content(&self, node: &NodeRef) -> (content: Option<&Node>)
        requires
            self@.has_node(*node),
        ensures
            match content {
                Some(n) => n@ == self@.nodes[node.node_ix as int],
                None => self@.nodes[node.node_ix as int] is Consumed,
            },
    {
        self.nodes[node.node_ix].as_ref()
    }

    /// What the edge asks of its source, if anything.
    pub fn edge_content(&self, edge: &EdgeRef) -> (content: Option<&QueryDependency>)
        requires
            self@.has_edge(*edge),
        ensures
            match content {
                Some(d) => self@.edges[edge.edge_ix as int].content == Some(d@),
                None => self@.edges[edge.edge_ix as int].content is None,
            },
    {
        self.edges[edge.edge_ix].content.as_ref()
    }

    /// The node that the edge leaves.
    pub fn edge_source(&self, edge: &EdgeRef) -> (node: NodeRef)
        requires
            self@.has_edge(*edge),
        ensures
            node.node_ix == self@.edges[edge.edge_ix as int].source,
    {
        NodeRef { node_ix: self.edges[edge.edge_ix].source }
    }

    /// The node at which the edge arrives.
    pub fn edge_target(&self, edge: &EdgeRef) -> (node: NodeRef)
        requires
            self@.has_edge(*edge),
        ensures
            node.node_ix == self@.edges[edge.edge_ix as int].target,
    {
        NodeRef { node_ix: self.edges[edge.edge_ix].target }
    }

    /// The edges that leave `node`, in insertion order.
    pub fn outgoing_edges(&self, node: &NodeRef) -> (edges: Vec<EdgeRef>)
        ensures
            edges@ == self@.outgoing(*node),
            self@.knows_edges(edges@),
    {
        proof {
            self@.lemma_incident_edges_known(*node);
        }
        let mut out: Vec<EdgeRef> = Vec::new();
        let mut i: usize = 0;
        let ghost refs = self@.edge_refs();
        let ghost pred = self@.leaves(*node);
        assert(refs.take(0).filter(pred) =~= Seq::<EdgeRef>::empty()) by {
            reveal(Seq::filter);
        }
        while i < self.edges.len()
            invariant
                i <= self.edges.len(),
                refs == self@.edge_refs(),
                pred == self@.leaves(*node),
                out@ == refs.take(i as int).filter(pred),
            decreases self.edges.len() - i,
        {
            proof {
                assert(refs.take(i as int + 1) =~= refs.take(i as int).push(refs[i as int]));
                refs.take(i as int).lemma_filter_push(refs[i as int], pred);
            }
            if self.edges[i].source == node.node_ix {
                out.push(EdgeRef { edge_ix: i });
            }
            i = i + 1;
        }
        assert(refs.take(i as int) =~= refs);
        out
    }

    /// The edges that arrive at `node`, in insertion order.
    pub fn incoming_edges(&self, node: &NodeRef) -> (edges: Vec<EdgeRef>)
        ensures
            edges@ == self@.incoming(*node),
            self@.knows_edges(edges@),
    {
        proof {
            self@.lemma_incident_edges_known(*node);
        }
        let mut out: Vec<EdgeRef> = Vec::new();
        let mut i: usize = 0;
        let ghost refs = self@.edge_refs();
        let ghost pred = self@.arrives_at(*node);
        assert(refs.take(0).filter(pred) =~= Seq::<EdgeRef>::empty()) by {
            reveal(Seq::filter);
        }
        while i < self.edges.len()
            invariant
                i <= self.edges.len(),
                refs == self@.edge_refs(),
                pred == self@.arrives_at(*node),
                out@ == refs.take(i as int).filter(pred),
            decreases self.edges.len() - i,
        {
            proof {
                assert(refs.take(i as int + 1) =~= refs.take(i as int).push(refs[i as int]));
                refs.take(i as int).lemma_filter_push(refs[i as int], pred);
            }
            if self.edges[i].target == node.node_ix {
                out.push(EdgeRef { edge_ix: i });
            }
            i = i + 1;
        }
        assert(refs.take(i as int) =~= refs);
        out
    }

    /// The edges of which an end is no node of the graph, in insertion order.
    pub fn dangling_edges(&self) -> (edges: Vec<EdgeRef>)
        ensures
            edges@ == self@.dangling_edges(),
    {
        let mut out: Vec<EdgeRef> = Vec::new();
        let mut i: usize = 0;
        let ghost refs = self@.edge_refs();
        let ghost pred = self@.dangles();
        assert(refs.take(0).filter(pred) =~= Seq::<EdgeRef>::empty()) by {
            reveal(Seq::filter);
        }
        while i < self.edges.len()
            invariant
                i <= self.edges.len(),
                refs == self@.edge_refs(),
                pred == self@.dangles(),
                out@ == refs.take(i as int).filter(pred),
            decreases self.edges.len() - i,
        {
            proof {
                assert(refs.take(i as int + 1) =~= refs.take(i as int).push(refs[i as int]));
                refs.take(i as int).lemma_filter_push(refs[i as int], pred);
            }
            if self.edges[i].source >= self.nodes.len() || self.edges[i].target >= self.nodes.len() {
                out.push(EdgeRef { edge_ix: i });
            }
            i = i + 1;
        }
        assert(refs.take(i as int) =~= refs);
        out
    }

    /// The root of the graph: the node at which no edge arrives, if there is
    /// exactly one such node.
    pub fn root_node(&self) -> (root: Option<NodeRef>)
        ensures
            root == self@.root(),
    {
        let mut found: Vec<NodeRef> = Vec::new();
        let mut i: usize = 0;
        let ghost refs = self@.node_refs();
        let ghost pred = self@.is_root();
        assert(refs.take(0).filter(pred) =~= Seq::<NodeRef>::empty()) by {
            reveal(Seq::filter);
        }
        while i < self.nodes.len()
            invariant
                i <= self.nodes.len(),
                refs == self@.node_refs(),
                pred == self@.is_root(),
                found@ == refs.take(i as int).filter(pred),
            decreases self.nodes.len() - i,
        {
            proof {
                assert(refs.take(i as int + 1) =~= refs.take(i as int).push(refs[i as int]));
                refs.take(i as int).lemma_filter_push(refs[i as int], pred);
            }
            let node = NodeRef { node_ix: i };
            if self.incoming_edges(&node).len() == 0 {
                found.push(node);
            }
            i = i + 1;
        }
        assert(refs.take(i as int) =~= refs);
        if found.len() == 1 {
            Some(found[0])
        } else {
            None
        }
    }

    /// Whether `node` is among `walked`.
    fn is_walked(walked: &Vec<NodeRef>, node: NodeRef) -> (b: bool)
        ensures
            b == walked@.contains(node),
    {
        let mut i: usize = 0;
        while i < walked.len()
            invariant
                i <= walked.len(),
                forall|j: int| 0 <= j < i ==> walked@[j] != node,
            decreases walked.len() - i,
        {
            if walked[i].node_ix == node.node_ix {
                assert(walked@[i as int] == node);
                return true;
            }
            i = i + 1;
        }
        false
    }

    /// Whether `node` can be walked next, after the nodes of `walked`.
    pub fn is_ready(&self, walked: &Vec<NodeRef>, node: &NodeRef) -> (b: bool)
        ensures
            b == self@.ready(walked@, *node),
    {
        if Self::is_walked(walked, *node) {
            return false;
        }
        let mut i: usize = 0;
        while i < self.edges.len()
            invariant
                i <= self.edges.len(),
                !walked@.contains(*node),
                forall|j: int|
                    0 <= j < i && (#[trigger] self@.edges[j]).target == node.node_ix
                        ==> walked@.contains(NodeRef { node_ix: self@.edges[j].source }),
            decreases self.edges.len() - i,
        {
            if self.edges[i].target == node.node_ix && !Self::is_walked(
                walked,
                NodeRef { node_ix: self.edges[i].source },
            ) {
                assert(self@.edges[i as int].target == node.node_ix);
                return false;
            }
            i = i + 1;
        }
        true
    }

    /// The nodes that can be walked next, in insertion order.
    pub fn ready_nodes(&self, walked: &Vec<NodeRef>) -> (nodes: Vec<NodeRef>)
        ensures
            nodes@ == self@.ready_nodes(walked@),
    {
        let mut out: Vec<NodeRef> = Vec::new();
        let mut i: usize = 0;
        let ghost refs = self@.node_refs();
        let ghost pred = self@.is_ready(walked@);
        assert(refs.take(0).filter(pred) =~= Seq::<NodeRef>::empty()) by {
            reveal(Seq::filter);
        }
        while i < self.nodes.len()
            invariant
                i <= self.nodes.len(),
                refs == self@.node_refs(),
                pred == self@.is_ready(walked@),
                out@ == refs.take(i as int).filter(pred),
            decreases self.nodes.len() - i,
        {
            proof {
                assert(refs.take(i as int + 1) =~= refs.take(i as int).push(refs[i as int]));
                refs.take(i as int).lemma_filter_push(refs[i as int], pred);
            }
            let node = NodeRef { node_ix: i };
            if self.is_ready(walked, &node) {
                out.push(node);
            }
            i = i + 1;
        }
        assert(refs.take(i as int) =~= refs);
        out
    }

    /// The nodes that are not among `walked`, in insertion order.
    pub fn unwalked_nodes(&self, walked: &Vec<NodeRef>) -> (nodes: Vec<NodeRef>)
        ensures
            nodes@ == self@.unwalked_nodes(walked@),
    {
        let mut out: Vec<NodeRef> = Vec::new();
        let mut i: usize = 0;
        let ghost refs = self@.node_refs();
        let ghost pred = self@.is_unwalked(walked@);
        assert(refs.take(0).filter(pred) =~= Seq::<NodeRef>::empty()) by {
            reveal(Seq::filter);
        }
        while i < self.nodes.len()
            invariant
                i <= self.nodes.len(),
                refs == self@.node_refs(),
                pred == self@.is_unwalked(walked@),
                out@ == refs.take(i as int).filter(pred),
            decreases self.nodes.len() - i,
        {
            proof {
                assert(refs.take(i as int + 1) =~= refs.take(i as int).push(refs[i as int]));
                refs.take(i as int).lemma_filter_push(refs[i as int], pred);
            }
            let node = NodeRef { node_ix: i };
            if !Self::is_walked(walked, node) {
                out.push(node);
            }
            i = i + 1;
        }
        assert(refs.take(i as int) =~= refs);
        out
    }

    /// The order in which the nodes are walked: each node after the sources
    /// of all the edges that arrive at it, and among those that are ready the
    /// one that was inserted first. A graph with a cycle has no such order.
    pub fn walk_order(&self) -> (order: InterpretationResult<Vec<NodeRef>>)
        ensures
            match order {
                Ok(walked) => {
                    &&& self@.walk_order() == Ok::<Seq<NodeRef>, InterpreterError>(walked@)
                    &&& walked@.len() == self@.nodes.len()
                    &&& walked@.no_duplicates()
                    &&& forall|i: int| 0 <= i < walked@.len() ==> self@.has_node(#[trigger] walked@[i])
                },
                Err(e) => self@.walk_order() == Err::<Seq<NodeRef>, InterpreterError>(e),
            },
    {
        let mut walked: Vec<NodeRef> = Vec::new();
        while walked.len() < self.nodes.len()
            invariant
                walked@.len() <= self@.nodes.len(),
                self@.nodes.len() == self.nodes.len(),
                self@.walk_prefix(walked@.len()) == Ok::<Seq<NodeRef>, InterpreterError>(walked@),
            decreases self.nodes.len() - walked.len(),
        {
            let ready = self.ready_nodes(&walked);
            if ready.len() == 0 {
                let left = self.unwalked_nodes(&walked);
                proof {
                    self@.lemma_walk_prefix_sound(walked@.len());
                    self@.lemma_some_node_unwalked(walked@);
                    self@.lemma_walk_failure_stays(walked@.len() + 1, self@.nodes.len());
                }
                return Err(InterpreterError::UnreachableNode(left[0].node_ix));
            }
            walked.push(ready[0]);
        }
        proof {
            self@.lemma_walk_prefix_sound(walked@.len());
        }
        Ok(walked)
    }

    /// Takes the content of `node` out of the graph. The content of a node can
    /// be taken once: a second attempt fails and leaves the graph as it is.
    pub fn pluck_node(&mut self, node: &NodeRef) -> (content: InterpretationResult<Node>)
        requires
            old(self)@.has_node(*node),
        ensures
            match content {
                Ok(n) => {
                    &&& n@ == old(self)@.nodes[node.node_ix as int]
                    &&& final(self)@ == old(self)@.pluck(*node)
                },
                Err(e) => {
                    &&& e == InterpreterError::NodeConsumed(node.node_ix)
                    &&& old(self)@.nodes[node.node_ix as int] is Consumed
                    &&& final(self)@ == old(self)@
                },
            },
    {
        let mut slot: Option<Node> = None;
        core::mem::swap(&mut slot, &mut self.nodes[node.node_ix]);
        assert(self@.nodes =~= old(self)@.nodes.update(node.node_ix as int, NodeView::Consumed));
        match slot {
            Some(n) => Ok(n),
            None => {
                assert(self@.nodes =~= old(self)@.nodes);
                Err(InterpreterError::NodeConsumed(node.node_ix))
            },
        }
    }
}

} // verus!
