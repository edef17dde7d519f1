//! What holds of every well-formed graph, proved over the model that the
//! contracts of [`crate::graph::Graph`] speak of.

use crate::graph::{Edge, GraphModel, GraphState, NodeModel};
use vstd::prelude::*;

verus! {

/// Whether `edge` is recorded in the neighbour sets of `graph`.
pub open spec fn is_edge_of(graph: GraphModel, edge: Edge) -> bool {
    &&& edge.source_node_id < graph.nodes.len()
    &&& edge.destination_node_id < graph.nodes.len()
    &&& graph.nodes[edge.source_node_id as int].outgoing(edge.is_directed).contains(
        edge.destination_node_id,
    )
}

/// The graph that results from adding the given labels, in order, to the
/// empty graph.
pub open spec fn with_nodes(labels: Seq<Seq<char>>) -> GraphModel
    decreases labels.len(),
{
    if labels.len() == 0 {
        GraphModel::empty()
    } else {
        with_nodes(labels.drop_last()).add_node(labels.last())
    }
}

/// The edges from one source to targets below `bound` are exactly the
/// recorded ones, and each occurs once.
pub proof fn lemma_edges_from(graph: GraphModel, directed: bool, source: usize, bound: nat)
    requires
        graph.nodes.len() <= usize::MAX,
        source < graph.nodes.len(),
        bound <= graph.nodes.len(),
    ensures
        forall|edge: Edge| #[trigger]
            graph.edges_from(directed, source, bound).contains(edge) <==> {
                &&& edge.source_node_id == source
                &&& edge.is_directed == directed
                &&& edge.destination_node_id < bound
                &&& is_edge_of(graph, edge)
            },
        graph.edges_from(directed, source, bound).no_duplicates(),
    decreases bound,
{
    if bound > 0 {
        let before = graph.edges_from(directed, source, (bound - 1) as nat);
        let target = (bound - 1) as usize;
        let last = Edge { source_node_id: source, destination_node_id: target, is_directed: directed };
        lemma_edges_from(graph, directed, source, (bound - 1) as nat);
        if graph.nodes[source as int].outgoing(directed).contains(target) {
            assert(graph.edges_from(directed, source, bound) == before.push(last));
            assert forall|edge: Edge| #[trigger]
                before.push(last).contains(edge) <==> before.contains(edge) || edge == last by {
                if before.contains(edge) {
                    let k = choose|k: int| 0 <= k < before.len() && before[k] == edge;
                    assert(before.push(last)[k] == edge);
                }
                if edge == last {
                    assert(before.push(last)[before.len() as int] == edge);
                }
            }
            assert(!before.contains(last));
            assert forall|i: int, j: int|
                0 <= i < before.push(last).len() && 0 <= j < before.push(last).len() && i
                    != j implies before.push(last)[i] != before.push(last)[j] by {
                if i < before.len() {
                    assert(before.contains(before[i]));
                }
                if j < before.len() {
                    assert(before.contains(before[j]));
                }
            }
        }
    }
}

/// The edges of one kind that leave the first `count` nodes are exactly the
/// recorded ones, and each occurs once.
pub proof fn lemma_edges_of_kind(graph: GraphModel, directed: bool, count: nat)
    requires
        graph.nodes.len() <= usize::MAX,
        count <= graph.nodes.len(),
    ensures
        forall|edge: Edge| #[trigger]
            graph.edges_of_kind(directed, count).contains(edge) <==> {
                &&& edge.source_node_id < count
                &&& edge.is_directed == directed
                &&& is_edge_of(graph, edge)
            },
        graph.edges_of_kind(directed, count).no_duplicates(),
    decreases count,
{
    if count > 0 {
        let source = (count - 1) as usize;
        let before = graph.edges_of_kind(directed, (count - 1) as nat);
        let row = graph.edges_from(directed, source, graph.nodes.len());
        lemma_edges_of_kind(graph, directed, (count - 1) as nat);
        lemma_edges_from(graph, directed, source, graph.nodes.len());
        lemma_concat(before, row);
    }
}

/// What two lists hold together, and when the two together hold nothing
/// twice.
pub proof fn lemma_concat(first: Seq<Edge>, second: Seq<Edge>)
    ensures
        forall|edge: Edge| #[trigger]
            (first + second).contains(edge) <==> first.contains(edge) || second.contains(edge),
        first.no_duplicates() && second.no_duplicates() && (forall|edge: Edge|
            !(first.contains(edge) && second.contains(edge))) ==> (first + second).no_duplicates(),
{
    let both = first + second;
    assert forall|edge: Edge| #[trigger]
        both.contains(edge) <==> first.contains(edge) || second.contains(edge) by {
        if first.contains(edge) {
            let k = choose|k: int| 0 <= k < first.len() && first[k] == edge;
            assert(both[k] == edge);
        }
        if second.contains(edge) {
            let k = choose|k: int| 0 <= k < second.len() && second[k] == edge;
            assert(both[first.len() + k] == edge);
        }
        if both.contains(edge) {
            let k = choose|k: int| 0 <= k < both.len() && both[k] == edge;
            if k < first.len() {
                assert(first[k] == edge);
            } else {
                assert(second[k - first.len()] == edge);
            }
        }
    }
    if first.no_duplicates() && second.no_duplicates() && (forall|edge: Edge|
        !(first.contains(edge) && second.contains(edge))) {
        assert forall|i: int, j: int|
            0 <= i < both.len() && 0 <= j < both.len() && i != j implies both[i] != both[j] by {
            if i < first.len() {
                assert(first.contains(first[i]));
            } else {
                assert(second.contains(second[i - first.len()]));
            }
            if j < first.len() {
                assert(first.contains(first[j]));
            } else {
                assert(second.contains(second[j - first.len()]));
            }
        }
    }
}

/// The derived edge list holds exactly the edges that the neighbour sets
/// record, each of them once.
pub proof fn lemma_all_edges(graph: GraphModel)
    requires
        graph.nodes.len() <= usize::MAX,
    ensures
        forall|edge: Edge| #[trigger] graph.all_edges().contains(edge) <==> is_edge_of(graph, edge),
        graph.all_edges().no_duplicates(),
{
    let count = graph.nodes.len();
    lemma_edges_of_kind(graph, true, count);
    lemma_edges_of_kind(graph, false, count);
    lemma_concat(graph.edges_of_kind(true, count), graph.edges_of_kind(false, count));
}

/// No edge of a well-formed graph leads from a node to itself, and both
/// ends of every edge are nodes of the graph.
pub proof fn lemma_no_self_edges(graph: GraphModel)
    requires
        graph.wf(),
    ensures
        forall|k: int|
            0 <= k < graph.all_edges().len() ==> {
                &&& (#[trigger] graph.all_edges()[k]).source_node_id
                    != graph.all_edges()[k].destination_node_id
                &&& graph.all_edges()[k].source_node_id < graph.nodes.len()
                &&& graph.all_edges()[k].destination_node_id < graph.nodes.len()
            },
{
    lemma_all_edges(graph);
    assert forall|k: int| 0 <= k < graph.all_edges().len() implies {
        &&& (#[trigger] graph.all_edges()[k]).source_node_id
            != graph.all_edges()[k].destination_node_id
        &&& graph.all_edges()[k].source_node_id < graph.nodes.len()
        &&& graph.all_edges()[k].destination_node_id < graph.nodes.len()
    } by {
        let edge = graph.all_edges()[k];
        assert(graph.all_edges().contains(edge));
        assert(is_edge_of(graph, edge));
        assert(graph.adjacency_consistent(edge.is_directed));
    }
}

/// Linking `from` to `to` puts `to` among the outgoing neighbours of `from`
/// and `from` among the incoming neighbours of `to`. The edge list then
/// holds that edge once, and beside it exactly the edges it held before.
pub proof fn lemma_link_adds_one_edge(graph: GraphModel, directed: bool, from: usize, to: usize)
    requires
        graph.wf(),
        from < graph.nodes.len(),
        to < graph.nodes.len(),
        from != to,
    ensures
        ({
            let linked = graph.link(directed, from, to);
            let added = Edge {
                source_node_id: from,
                destination_node_id: to,
                is_directed: directed,
            };
            &&& linked.wf()
            &&& linked.nodes.len() == graph.nodes.len()
            &&& linked.nodes[from as int].outgoing(directed).contains(to)
            &&& linked.nodes[to as int].incoming(directed).contains(from)
            &&& linked.all_edges().contains(added)
            &&& linked.all_edges().no_duplicates()
            &&& forall|edge: Edge|
                edge != added ==> (#[trigger] linked.all_edges().contains(edge)
                    <==> graph.all_edges().contains(edge))
        }),
{
    let linked = graph.link(directed, from, to);
    crate::graph::lemma_link_keeps_wf(graph, directed, from, to);
    lemma_all_edges(graph);
    lemma_all_edges(linked);
    assert forall|i: int, kind: bool| 0 <= i < linked.nodes.len() implies #[trigger] linked.nodes[i].outgoing(
        kind,
    ) == if kind == directed && i == from {
        graph.nodes[i].outgoing(kind).insert(to)
    } else {
        graph.nodes[i].outgoing(kind)
    } by {}
}

/// A request that names an unknown label changes nothing: the nodes, their
/// neighbour sets and the edge list stay as they are.
pub proof fn lemma_unknown_label_changes_nothing(
    graph: GraphModel,
    directed: bool,
    from: Seq<char>,
    to: Seq<char>,
)
    requires
        !graph.has_label(from) || !graph.has_label(to),
    ensures
        graph.link_labels(directed, from, to) == graph,
        graph.link_labels(directed, from, to).nodes.len() == graph.nodes.len(),
        graph.link_labels(directed, from, to).all_edges() == graph.all_edges(),
{
}

/// A request to connect a label to itself changes nothing.
pub proof fn lemma_same_label_changes_nothing(graph: GraphModel, directed: bool, label: Seq<char>)
    ensures
        graph.link_labels(directed, label, label) == graph,
{
}

/// Adding nodes with pairwise different labels to the empty graph gives
/// them the ids 0, 1, 2, ... in order of insertion: each label is new when
/// its turn comes, node `i` carries label `i`, and label `i` resolves to id
/// `i`. The graph has no edges.
pub proof fn lemma_with_nodes(labels: Seq<Seq<char>>)
    requires
        labels.no_duplicates(),
        labels.len() <= usize::MAX,
    ensures
        with_nodes(labels).wf(),
        with_nodes(labels).state == GraphState::Building,
        with_nodes(labels).nodes.len() == labels.len(),
        forall|i: int|
            0 <= i < labels.len() ==> #[trigger] with_nodes(labels).nodes[i] == NodeModel::fresh(
                labels[i],
            ),
        forall|i: int|
            0 <= i < labels.len() ==> {
                &&& with_nodes(labels).has_label(#[trigger] labels[i])
                &&& with_nodes(labels).index_of(labels[i]) == i
            },
        forall|i: int|
            0 <= i < labels.len() ==> !with_nodes(#[trigger] labels.take(i)).has_label(labels[i]),
    decreases labels.len(),
{
    let graph = with_nodes(labels);
    if labels.len() > 0 {
        let front = labels.drop_last();
        let before = with_nodes(front);
        assert(front.no_duplicates());
        lemma_with_nodes(front);
        assert forall|i: int| 0 <= i < labels.len() implies #[trigger] graph.nodes[i]
            == NodeModel::fresh(labels[i]) by {
            if i < front.len() {
                assert(graph.nodes[i] == before.nodes[i]);
                assert(front[i] == labels[i]);
            }
        }
        assert(graph.labels_distinct());
        assert forall|kind: bool| #[trigger] graph.adjacency_consistent(kind) by {
            assert forall|i: int| 0 <= i < graph.nodes.len() implies (#[trigger] graph.nodes[i])
                == NodeModel::fresh(labels[i]) by {}
        }
        assert(graph.adjacency_consistent(true));
        assert(graph.adjacency_consistent(false));
        assert forall|i: int| 0 <= i < labels.len() implies {
            &&& graph.has_label(#[trigger] labels[i])
            &&& graph.index_of(labels[i]) == i
        } by {
            assert(graph.is_labelled(i, labels[i]));
            crate::graph::lemma_index_of(graph, i as usize, labels[i]);
        }
        assert forall|i: int| 0 <= i < labels.len() implies !with_nodes(
            #[trigger] labels.take(i),
        ).has_label(labels[i]) by {
            if i < front.len() {
                assert(labels.take(i) =~= front.take(i));
                assert(front[i] == labels[i]);
            } else {
                assert(labels.take(i) =~= front);
                if before.has_label(labels[i]) {
                    let k = choose|k: int|
                        0 <= k < before.nodes.len() && (#[trigger] before.nodes[k]).label
                            == labels[i];
                    assert(before.nodes[k] == NodeModel::fresh(front[k]));
                    assert(labels[k] == labels[i]);
                }
            }
        }
    } else {
        assert(graph.adjacency_consistent(true));
        assert(graph.adjacency_consistent(false));
    }
}

} // verus!
