//! The graph store: nodes with unique labels and dense ids, and the directed
//! and undirected neighbour sets that make up the topology.
//!
//! Edges are not stored. [`Graph::get_all_edges`] derives them from the
//! neighbour sets, so the edge list and the adjacency can never disagree.

use crate::graph_laws::{is_edge_of, lemma_all_edges, lemma_no_self_edges};
use crate::vector::{Force, Size, Velocity};
use std::collections::HashSet;
use vstd::hash_map::StringHashMap;
use vstd::prelude::*;

verus! {

broadcast use vstd::std_specs::hash::group_hash_axioms;

/// The radius that a new node is drawn with: 15 units.
pub const DEFAULT_RADIUS: i64 = 15_000;

/// The id of a node: its position in the order of insertion, starting at 0.
#[derive(Clone, Copy, Debug, PartialEq, Eq, Structural)]
pub struct NodeId {
    pub id: usize,
}

/// One connection between two nodes, as derived from the neighbour sets.
#[derive(Clone, Copy, Debug, PartialEq, Eq, Structural)]
pub struct Edge {
    pub source_node_id: usize,
    pub destination_node_id: usize,
    pub is_directed: bool,
}

/// Whether the topology may still change.
#[derive(Clone, Copy, Debug, PartialEq, Eq, Structural)]
pub enum GraphState {
    /// Nodes and edges may be added.
    Building,
    /// The topology is frozen; only the simulation moves the nodes.
    Simulating,
}

/// Why a structural change was refused.
#[derive(Clone, Copy, Debug, PartialEq, Eq, Structural)]
pub enum GraphError {
    /// A node with this label exists already.
    DuplicateLabel,
    /// The graph has been handed to the simulation.
    TopologyFrozen,
}

/// The physical state that a node starts with.
#[derive(Clone, Copy, Debug, PartialEq, Eq, Structural)]
pub struct PhysicsData {
    pub velocity: Velocity,
    pub force: Force,
    pub size: Size,
}

impl PhysicsData {
    /// At rest, with no force acting, drawn with the default radius.
    pub open spec fn initial() -> PhysicsData {
        PhysicsData {
            velocity: Velocity { x: 0, y: 0 },
            force: Force { x: 0, y: 0 },
            size: Size { radius: DEFAULT_RADIUS },
        }
    }

    /// The physical state of a node that has just been added.
    pub fn init() -> (data: Self)
        ensures
            data == PhysicsData::initial(),
    {
        PhysicsData {
            velocity: Velocity { x: 0, y: 0 },
            force: Force { x: 0, y: 0 },
            size: Size { radius: DEFAULT_RADIUS },
        }
    }
}

/// A vertex: identity, label, physical state and the four neighbour sets.
#[derive(Debug)]
pub struct Node {
    pub id: usize,
    pub label: String,
    pub physics_data: PhysicsData,
    pub outgoing_directed_edges: HashSet<usize>,
    pub incoming_directed_edges: HashSet<usize>,
    pub outgoing_undirected_edges: HashSet<usize>,
    pub incoming_undirected_edges: HashSet<usize>,
}

/// What a node is, mathematically. The id is left out: it is the node's
/// index in the graph.
pub struct NodeModel {
    pub label: Seq<char>,
    pub physics_data: PhysicsData,
    pub outgoing_directed: Set<usize>,
    pub incoming_directed: Set<usize>,
    pub outgoing_undirected: Set<usize>,
    pub incoming_undirected: Set<usize>,
}

impl NodeModel {
    /// A node that has just been added: no neighbours yet.
    pub open spec fn fresh(label: Seq<char>) -> NodeModel {
        NodeModel {
            label,
            physics_data: PhysicsData::initial(),
            outgoing_directed: Set::empty(),
            incoming_directed: Set::empty(),
            outgoing_undirected: Set::empty(),
            incoming_undirected: Set::empty(),
        }
    }

    /// The outgoing neighbours of the given kind.
    pub open spec fn outgoing(self, directed: bool) -> Set<usize> {
        if directed {
            self.outgoing_directed
        } else {
            self.outgoing_undirected
        }
    }

    /// The incoming neighbours of the given kind.
    pub open spec fn incoming(self, directed: bool) -> Set<usize> {
        if directed {
            self.incoming_directed
        } else {
            self.incoming_undirected
        }
    }

    /// This node with one more outgoing neighbour.
    pub open spec fn with_outgoing(self, directed: bool, to: usize) -> NodeModel {
        if directed {
            NodeModel { outgoing_directed: self.outgoing_directed.insert(to), ..self }
        } else {
            NodeModel { outgoing_undirected: self.outgoing_undirected.insert(to), ..self }
        }
    }

    /// This node with one more incoming neighbour.
    pub open spec fn with_incoming(self, directed: bool, from: usize) -> NodeModel {
        if directed {
            NodeModel { incoming_directed: self.incoming_directed.insert(from), ..self }
        } else {
            NodeModel { incoming_undirected: self.incoming_undirected.insert(from), ..self }
        }
    }
}

impl View for Node {
    type V = NodeModel;

    open spec fn view(&self) -> NodeModel {
        NodeModel {
            label: self.label@,
            physics_data: self.physics_data,
            outgoing_directed: self.outgoing_directed_edges@,
            incoming_directed: self.incoming_directed_edges@,
            outgoing_undirected: self.outgoing_undirected_edges@,
            incoming_undirected: self.incoming_undirected_edges@,
        }
    }
}

/// What a graph is, mathematically: its nodes in order of insertion, and
/// whether it may still change.
pub struct GraphModel {
    pub nodes: Seq<NodeModel>,
    pub state: GraphState,
}

impl GraphModel {
    /// The graph without nodes, ready to be built.
    pub open spec fn empty() -> GraphModel {
        GraphModel { nodes: Seq::empty(), state: GraphState::Building }
    }

    /// Whether some node carries this label.
    pub open spec fn has_label(self, label: Seq<char>) -> bool {
        exists|i: int| 0 <= i < self.nodes.len() && (#[trigger] self.nodes[i]).label == label
    }

    /// Whether node `i` carries this label.
    pub open spec fn is_labelled(self, i: int, label: Seq<char>) -> bool {
        0 <= i < self.nodes.len() && self.nodes[i].label == label
    }

    /// The graph with one more node, which gets the next id.
    pub open spec fn add_node(self, label: Seq<char>) -> GraphModel {
        GraphModel { nodes: self.nodes.push(NodeModel::fresh(label)), ..self }
    }

    /// The graph with `to` among the outgoing neighbours of `from`, and
    /// `from` among the incoming neighbours of `to`.
    pub open spec fn link(self, directed: bool, from: usize, to: usize) -> GraphModel
        recommends
            from < self.nodes.len(),
            to < self.nodes.len(),
            from != to,
    {
        let source = self.nodes[from as int].with_outgoing(directed, to);
        let target = self.nodes[to as int].with_incoming(directed, from);
        GraphModel {
            nodes: self.nodes.update(from as int, source).update(to as int, target),
            ..self
        }
    }

    /// The id of the node that carries this label, where there is one.
    pub open spec fn index_of(self, label: Seq<char>) -> usize {
        choose|i: usize| self.is_labelled(i as int, label)
    }

    /// What a request to connect two labels does: it links the two nodes
    /// if the graph is being built, both labels are known and they differ;
    /// otherwise it changes nothing.
    pub open spec fn link_labels(self, directed: bool, from: Seq<char>, to: Seq<char>) -> GraphModel {
        if self.state == GraphState::Building && self.has_label(from) && self.has_label(to) && from
            != to {
            self.link(directed, self.index_of(from), self.index_of(to))
        } else {
            self
        }
    }

    /// What a request to connect two ids does: it links the two nodes if the
    /// graph is being built and the ids differ; otherwise it changes nothing.
    pub open spec fn link_ids(self, directed: bool, from: usize, to: usize) -> GraphModel
        recommends
            from < self.nodes.len(),
            to < self.nodes.len(),
    {
        if self.state == GraphState::Building && from != to {
            self.link(directed, from, to)
        } else {
            self
        }
    }

    /// The same graph with its topology frozen.
    pub open spec fn frozen(self) -> GraphModel {
        GraphModel { state: GraphState::Simulating, ..self }
    }

    /// The edges of one kind that lead from `source` to a node with an id
    /// below `bound`, by ascending target.
    pub open spec fn edges_from(self, directed: bool, source: usize, bound: nat) -> Seq<Edge>
        decreases bound,
    {
        if bound == 0 {
            Seq::empty()
        } else {
            let target = (bound - 1) as usize;
            let before = self.edges_from(directed, source, (bound - 1) as nat);
            if self.nodes[source as int].outgoing(directed).contains(target) {
                before.push(
                    Edge {
                        source_node_id: source,
                        destination_node_id: target,
                        is_directed: directed,
                    },
                )
            } else {
                before
            }
        }
    }

    /// The edges of one kind that leave one of the first `count` nodes, by
    /// ascending source and then ascending target.
    pub open spec fn edges_of_kind(self, directed: bool, count: nat) -> Seq<Edge>
        decreases count,
    {
        if count == 0 {
            Seq::empty()
        } else {
            self.edges_of_kind(directed, (count - 1) as nat) + self.edges_from(
                directed,
                (count - 1) as usize,
                self.nodes.len(),
            )
        }
    }

    /// Every edge of the graph: the directed ones, then the undirected ones.
    pub open spec fn all_edges(self) -> Seq<Edge> {
        self.edges_of_kind(true, self.nodes.len()) + self.edges_of_kind(false, self.nodes.len())
    }

    /// No two nodes share a label.
    pub open spec fn labels_distinct(self) -> bool {
        forall|i: int, j: int|
            0 <= i < j < self.nodes.len() ==> (#[trigger] self.nodes[i]).label != (
            #[trigger] self.nodes[j]).label
    }

    /// Every neighbour of the given kind is a node of the graph, is not the
    /// node itself, and is recorded on both ends.
    pub open spec fn adjacency_consistent(self, directed: bool) -> bool {
        &&& forall|i: int, to: usize|
            0 <= i < self.nodes.len() && #[trigger] self.nodes[i].outgoing(directed).contains(to)
                ==> {
                &&& to < self.nodes.len()
                &&& to != i
                &&& self.nodes[to as int].incoming(directed).contains(i as usize)
            }
        &&& forall|i: int, from: usize|
            0 <= i < self.nodes.len() && #[trigger] self.nodes[i].incoming(directed).contains(from)
                ==> {
                &&& from < self.nodes.len()
                &&& from != i
                &&& self.nodes[from as int].outgoing(directed).contains(i as usize)
            }
    }

    /// The invariant of the data model.
    pub open spec fn wf(self) -> bool {
        &&& self.nodes.len() <= usize::MAX
        &&& self.labels_distinct()
        &&& self.adjacency_consistent(true)
        &&& self.adjacency_consistent(false)
    }
}

/// Nodes in order of insertion, and the index from label to id.
pub struct Graph {
    pub nodes: Vec<Node>,
    pub node_lookup: StringHashMap<usize>,
    pub state: GraphState,
}

impl View for Graph {
    type V = GraphModel;

    open spec fn view(&self) -> GraphModel {
        GraphModel { nodes: Seq::new(self.nodes.len() as nat, |i: int| self.nodes[i]@), state: self.state }
    }
}

impl Graph {
    /// The invariant: the model is well formed, ids equal indices, and the
    /// index holds exactly the labels of the nodes, each with its id.
    pub open spec fn wf(&self) -> bool {
        &&& self@.wf()
        &&& forall|i: int| 0 <= i < self.nodes.len() ==> (#[trigger] self.nodes[i]).id == i
        &&& forall|i: int|
            0 <= i < self.nodes.len() ==> {
                &&& self.node_lookup@.contains_key((#[trigger] self.nodes[i]).label@)
                &&& self.node_lookup@[self.nodes[i].label@] == i
            }
        &&& forall|label: Seq<char>| #[trigger]
            self.node_lookup@.contains_key(label) ==> self@.is_labelled(
                self.node_lookup@[label] as int,
                label,
            )
    }

    /// An empty graph in the building state.
    pub fn new() -> (graph: Self)
        ensures
            graph.wf(),
            graph@ == GraphModel::empty(),
    {
        let graph = Graph {
            nodes: Vec::new(),
            node_lookup: StringHashMap::new(),
            state: GraphState::Building,
        };
        assert(graph@.nodes =~= Seq::empty());
        graph
    }

    /// The number of nodes, which is also the id that the next node gets.
    pub fn node_count(&self) -> (count: usize)
        ensures
            count == self@.nodes.len(),
    {
        self.nodes.len()
    }

    /// The id of the node with this label, if there is one.
    pub fn lookup(&self, label: &str) -> (found: Option<NodeId>)
        requires
            self.wf(),
        ensures
            match found {
                Some(node) => self@.is_labelled(node.id as int, label@),
                None => !self@.has_label(label@),
            },
    {
        match self.node_lookup.get(label) {
            Some(id) => Some(NodeId { id: *id }),
            None => None,
        }
    }

    /// Appends a node with the next id, at rest and without neighbours.
    ///
    /// A frozen graph refuses the node; so does a graph that has a node with
    /// this label already. A refused call changes nothing.
    pub fn add_node(&mut self, label: &str) -> (added: Result<NodeId, GraphError>)
        requires
            old(self).wf(),
        ensures
            final(self).wf(),
            match added {
                Ok(node) => {
                    &&& old(self).state == GraphState::Building
                    &&& !old(self)@.has_label(label@)
                    &&& node.id == old(self)@.nodes.len()
                    &&& final(self)@ == old(self)@.add_node(label@)
                },
                Err(GraphError::TopologyFrozen) => {
                    &&& old(self).state == GraphState::Simulating
                    &&& final(self)@ == old(self)@
                },
                Err(GraphError::DuplicateLabel) => {
                    &&& old(self).state == GraphState::Building
                    &&& old(self)@.has_label(label@)
                    &&& final(self)@ == old(self)@
                },
            },
    {
        match self.state {
            GraphState::Simulating => {
                return Err(GraphError::TopologyFrozen);
            },
            GraphState::Building => {},
        }
        if self.node_lookup.contains_key(label) {
            return Err(GraphError::DuplicateLabel);
        }
        let id = self.nodes.len();
        self.node_lookup.insert(label.to_string(), id);
        self.nodes.push(
            Node {
                id,
                label: label.to_string(),
                physics_data: PhysicsData::init(),
                outgoing_directed_edges: HashSet::new(),
                incoming_directed_edges: HashSet::new(),
                outgoing_undirected_edges: HashSet::new(),
                incoming_undirected_edges: HashSet::new(),
            },
        );
        proof {
            assert(final(self)@.nodes =~= old(self)@.add_node(label@).nodes);
        }
        Ok(NodeId { id })
    }

    /// The node with this label, if there is one.
    pub fn get_node_by_name(&self, name: &str) -> (found: Option<&Node>)
        requires
            self.wf(),
        ensures
            match found {
                Some(node) => self@.is_labelled(node.id as int, name@) && *node
                    == self.nodes[node.id as int],
                None => !self@.has_label(name@),
            },
    {
        match self.node_lookup.get(name) {
            Some(id) => Some(&self.nodes[*id]),
            None => None,
        }
    }

    /// Freezes the topology. From here on every structural change is refused.
    pub fn freeze(&mut self)
        requires
            old(self).wf(),
        ensures
            final(self).wf(),
            final(self)@ == old(self)@.frozen(),
    {
        self.state = GraphState::Simulating;
        proof {
            assert(final(self)@.nodes =~= old(self)@.nodes);
        }
    }

    /// Records `to` as a neighbour of `from` on both ends.
    fn connect(&mut self, directed: bool, from: usize, to: usize)
        requires
            old(self).wf(),
            from < old(self).nodes.len(),
            to < old(self).nodes.len(),
            from != to,
        ensures
            final(self).wf(),
            final(self)@ == old(self)@.link(directed, from, to),
    {
        if directed {
            self.nodes[from].outgoing_directed_edges.insert(to);
            self.nodes[to].incoming_directed_edges.insert(from);
        } else {
            self.nodes[from].outgoing_undirected_edges.insert(to);
            self.nodes[to].incoming_undirected_edges.insert(from);
        }
        proof {
            assert(final(self)@.nodes =~= old(self)@.link(directed, from, to).nodes);
            lemma_link_keeps_wf(old(self)@, directed, from, to);
        }
    }

    /// Connects two nodes by label.
    fn connect_labels(&mut self, directed: bool, from: &str, to: &str) -> (done: Result<
        (),
        GraphError,
    >)
        requires
            old(self).wf(),
        ensures
            final(self).wf(),
            final(self)@ == old(self)@.link_labels(directed, from@, to@),
            done == if old(self).state == GraphState::Simulating {
                Err::<(), GraphError>(GraphError::TopologyFrozen)
            } else {
                Ok::<(), GraphError>(())
            },
    {
        match self.state {
            GraphState::Simulating => {
                return Err(GraphError::TopologyFrozen);
            },
            GraphState::Building => {},
        }
        let from_id = match self.node_lookup.get(from) {
            Some(id) => *id,
            None => {
                return Ok(());
            },
        };
        let to_id = match self.node_lookup.get(to) {
            Some(id) => *id,
            None => {
                return Ok(());
            },
        };
        proof {
            lemma_index_of(self@, from_id, from@);
            lemma_index_of(self@, to_id, to@);
        }
        if from_id != to_id {
            self.connect(directed, from_id, to_id);
        }
        Ok(())
    }

    /// Adds the directed edge between the nodes with these labels.
    ///
    /// Nothing happens if a label is unknown or the two are the same. A
    /// frozen graph refuses the call and stays as it is.
    pub fn add_directed_edge(&mut self, from: &str, to: &str) -> (done: Result<(), GraphError>)
        requires
            old(self).wf(),
        ensures
            final(self).wf(),
            final(self)@ == old(self)@.link_labels(true, from@, to@),
            done == if old(self).state == GraphState::Simulating {
                Err::<(), GraphError>(GraphError::TopologyFrozen)
            } else {
                Ok::<(), GraphError>(())
            },
    {
        self.connect_labels(true, from, to)
    }

    /// Adds the undirected edge between the nodes with these labels.
    ///
    /// Nothing happens if a label is unknown or the two are the same. A
    /// frozen graph refuses the call and stays as it is.
    pub fn add_undirected_edge(&mut self, from: &str, to: &str) -> (done: Result<(), GraphError>)
        requires
            old(self).wf(),
        ensures
            final(self).wf(),
            final(self)@ == old(self)@.link_labels(false, from@, to@),
            done == if old(self).state == GraphState::Simulating {
                Err::<(), GraphError>(GraphError::TopologyFrozen)
            } else {
                Ok::<(), GraphError>(())
            },
    {
        self.connect_labels(false, from, to)
    }

    /// Adds the directed edge between two nodes given by id.
    ///
    /// Both ids must be ids of nodes of this graph. Nothing happens if they
    /// are the same. A frozen graph refuses the call and stays as it is.
    pub fn add_edge(&mut self, from: usize, to: usize) -> (done: Result<(), GraphError>)
        requires
            old(self).wf(),
            from < old(self)@.nodes.len(),
            to < old(self)@.nodes.len(),
        ensures
            final(self).wf(),
            final(self)@ == old(self)@.link_ids(true, from, to),
            done == if old(self).state == GraphState::Simulating {
                Err::<(), GraphError>(GraphError::TopologyFrozen)
            } else {
                Ok::<(), GraphError>(())
            },
    {
        match self.state {
            GraphState::Simulating => {
                return Err(GraphError::TopologyFrozen);
            },
            GraphState::Building => {},
        }
        if from != to {
            self.connect(true, from, to);
        }
        Ok(())
    }

    /// Adds the directed edge between the nodes with these labels, as
    /// [`Graph::add_directed_edge`] does.
    pub fn add_edge_by_name(&mut self, from_name: &str, to_name: &str) -> (done: Result<
        (),
        GraphError,
    >)
        requires
            old(self).wf(),
        ensures
            final(self).wf(),
            final(self)@ == old(self)@.link_labels(true, from_name@, to_name@),
            done == if old(self).state == GraphState::Simulating {
                Err::<(), GraphError>(GraphError::TopologyFrozen)
            } else {
                Ok::<(), GraphError>(())
            },
    {
        self.connect_labels(true, from_name, to_name)
    }

    /// Appends the edges of one kind to `edges`.
    fn collect_edges(&self, directed: bool, edges: &mut Vec<Edge>)
        ensures
            final(edges)@ == old(edges)@ + self@.edges_of_kind(directed, self@.nodes.len()),
    {
        let count = self.nodes.len();
        let mut source: usize = 0;
        while source < count
            invariant
                count == self.nodes.len(),
                source <= count,
                edges@ == old(edges)@ + self@.edges_of_kind(directed, source as nat),
            decreases count - source,
        {
            let mut target: usize = 0;
            while target < count
                invariant
                    count == self.nodes.len(),
                    source < count,
                    target <= count,
                    edges@ == old(edges)@ + self@.edges_of_kind(directed, source as nat)
                        + self@.edges_from(directed, source, target as nat),
                decreases count - target,
            {
                let node = &self.nodes[source];
                let linked = if directed {
                    node.outgoing_directed_edges.contains(&target)
                } else {
                    node.outgoing_undirected_edges.contains(&target)
                };
                if linked {
                    edges.push(
                        Edge {
                            source_node_id: source,
                            destination_node_id: target,
                            is_directed: directed,
                        },
                    );
                }
                target += 1;
            }
            proof {
                assert(edges@ =~= old(edges)@ + self@.edges_of_kind(directed, (source + 1) as nat));
            }
            source += 1;
        }
    }

    /// Derives the edges from the neighbour sets: first the directed ones,
    /// then the undirected ones, each kind by ascending source and target.
    ///
    /// The result depends on the topology alone, so two calls with no change
    /// in between return the same list. The call looks at every pair of
    /// nodes.
    pub fn get_all_edges(&self) -> (edges: Vec<Edge>)
        requires
            self.wf(),
        ensures
            edges@ == self@.all_edges(),
            edges@.no_duplicates(),
            forall|edge: Edge| #[trigger] edges@.contains(edge) <==> is_edge_of(self@, edge),
            forall|k: int|
                0 <= k < edges@.len() ==> {
                    &&& (#[trigger] edges@[k]).source_node_id != edges@[k].destination_node_id
                    &&& edges@[k].source_node_id < self@.nodes.len()
                    &&& edges@[k].destination_node_id < self@.nodes.len()
                },
    {
        let mut edges: Vec<Edge> = Vec::new();
        self.collect_edges(true, &mut edges);
        self.collect_edges(false, &mut edges);
        proof {
            assert(edges@ =~= self@.all_edges());
            lemma_all_edges(self@);
            lemma_no_self_edges(self@);
        }
        edges
    }
}

/// In a well-formed graph a label belongs to one node only, so the id that
/// the index holds is the one that the model names.
pub proof fn lemma_index_of(graph: GraphModel, id: usize, label: Seq<char>)
    requires
        graph.labels_distinct(),
        graph.is_labelled(id as int, label),
    ensures
        graph.has_label(label),
        graph.index_of(label) == id,
{
    let other = graph.index_of(label);
    assert(graph.is_labelled(other as int, label));
    if other < id {
        assert(graph.nodes[other as int].label != graph.nodes[id as int].label);
    } else if id < other {
        assert(graph.nodes[id as int].label != graph.nodes[other as int].label);
    }
}

/// Linking two different nodes of a well-formed graph leaves it well formed.
pub proof fn lemma_link_keeps_wf(graph: GraphModel, directed: bool, from: usize, to: usize)
    requires
        graph.wf(),
        from < graph.nodes.len(),
        to < graph.nodes.len(),
        from != to,
    ensures
        graph.link(directed, from, to).wf(),
{
    let linked = graph.link(directed, from, to);
    assert(linked.nodes.len() == graph.nodes.len());
    assert forall|i: int| 0 <= i < linked.nodes.len() implies (#[trigger] linked.nodes[i]).label
        == graph.nodes[i].label by {}
    assert(linked.labels_distinct());
    assert forall|kind: bool| #[trigger] linked.adjacency_consistent(kind) by {
        assert(graph.adjacency_consistent(kind));
        assert forall|i: int| 0 <= i < linked.nodes.len() implies {
            &&& (#[trigger] linked.nodes[i]).outgoing(kind) == if kind == directed && i == from {
                graph.nodes[i].outgoing(kind).insert(to)
            } else {
                graph.nodes[i].outgoing(kind)
            }
            &&& linked.nodes[i].incoming(kind) == if kind == directed && i == to {
                graph.nodes[i].incoming(kind).insert(from)
            } else {
                graph.nodes[i].incoming(kind)
            }
        } by {}
        assert forall|i: int, target: usize|
            0 <= i < linked.nodes.len() && #[trigger] linked.nodes[i].outgoing(kind).contains(
                target,
            ) implies {
            &&& target < linked.nodes.len()
            &&& target != i
            &&& linked.nodes[target as int].incoming(kind).contains(i as usize)
        } by {
            if !(kind == directed && i == from && target == to) {
                assert(graph.nodes[i].outgoing(kind).contains(target));
            }
        }
        assert forall|i: int, source: usize|
            0 <= i < linked.nodes.len() && #[trigger] linked.nodes[i].incoming(kind).contains(
                source,
            ) implies {
            &&& source < linked.nodes.len()
            &&& source != i
            &&& linked.nodes[source as int].outgoing(kind).contains(i as usize)
        } by {
            if !(kind == directed && i == to && source == from) {
                assert(graph.nodes[i].incoming(kind).contains(source));
            }
        }
    }
    assert(linked.adjacency_consistent(true));
    assert(linked.adjacency_consistent(false));
}

} // verus!
