use emerge::graph::{Edge, Graph, GraphError, GraphState, NodeId};

#[test]
fn should_add_node() {
    let mut graph = Graph::new();

    let _ = graph.add_node("A");
    let _ = graph.add_node("B");
    let _ = graph.add_node("C");
    let _ = graph.add_node("D");

    assert_eq!(graph.nodes.len(), 4);
}

#[test]
fn should_maintain_incoming_and_outgoing_edges() {
    let mut graph = Graph::new();

    let _ = graph.add_node("A");
    let _ = graph.add_node("B");
    let _ = graph.add_directed_edge("A", "B");

    let node_a = graph.get_node_by_name("A").unwrap();
    let node_b = graph.get_node_by_name("B").unwrap();

    assert!(node_a.outgoing_directed_edges.contains(&node_b.id));
    assert!(node_b.incoming_directed_edges.contains(&node_a.id));
}

#[test]
fn ids_follow_insertion_order() {
    let mut graph = Graph::new();
    let labels = ["zeta", "alpha", "mu", "beta", "omega"];
    for (index, label) in labels.iter().enumerate() {
        assert_eq!(graph.add_node(label), Ok(NodeId { id: index }));
    }
    assert_eq!(graph.node_count(), 5);
    for (index, label) in labels.iter().enumerate() {
        assert_eq!(graph.lookup(label), Some(NodeId { id: index }));
        assert_eq!(graph.nodes[index].id, index);
        assert_eq!(graph.nodes[index].label, *label);
    }
}

#[test]
fn empty_graph_has_no_nodes_and_no_edges() {
    let graph = Graph::new();
    assert_eq!(graph.node_count(), 0);
    assert_eq!(graph.get_all_edges(), vec![]);
    assert_eq!(graph.lookup("A"), None);
    assert_eq!(graph.state, GraphState::Building);
}

#[test]
fn lookup_of_unknown_label_is_none() {
    let mut graph = Graph::new();
    let _ = graph.add_node("A");
    assert_eq!(graph.lookup("B"), None);
    assert!(graph.get_node_by_name("B").is_none());
}

#[test]
fn duplicate_label_is_rejected() {
    let mut graph = Graph::new();
    assert_eq!(graph.add_node("A"), Ok(NodeId { id: 0 }));
    assert_eq!(graph.add_node("A"), Err(GraphError::DuplicateLabel));
    assert_eq!(graph.node_count(), 1);
    assert_eq!(graph.lookup("A"), Some(NodeId { id: 0 }));
    assert_eq!(graph.add_node("B"), Ok(NodeId { id: 1 }));
}

#[test]
fn new_node_is_at_rest_with_default_radius() {
    let mut graph = Graph::new();
    let _ = graph.add_node("A");
    let node = graph.get_node_by_name("A").unwrap();
    assert_eq!(node.physics_data.velocity.x, 0);
    assert_eq!(node.physics_data.velocity.y, 0);
    assert_eq!(node.physics_data.force.x, 0);
    assert_eq!(node.physics_data.force.y, 0);
    assert_eq!(node.physics_data.size.radius, 15_000);
    assert!(node.outgoing_directed_edges.is_empty());
    assert!(node.incoming_directed_edges.is_empty());
    assert!(node.outgoing_undirected_edges.is_empty());
    assert!(node.incoming_undirected_edges.is_empty());
}

#[test]
fn directed_edge_appears_exactly_once() {
    let mut graph = Graph::new();
    let _ = graph.add_node("A");
    let _ = graph.add_node("B");
    assert_eq!(graph.add_directed_edge("A", "B"), Ok(()));
    let expected = Edge { source_node_id: 0, destination_node_id: 1, is_directed: true };
    assert_eq!(graph.get_all_edges(), vec![expected]);
    assert_eq!(graph.add_directed_edge("A", "B"), Ok(()));
    assert_eq!(graph.get_all_edges(), vec![expected]);
}

#[test]
fn self_edges_are_never_observable() {
    let mut graph = Graph::new();
    let _ = graph.add_node("A");
    let _ = graph.add_node("B");
    assert_eq!(graph.add_directed_edge("A", "A"), Ok(()));
    assert_eq!(graph.add_undirected_edge("B", "B"), Ok(()));
    assert_eq!(graph.add_edge_by_name("A", "A"), Ok(()));
    assert_eq!(graph.add_edge(1, 1), Ok(()));
    assert_eq!(graph.get_all_edges(), vec![]);
    let _ = graph.add_directed_edge("A", "B");
    let _ = graph.add_undirected_edge("B", "A");
    for edge in graph.get_all_edges() {
        assert_ne!(edge.source_node_id, edge.destination_node_id);
    }
}

#[test]
fn unknown_label_leaves_counts_unchanged() {
    let mut graph = Graph::new();
    let _ = graph.add_node("A");
    let _ = graph.add_node("B");
    let _ = graph.add_directed_edge("A", "B");
    assert_eq!(graph.add_directed_edge("A", "nowhere"), Ok(()));
    assert_eq!(graph.add_directed_edge("nowhere", "B"), Ok(()));
    assert_eq!(graph.add_undirected_edge("nowhere", "elsewhere"), Ok(()));
    assert_eq!(graph.add_edge_by_name("A", "nowhere"), Ok(()));
    assert_eq!(graph.node_count(), 2);
    assert_eq!(graph.get_all_edges().len(), 1);
}

#[test]
fn undirected_edge_is_recorded_on_both_ends() {
    let mut graph = Graph::new();
    let _ = graph.add_node("A");
    let _ = graph.add_node("B");
    assert_eq!(graph.add_undirected_edge("B", "A"), Ok(()));
    assert!(graph.nodes[1].outgoing_undirected_edges.contains(&0));
    assert!(graph.nodes[0].incoming_undirected_edges.contains(&1));
    assert!(graph.nodes[0].outgoing_directed_edges.is_empty());
    assert_eq!(
        graph.get_all_edges(),
        vec![Edge { source_node_id: 1, destination_node_id: 0, is_directed: false }]
    );
}

#[test]
fn edges_come_directed_first_then_by_source_and_target() {
    let mut graph = Graph::new();
    for label in ["A", "B", "C", "D"] {
        let _ = graph.add_node(label);
    }
    let _ = graph.add_undirected_edge("A", "D");
    let _ = graph.add_directed_edge("C", "B");
    let _ = graph.add_directed_edge("A", "D");
    let _ = graph.add_directed_edge("C", "A");
    let _ = graph.add_directed_edge("A", "B");
    assert_eq!(
        graph.get_all_edges(),
        vec![
            Edge { source_node_id: 0, destination_node_id: 1, is_directed: true },
            Edge { source_node_id: 0, destination_node_id: 3, is_directed: true },
            Edge { source_node_id: 2, destination_node_id: 0, is_directed: true },
            Edge { source_node_id: 2, destination_node_id: 1, is_directed: true },
            Edge { source_node_id: 0, destination_node_id: 3, is_directed: false },
        ]
    );
}

#[test]
fn get_all_edges_is_idempotent() {
    let mut graph = Graph::new();
    for label in ["A", "B", "C"] {
        let _ = graph.add_node(label);
    }
    let _ = graph.add_directed_edge("A", "B");
    let _ = graph.add_directed_edge("B", "C");
    let _ = graph.add_undirected_edge("C", "A");
    let first = graph.get_all_edges();
    let second = graph.get_all_edges();
    assert_eq!(first, second);
    assert_eq!(first.len(), 3);
}

#[test]
fn add_edge_by_index_links_both_ends() {
    let mut graph = Graph::new();
    let _ = graph.add_node("A");
    let _ = graph.add_node("B");
    assert_eq!(graph.add_edge(1, 0), Ok(()));
    assert!(graph.nodes[1].outgoing_directed_edges.contains(&0));
    assert!(graph.nodes[0].incoming_directed_edges.contains(&1));
    assert_eq!(
        graph.get_all_edges(),
        vec![Edge { source_node_id: 1, destination_node_id: 0, is_directed: true }]
    );
}

#[test]
fn frozen_graph_refuses_structural_changes() {
    let mut graph = Graph::new();
    let _ = graph.add_node("A");
    let _ = graph.add_node("B");
    let _ = graph.add_directed_edge("A", "B");
    graph.freeze();
    assert_eq!(graph.state, GraphState::Simulating);
    assert_eq!(graph.add_node("C"), Err(GraphError::TopologyFrozen));
    assert_eq!(graph.add_node("A"), Err(GraphError::TopologyFrozen));
    assert_eq!(graph.add_directed_edge("B", "A"), Err(GraphError::TopologyFrozen));
    assert_eq!(graph.add_undirected_edge("B", "A"), Err(GraphError::TopologyFrozen));
    assert_eq!(graph.add_edge_by_name("B", "A"), Err(GraphError::TopologyFrozen));
    assert_eq!(graph.add_edge(1, 0), Err(GraphError::TopologyFrozen));
    assert_eq!(graph.node_count(), 2);
    assert_eq!(
        graph.get_all_edges(),
        vec![Edge { source_node_id: 0, destination_node_id: 1, is_directed: true }]
    );
    graph.freeze();
    assert_eq!(graph.state, GraphState::Simulating);
}
