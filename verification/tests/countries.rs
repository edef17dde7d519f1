use emerge::country::{build_graph, CountryData};
use emerge::graph::{Edge, GraphState, NodeId};

#[test]
fn country_data_holds_first_and_last_letter() {
    let data = CountryData::from_name("Albania".to_string());
    assert_eq!(
        data,
        CountryData { name: "Albania".to_string(), first_letter: 'A', last_letter: 'a' }
    );
    let data = CountryData::from_name("Peru".to_string());
    assert_eq!(data.first_letter, 'P');
    assert_eq!(data.last_letter, 'u');
}

#[test]
fn country_data_of_a_single_letter() {
    let data = CountryData::from_name("X".to_string());
    assert_eq!(data.first_letter, 'X');
    assert_eq!(data.last_letter, 'X');
    assert_eq!(data.name, "X");
}

#[test]
fn country_data_counts_letters_not_bytes() {
    let data = CountryData::from_name("Åland".to_string());
    assert_eq!(data.first_letter, 'Å');
    assert_eq!(data.last_letter, 'd');
    let data = CountryData::from_name("Curaçao é".to_string());
    assert_eq!(data.first_letter, 'C');
    assert_eq!(data.last_letter, 'é');
}

#[test]
fn sample_graph_has_four_countries_and_three_edges() {
    let graph = build_graph();
    assert_eq!(graph.state, GraphState::Building);
    assert_eq!(graph.node_count(), 4);
    assert_eq!(graph.lookup("Albania"), Some(NodeId { id: 0 }));
    assert_eq!(graph.lookup("Cambodia"), Some(NodeId { id: 1 }));
    assert_eq!(graph.lookup("Cameroon"), Some(NodeId { id: 2 }));
    assert_eq!(graph.lookup("Nigeria"), Some(NodeId { id: 3 }));
    assert_eq!(
        graph.get_all_edges(),
        vec![
            Edge { source_node_id: 1, destination_node_id: 0, is_directed: true },
            Edge { source_node_id: 2, destination_node_id: 3, is_directed: true },
            Edge { source_node_id: 3, destination_node_id: 0, is_directed: true },
        ]
    );
    let albania = graph.get_node_by_name("Albania").unwrap();
    assert!(albania.incoming_directed_edges.contains(&1));
    assert!(albania.incoming_directed_edges.contains(&3));
    assert!(albania.outgoing_directed_edges.is_empty());
}
