use emerge::fixed::integer_sqrt;
use emerge::graph::{Edge, Graph, GraphError, GraphState};
use emerge::physics::Config;
use emerge::simulation::{physics_update, spawn_initial, Simulation, SimulationError};
use emerge::vector::{Force, Position, Velocity};

fn at(x: i64, y: i64) -> Position {
    Position { x, y }
}

fn graph_of(labels: &[&str], edges: &[(&str, &str)]) -> Graph {
    let mut graph = Graph::new();
    for label in labels {
        graph.add_node(label).unwrap();
    }
    for (from, to) in edges {
        graph.add_directed_edge(from, to).unwrap();
    }
    graph
}

fn started(labels: &[&str], edges: &[(&str, &str)], layout: Vec<Position>) -> Simulation {
    spawn_initial(graph_of(labels, edges), layout, Config::standard()).ok().unwrap()
}

fn separation(simulation: &Simulation) -> u128 {
    let positions = simulation.node_positions_by_id();
    let dx = (positions[1].x - positions[0].x) as i128;
    let dy = (positions[1].y - positions[0].y) as i128;
    integer_sqrt((dx * dx + dy * dy) as u128)
}

#[test]
fn simulation_starts_frozen_with_the_layout() {
    let simulation = started(&["A", "B"], &[("A", "B")], vec![at(1, 2), at(3, 4)]);
    assert_eq!(simulation.graph().state, GraphState::Simulating);
    assert_eq!(simulation.graph().node_count(), 2);
    assert_eq!(simulation.node_positions_by_id(), &vec![at(1, 2), at(3, 4)]);
    assert_eq!(simulation.node_velocities_by_id(), &vec![Velocity { x: 0, y: 0 }; 2]);
    assert_eq!(simulation.node_forces_by_id(), &vec![Force { x: 0, y: 0 }; 2]);
    assert_eq!(
        simulation.edge_by_id(),
        &vec![Edge { source_node_id: 0, destination_node_id: 1, is_directed: true }]
    );
    assert_eq!(simulation.config(), Config::standard());
}

#[test]
fn simulation_refuses_an_invalid_configuration() {
    let config = Config { dt: 0, ..Config::standard() };
    let result = spawn_initial(graph_of(&["A"], &[]), vec![at(0, 0)], config);
    assert_eq!(result.err(), Some(SimulationError::InvalidConfig));
}

#[test]
fn simulation_refuses_a_layout_of_the_wrong_length() {
    let result = spawn_initial(graph_of(&["A", "B"], &[]), vec![at(0, 0)], Config::standard());
    assert_eq!(result.err(), Some(SimulationError::LayoutMismatch));
    let result = spawn_initial(graph_of(&[], &[]), vec![at(0, 0)], Config::standard());
    assert_eq!(result.err(), Some(SimulationError::LayoutMismatch));
}

#[test]
fn simulation_refuses_a_position_outside_the_world() {
    let layout = vec![at(0, 0), at(0, 1_000_000_000_001)];
    let result = spawn_initial(graph_of(&["A", "B"], &[]), layout, Config::standard());
    assert_eq!(result.err(), Some(SimulationError::PositionOutOfWorld));
}

#[test]
fn invalid_configuration_is_reported_before_the_layout() {
    let config = Config { spring_constant: -5, ..Config::standard() };
    let result = spawn_initial(graph_of(&["A"], &[]), vec![], config);
    assert_eq!(result.err(), Some(SimulationError::InvalidConfig));
}

#[test]
fn empty_simulation_steps_without_effect() {
    let mut simulation = started(&[], &[], vec![]);
    physics_update(&mut simulation);
    assert!(simulation.node_positions_by_id().is_empty());
    assert!(simulation.node_forces_by_id().is_empty());
}

#[test]
fn single_node_stays_where_it_is() {
    let mut simulation = started(&["A"], &[], vec![at(123, -456)]);
    for _ in 0..10 {
        physics_update(&mut simulation);
    }
    assert_eq!(simulation.node_positions_by_id(), &vec![at(123, -456)]);
    assert_eq!(simulation.node_forces_by_id(), &vec![Force { x: 0, y: 0 }]);
}

#[test]
fn stretched_edge_pulls_both_ends_together() {
    let mut simulation =
        started(&["A", "B"], &[("A", "B")], vec![at(0, 0), at(300_000, 0)]);
    physics_update(&mut simulation);
    assert_eq!(
        simulation.node_forces_by_id(),
        &vec![Force { x: 200_000, y: 0 }, Force { x: -200_000, y: 0 }]
    );
    assert_eq!(simulation.node_positions_by_id(), &vec![at(1_000, 0), at(299_000, 0)]);
}

#[test]
fn direction_of_the_edge_does_not_matter_to_the_spring() {
    let mut forward = started(&["A", "B"], &[("A", "B")], vec![at(0, 0), at(0, 400_000)]);
    let mut backward = started(&["A", "B"], &[("B", "A")], vec![at(0, 0), at(0, 400_000)]);
    physics_update(&mut forward);
    physics_update(&mut backward);
    assert_eq!(forward.node_forces_by_id(), backward.node_forces_by_id());
    assert_eq!(forward.node_positions_by_id(), backward.node_positions_by_id());
    assert_eq!(forward.node_forces_by_id()[0], Force { x: 0, y: 300_000 });
}

#[test]
fn undirected_edge_pulls_like_a_directed_one() {
    let mut graph = graph_of(&["A", "B"], &[]);
    graph.add_undirected_edge("A", "B").unwrap();
    let mut simulation =
        spawn_initial(graph, vec![at(0, 0), at(300_000, 0)], Config::standard()).ok().unwrap();
    physics_update(&mut simulation);
    assert_eq!(
        simulation.node_forces_by_id(),
        &vec![Force { x: 200_000, y: 0 }, Force { x: -200_000, y: 0 }]
    );
}

#[test]
fn every_edge_between_a_pair_contributes() {
    let mut graph = graph_of(&["A", "B"], &[("A", "B"), ("B", "A")]);
    graph.add_undirected_edge("A", "B").unwrap();
    let mut simulation =
        spawn_initial(graph, vec![at(0, 0), at(300_000, 0)], Config::standard()).ok().unwrap();
    physics_update(&mut simulation);
    assert_eq!(
        simulation.node_forces_by_id(),
        &vec![Force { x: 600_000, y: 0 }, Force { x: -600_000, y: 0 }]
    );
}

#[test]
fn forces_accumulate_over_the_edges_of_a_node() {
    let mut simulation = started(
        &["hub", "east", "north"],
        &[("hub", "east"), ("hub", "north")],
        vec![at(0, 0), at(300_000, 0), at(0, 500_000)],
    );
    physics_update(&mut simulation);
    let forces = simulation.node_forces_by_id();
    assert_eq!(forces[0], Force { x: 200_000, y: 400_000 });
    assert_eq!(forces[1], Force { x: -200_000, y: 0 });
    assert_eq!(forces[2], Force { x: 0, y: -400_000 });
}

#[test]
fn nodes_in_range_push_each_other_apart_equally() {
    let mut simulation = started(&["A", "B"], &[], vec![at(0, 0), at(10_000, 0)]);
    physics_update(&mut simulation);
    let forces = simulation.node_forces_by_id();
    assert_eq!(forces[0], Force { x: -200_000, y: 0 });
    assert_eq!(forces[1], Force { x: 200_000, y: 0 });
    assert_eq!(simulation.node_positions_by_id(), &vec![at(-1_000, 0), at(11_000, 0)]);
}

#[test]
fn nodes_out_of_range_do_not_push_each_other() {
    let mut simulation = started(&["A", "B"], &[], vec![at(0, 0), at(100_000, 0)]);
    physics_update(&mut simulation);
    assert_eq!(simulation.node_forces_by_id(), &vec![Force { x: 0, y: 0 }; 2]);
    assert_eq!(simulation.node_positions_by_id(), &vec![at(0, 0), at(100_000, 0)]);
}

#[test]
fn forces_of_a_step_sum_to_zero() {
    let mut simulation = started(
        &["A", "B", "C", "D", "E"],
        &[("A", "B"), ("B", "C"), ("C", "A"), ("D", "A"), ("E", "D")],
        vec![at(0, 0), at(31_000, 17_000), at(-45_000, 60_000), at(250_000, -90_000), at(5_000, -3_000)],
    );
    for _ in 0..25 {
        physics_update(&mut simulation);
        let forces = simulation.node_forces_by_id();
        let x: i128 = forces.iter().map(|force| force.x).sum();
        let y: i128 = forces.iter().map(|force| force.y).sum();
        assert_eq!((x, y), (0, 0));
        assert!(forces.iter().any(|force| force.x != 0 || force.y != 0));
    }
}

#[test]
fn coincident_nodes_are_skipped() {
    let mut simulation =
        started(&["A", "B"], &[("A", "B")], vec![at(7_000, 7_000), at(7_000, 7_000)]);
    physics_update(&mut simulation);
    assert_eq!(simulation.node_forces_by_id(), &vec![Force { x: 0, y: 0 }; 2]);
    assert_eq!(simulation.node_positions_by_id(), &vec![at(7_000, 7_000); 2]);
}

#[test]
fn forces_are_cleared_at_the_start_of_each_step() {
    let mut simulation =
        started(&["A", "B"], &[("A", "B")], vec![at(0, 0), at(300_000, 0)]);
    physics_update(&mut simulation);
    physics_update(&mut simulation);
    assert_eq!(
        simulation.node_forces_by_id(),
        &vec![Force { x: 198_000, y: 0 }, Force { x: -198_000, y: 0 }]
    );
    assert_eq!(simulation.node_positions_by_id(), &vec![at(1_990, 0), at(298_010, 0)]);
}

#[test]
fn initial_force_of_a_node_does_not_survive_the_first_step() {
    let mut graph = graph_of(&["A"], &[]);
    graph.nodes[0].physics_data.force = Force { x: 999, y: -999 };
    let mut simulation = spawn_initial(graph, vec![at(0, 0)], Config::standard()).ok().unwrap();
    assert_eq!(simulation.node_forces_by_id(), &vec![Force { x: 999, y: -999 }]);
    physics_update(&mut simulation);
    assert_eq!(simulation.node_forces_by_id(), &vec![Force { x: 0, y: 0 }]);
    assert_eq!(simulation.node_positions_by_id(), &vec![at(0, 0)]);
}

#[test]
fn velocity_moves_a_node_and_is_never_changed() {
    let mut graph = graph_of(&["A"], &[]);
    graph.nodes[0].physics_data.velocity = Velocity { x: 50_000, y: -20_000 };
    let mut simulation = spawn_initial(graph, vec![at(0, 0)], Config::standard()).ok().unwrap();
    physics_update(&mut simulation);
    assert_eq!(simulation.node_positions_by_id(), &vec![at(5_000, -2_000)]);
    physics_update(&mut simulation);
    assert_eq!(simulation.node_positions_by_id(), &vec![at(10_000, -4_000)]);
    assert_eq!(simulation.node_velocities_by_id(), &vec![Velocity { x: 50_000, y: -20_000 }]);
}

#[test]
fn nodes_stop_at_the_border_of_the_world() {
    let mut graph = graph_of(&["A", "B"], &[]);
    graph.nodes[0].physics_data.velocity = Velocity { x: i64::MAX, y: i64::MIN };
    let config = Config { dt: 10_000, ..Config::standard() };
    let mut simulation =
        spawn_initial(graph, vec![at(0, 0), at(999_999_999_999, 0)], config).ok().unwrap();
    for _ in 0..3 {
        physics_update(&mut simulation);
        assert_eq!(
            simulation.node_positions_by_id(),
            &vec![at(1_000_000_000_000, -1_000_000_000_000), at(999_999_999_999, 0)]
        );
    }
}

#[test]
fn two_node_spring_settles_towards_the_rest_length() {
    let mut simulation =
        started(&["A", "B"], &[("A", "B")], vec![at(-150_000, 40_000), at(250_000, -260_000)]);
    let mut last = separation(&simulation);
    assert_eq!(last, 500_000);
    for _ in 0..2_000 {
        physics_update(&mut simulation);
        let now = separation(&simulation);
        assert!(now <= last);
        assert!(now >= 100_000);
        for position in simulation.node_positions_by_id() {
            assert!(position.is_in_world());
        }
        last = now;
    }
    assert!(last < 101_000);
}

#[test]
fn compressed_two_node_spring_opens_towards_the_rest_length() {
    let config = Config { repulsion_cutoff: 0, ..Config::standard() };
    let graph = graph_of(&["A", "B"], &[("A", "B")]);
    let mut simulation = spawn_initial(graph, vec![at(0, 0), at(20_000, 0)], config).ok().unwrap();
    let mut last = separation(&simulation);
    for _ in 0..2_000 {
        physics_update(&mut simulation);
        let now = separation(&simulation);
        assert!(now >= last);
        assert!(now <= 100_000);
        last = now;
    }
    assert!(last > 99_000);
}

#[test]
fn topology_is_frozen_while_simulating() {
    let mut simulation = started(&["A", "B"], &[("A", "B")], vec![at(0, 0), at(300_000, 0)]);
    let edges_before = simulation.graph().get_all_edges();
    physics_update(&mut simulation);
    assert_eq!(simulation.graph().get_all_edges(), edges_before);
    assert_eq!(simulation.edge_by_id(), &edges_before);
    assert_eq!(simulation.graph().node_count(), 2);
    let mut frozen = graph_of(&["A", "B"], &[]);
    frozen.freeze();
    assert_eq!(frozen.add_node("C"), Err(GraphError::TopologyFrozen));
    let restarted = spawn_initial(frozen, vec![at(0, 0), at(1, 1)], Config::standard());
    assert!(restarted.is_ok());
}

#[test]
fn same_start_gives_the_same_run() {
    let labels = ["A", "B", "C", "D"];
    let edges = [("A", "B"), ("B", "C"), ("C", "D"), ("D", "A")];
    let layout = vec![at(0, 0), at(50_000, 10_000), at(-20_000, 70_000), at(400_000, 400_000)];
    let mut first = started(&labels, &edges, layout.clone());
    let mut second = started(&labels, &edges, layout);
    for _ in 0..50 {
        physics_update(&mut first);
        physics_update(&mut second);
    }
    assert_eq!(first.node_positions_by_id(), second.node_positions_by_id());
    assert_eq!(first.node_forces_by_id(), second.node_forces_by_id());
}

#[test]
fn spring_pair_on_a_line_never_overshoots() {
    let mut simulation =
        started(&["A", "B"], &[("B", "A")], vec![at(-40_000, 5_000), at(460_000, 5_000)]);
    let mut last: i64 = 500_000;
    for _ in 0..3_000 {
        let before = simulation.node_positions_by_id().clone();
        physics_update(&mut simulation);
        let positions = simulation.node_positions_by_id();
        assert_eq!(positions[0].y, 5_000);
        assert_eq!(positions[1].y, 5_000);
        assert_eq!(positions[0].x - before[0].x, before[1].x - positions[1].x);
        let now = positions[1].x - positions[0].x;
        assert!(100_000 <= now && now <= last);
        let forces = simulation.node_forces_by_id();
        assert_eq!(forces[0], Force { x: (last as i128) - 100_000, y: 0 });
        assert_eq!(forces[1], Force { x: 100_000 - (last as i128), y: 0 });
        last = now;
    }
    assert_eq!(last, 100_198);
}
