//! Conservation of momentum: the net forces of a step cancel.
//!
//! Every spring acts on its two ends with opposite forces, and so does every
//! pair of nodes that repel each other. Summed over all nodes nothing is
//! left.

use crate::graph::Edge;
use crate::graph_laws::lemma_no_self_edges;
use crate::physics::Config;
use crate::physics_laws::lemma_push_is_mutual;
use crate::simulation::{
    attraction, edge_pull, edges_within, net_force, push, repulsion_sum, SimulationModel,
};
use crate::vector::{Position, Vector};
use vstd::prelude::*;

verus! {

/// The sum of the first `count` forces.
pub open spec fn total_force(forces: Seq<Vector>, count: nat) -> Vector
    decreases count,
{
    if count == 0 {
        Vector::zero()
    } else {
        total_force(forces, (count - 1) as nat).plus(forces[count - 1])
    }
}

/// What one edge does to the first `rows` nodes, summed.
pub open spec fn pull_sum(config: Config, positions: Seq<Position>, edge: Edge, rows: nat) -> Vector
    decreases rows,
{
    if rows == 0 {
        Vector::zero()
    } else {
        pull_sum(config, positions, edge, (rows - 1) as nat).plus(
            edge_pull(config, positions, edge, rows - 1),
        )
    }
}

/// What the first `count` edges do to the first `rows` nodes, summed.
pub open spec fn total_attraction(
    config: Config,
    positions: Seq<Position>,
    edges: Seq<Edge>,
    rows: nat,
    count: nat,
) -> Vector
    decreases rows,
{
    if rows == 0 {
        Vector::zero()
    } else {
        total_attraction(config, positions, edges, (rows - 1) as nat, count).plus(
            attraction(config, positions, edges, rows - 1, count),
        )
    }
}

/// What the first `rows` nodes do to the node `node`, summed.
pub open spec fn column_sum(config: Config, positions: Seq<Position>, node: int, rows: nat) -> Vector
    decreases rows,
{
    if rows == 0 {
        Vector::zero()
    } else {
        column_sum(config, positions, node, (rows - 1) as nat).plus(
            push(config, positions, rows - 1, node),
        )
    }
}

/// What the first `count` nodes do to the first `rows` nodes, summed.
pub open spec fn total_repulsion(
    config: Config,
    positions: Seq<Position>,
    rows: nat,
    count: nat,
) -> Vector
    decreases rows,
{
    if rows == 0 {
        Vector::zero()
    } else {
        total_repulsion(config, positions, (rows - 1) as nat, count).plus(
            repulsion_sum(config, positions, rows - 1, count),
        )
    }
}

/// An edge between two different nodes adds nothing to the sum of the
/// forces once both of its ends are counted.
pub proof fn lemma_pull_sum(config: Config, positions: Seq<Position>, edge: Edge, rows: nat)
    requires
        edge.source_node_id != edge.destination_node_id,
    ensures
        pull_sum(config, positions, edge, rows) == (if edge.source_node_id < rows {
            edge_pull(config, positions, edge, edge.source_node_id as int)
        } else {
            Vector::zero()
        }).plus(
            if edge.destination_node_id < rows {
                edge_pull(config, positions, edge, edge.destination_node_id as int)
            } else {
                Vector::zero()
            },
        ),
        edge.source_node_id < rows && edge.destination_node_id < rows ==> pull_sum(
            config,
            positions,
            edge,
            rows,
        ) == Vector::zero(),
    decreases rows,
{
    if rows > 0 {
        lemma_pull_sum(config, positions, edge, (rows - 1) as nat);
    }
}

/// One more edge adds its pulls to the sum.
pub proof fn lemma_total_attraction_next(
    config: Config,
    positions: Seq<Position>,
    edges: Seq<Edge>,
    rows: nat,
    count: nat,
)
    ensures
        total_attraction(config, positions, edges, rows, count + 1) == total_attraction(
            config,
            positions,
            edges,
            rows,
            count,
        ).plus(pull_sum(config, positions, edges[count as int], rows)),
    decreases rows,
{
    if rows > 0 {
        lemma_total_attraction_next(config, positions, edges, (rows - 1) as nat, count);
        assert(attraction(config, positions, edges, rows - 1, count + 1) == attraction(
            config,
            positions,
            edges,
            rows - 1,
            count,
        ).plus(edge_pull(config, positions, edges[count as int], rows - 1)));
    }
}

/// The pulls of the edges cancel over the nodes.
pub proof fn lemma_attraction_cancels(
    config: Config,
    positions: Seq<Position>,
    edges: Seq<Edge>,
    count: nat,
)
    requires
        edges_within(edges, positions.len()),
        forall|k: int|
            0 <= k < edges.len() ==> (#[trigger] edges[k]).source_node_id
                != edges[k].destination_node_id,
        count <= edges.len(),
    ensures
        total_attraction(config, positions, edges, positions.len(), count) == Vector::zero(),
    decreases count,
{
    let rows = positions.len();
    if count == 0 {
        lemma_no_attraction(config, positions, edges, rows);
    } else {
        lemma_attraction_cancels(config, positions, edges, (count - 1) as nat);
        lemma_total_attraction_next(config, positions, edges, rows, (count - 1) as nat);
        let edge = edges[count - 1];
        lemma_pull_sum(config, positions, edge, rows);
    }
}

/// Without edges there is no attraction.
pub proof fn lemma_no_attraction(
    config: Config,
    positions: Seq<Position>,
    edges: Seq<Edge>,
    rows: nat,
)
    ensures
        total_attraction(config, positions, edges, rows, 0) == Vector::zero(),
    decreases rows,
{
    if rows > 0 {
        lemma_no_attraction(config, positions, edges, (rows - 1) as nat);
    }
}

/// What a node suffers from the first `rows` nodes is the opposite of what
/// it does to them.
pub proof fn lemma_column_is_opposite_row(
    config: Config,
    positions: Seq<Position>,
    node: int,
    rows: nat,
)
    ensures
        column_sum(config, positions, node, rows) == repulsion_sum(
            config,
            positions,
            node,
            rows,
        ).negated(),
    decreases rows,
{
    if rows > 0 {
        lemma_column_is_opposite_row(config, positions, node, (rows - 1) as nat);
        lemma_push_is_mutual(config, positions, rows - 1, node);
    }
}

/// One more node adds what it does to the others to the sum.
pub proof fn lemma_total_repulsion_next(
    config: Config,
    positions: Seq<Position>,
    rows: nat,
    count: nat,
)
    ensures
        total_repulsion(config, positions, rows, count + 1) == total_repulsion(
            config,
            positions,
            rows,
            count,
        ).plus(column_sum(config, positions, count as int, rows)),
    decreases rows,
{
    if rows > 0 {
        lemma_total_repulsion_next(config, positions, (rows - 1) as nat, count);
        assert(repulsion_sum(config, positions, rows - 1, count + 1) == repulsion_sum(
            config,
            positions,
            rows - 1,
            count,
        ).plus(push(config, positions, rows - 1, count as int)));
    }
}

/// The pushes among the first `count` nodes cancel.
pub proof fn lemma_repulsion_cancels(config: Config, positions: Seq<Position>, count: nat)
    ensures
        total_repulsion(config, positions, count, count) == Vector::zero(),
    decreases count,
{
    if count > 0 {
        let before = (count - 1) as nat;
        lemma_repulsion_cancels(config, positions, before);
        lemma_total_repulsion_next(config, positions, before, before);
        lemma_column_is_opposite_row(config, positions, before as int, before);
        assert(repulsion_sum(config, positions, before as int, count) == repulsion_sum(
            config,
            positions,
            before as int,
            before,
        ).plus(push(config, positions, before as int, before as int)));
    }
}

/// The sum of the net forces is the sum of all pulls and all pushes.
pub proof fn lemma_total_of_net_forces(state: SimulationModel, rows: nat)
    requires
        rows <= state.positions.len(),
    ensures
        total_force(state.net_forces(), rows) == total_attraction(
            state.config,
            state.positions,
            state.graph.all_edges(),
            rows,
            state.graph.all_edges().len(),
        ).plus(total_repulsion(state.config, state.positions, rows, state.positions.len())),
    decreases rows,
{
    if rows > 0 {
        lemma_total_of_net_forces(state, (rows - 1) as nat);
        assert(state.net_forces()[rows - 1] == net_force(
            state.config,
            state.positions,
            state.graph.all_edges(),
            rows - 1,
        ));
    }
}

/// The net forces that a step computes add up to zero: every force on one
/// node is matched by the opposite force on another.
pub proof fn lemma_net_forces_cancel(state: SimulationModel)
    requires
        state.wf(),
    ensures
        total_force(state.net_forces(), state.positions.len()) == Vector::zero(),
        total_force(state.step().forces, state.step().forces.len()) == Vector::zero(),
{
    let edges = state.graph.all_edges();
    let count = state.positions.len();
    lemma_no_self_edges(state.graph);
    lemma_total_of_net_forces(state, count);
    lemma_attraction_cancels(state.config, state.positions, edges, edges.len());
    lemma_repulsion_cancels(state.config, state.positions, count);
}

} // verus!
