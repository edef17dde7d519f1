//! The simulation: a frozen graph, the state of its nodes in arrays indexed
//! by node id, and the step that moves them.
//!
//! One step clears the forces, adds the pull of every edge to both of its
//! ends, adds to every node the push of every other node in range, and then
//! moves every node. Velocities are never changed by a step: the layout is a
//! damped relaxation of positions, not a simulation of momentum.

use crate::fixed::{
    lemma_trunc_div_at_least, lemma_trunc_div_bound, lemma_trunc_div_odd, magnitude, SCALE,
};
use crate::graph::{Edge, Graph, GraphModel, GraphState};
use crate::graph_laws::lemma_no_self_edges;
use crate::momentum::{lemma_net_forces_cancel, total_force};
use crate::physics::{
    calculate_electrostatic_forces_between_nodes, calculate_spring_forces_between_nodes,
    is_in_range, lemma_electrostatic_force_bounded, lemma_spring_force_bounded,
    moved, moved_coordinate, repulsion, spring_force, Config, CONTRIBUTION_LIMIT, DECISIVE_FORCE,
    MAX_TIME_STEP,
};
use crate::vector::{Force, Position, Vector, Velocity, WORLD_LIMIT};
use vstd::prelude::*;

verus! {

/// Why a simulation could not be started.
#[derive(Clone, Copy, Debug, PartialEq, Eq, Structural)]
pub enum SimulationError {
    /// A parameter of the configuration is out of range.
    InvalidConfig,
    /// The layout does not hold one position for each node.
    LayoutMismatch,
    /// A position of the layout lies outside the world.
    PositionOutOfWorld,
}

/// What `edge` contributes to the force on `node`: the pull of its spring
/// if `node` is its source, the exact opposite if `node` is its
/// destination, nothing otherwise.
pub open spec fn edge_pull(config: Config, positions: Seq<Position>, edge: Edge, node: int) -> Vector {
    let pull = spring_force(
        config,
        positions[edge.destination_node_id as int],
        positions[edge.source_node_id as int],
    );
    if edge.source_node_id == node {
        pull
    } else if edge.destination_node_id == node {
        pull.negated()
    } else {
        Vector::zero()
    }
}

/// The sum of what the first `count` edges contribute to the force on
/// `node`.
pub open spec fn attraction(
    config: Config,
    positions: Seq<Position>,
    edges: Seq<Edge>,
    node: int,
    count: nat,
) -> Vector
    decreases count,
{
    if count == 0 {
        Vector::zero()
    } else {
        attraction(config, positions, edges, node, (count - 1) as nat).plus(
            edge_pull(config, positions, edges[count - 1], node),
        )
    }
}

/// What the node `other` contributes to the force on `node`: its repulsion,
/// unless the two are the same node.
pub open spec fn push(config: Config, positions: Seq<Position>, node: int, other: int) -> Vector {
    if other == node {
        Vector::zero()
    } else {
        repulsion(config, positions[node], positions[other])
    }
}

/// The sum of what the first `count` nodes contribute to the force on
/// `node`.
pub open spec fn repulsion_sum(
    config: Config,
    positions: Seq<Position>,
    node: int,
    count: nat,
) -> Vector
    decreases count,
{
    if count == 0 {
        Vector::zero()
    } else {
        repulsion_sum(config, positions, node, (count - 1) as nat).plus(
            push(config, positions, node, count - 1),
        )
    }
}

/// The net force on `node`: the pull of every edge and the push of every
/// other node.
pub open spec fn net_force(
    config: Config,
    positions: Seq<Position>,
    edges: Seq<Edge>,
    node: int,
) -> Vector {
    attraction(config, positions, edges, node, edges.len()).plus(
        repulsion_sum(config, positions, node, positions.len()),
    )
}

/// Whether every position lies inside the world.
pub open spec fn all_in_world(positions: Seq<Position>) -> bool {
    forall|i: int| 0 <= i < positions.len() ==> (#[trigger] positions[i]).in_world()
}

/// Whether both ends of every edge are ids below `count`.
pub open spec fn edges_within(edges: Seq<Edge>, count: nat) -> bool {
    forall|k: int|
        0 <= k < edges.len() ==> (#[trigger] edges[k]).source_node_id < count
            && edges[k].destination_node_id < count
}

/// What a simulation is, mathematically.
pub struct SimulationModel {
    pub graph: GraphModel,
    pub positions: Seq<Position>,
    pub velocities: Seq<Velocity>,
    pub forces: Seq<Vector>,
    pub config: Config,
}

impl SimulationModel {
    /// The invariant: a well-formed frozen graph, one position, velocity and
    /// force for each node, a valid configuration, every node in the world.
    pub open spec fn wf(self) -> bool {
        &&& self.graph.wf()
        &&& self.graph.state == GraphState::Simulating
        &&& self.positions.len() == self.graph.nodes.len()
        &&& self.velocities.len() == self.graph.nodes.len()
        &&& self.forces.len() == self.graph.nodes.len()
        &&& self.config.valid()
        &&& all_in_world(self.positions)
    }

    /// The state in which a simulation starts: the graph frozen, the nodes
    /// where the layout puts them, with the velocity and the force that each
    /// node carries.
    pub open spec fn initial(graph: GraphModel, layout: Seq<Position>, config: Config) -> SimulationModel {
        SimulationModel {
            graph: graph.frozen(),
            positions: layout,
            velocities: Seq::new(graph.nodes.len(), |i: int| graph.nodes[i].physics_data.velocity),
            forces: Seq::new(graph.nodes.len(), |i: int| graph.nodes[i].physics_data.force@),
            config,
        }
    }

    /// The net force on each node in this state.
    pub open spec fn net_forces(self) -> Seq<Vector> {
        Seq::new(
            self.positions.len(),
            |i: int| net_force(self.config, self.positions, self.graph.all_edges(), i),
        )
    }

    /// The state after one step: every force is the net force on its node,
    /// and every node has moved under that force. Topology, velocities and
    /// configuration stay as they are.
    pub open spec fn step(self) -> SimulationModel {
        let forces = self.net_forces();
        SimulationModel {
            forces,
            positions: Seq::new(
                self.positions.len(),
                |i: int| moved(self.config, self.positions[i], self.velocities[i], forces[i]),
            ),
            ..self
        }
    }
}

/// The pull of the first `count` edges on a node is no larger than `count`
/// times the limit of one contribution.
pub proof fn lemma_attraction_bounded(
    config: Config,
    positions: Seq<Position>,
    edges: Seq<Edge>,
    node: int,
    count: nat,
)
    requires
        config.valid(),
        all_in_world(positions),
        edges_within(edges, positions.len()),
        count <= edges.len(),
    ensures
        attraction(config, positions, edges, node, count).within(count * CONTRIBUTION_LIMIT),
    decreases count,
{
    if count > 0 {
        lemma_attraction_bounded(config, positions, edges, node, (count - 1) as nat);
        let edge = edges[count - 1];
        lemma_spring_force_bounded(
            config,
            positions[edge.destination_node_id as int],
            positions[edge.source_node_id as int],
        );
        assert(count * CONTRIBUTION_LIMIT == (count - 1) * CONTRIBUTION_LIMIT + CONTRIBUTION_LIMIT)
            by (nonlinear_arith);
    }
}

/// The push of the first `count` nodes on a node is no larger than `count`
/// times the limit of one contribution.
pub proof fn lemma_repulsion_sum_bounded(
    config: Config,
    positions: Seq<Position>,
    node: int,
    count: nat,
)
    requires
        config.valid(),
        all_in_world(positions),
        0 <= node < positions.len(),
        count <= positions.len(),
    ensures
        repulsion_sum(config, positions, node, count).within(count * CONTRIBUTION_LIMIT),
    decreases count,
{
    if count > 0 {
        lemma_repulsion_sum_bounded(config, positions, node, (count - 1) as nat);
        lemma_electrostatic_force_bounded(config, positions[node], positions[count - 1]);
        assert(count * CONTRIBUTION_LIMIT == (count - 1) * CONTRIBUTION_LIMIT + CONTRIBUTION_LIMIT)
            by (nonlinear_arith);
    }
}

/// A step keeps every node inside the world, whatever the forces are.
pub proof fn lemma_step_keeps_wf(state: SimulationModel)
    requires
        state.wf(),
    ensures
        state.step().wf(),
        state.step().graph == state.graph,
        state.step().velocities == state.velocities,
        state.step().config == state.config,
{
    let next = state.step();
    assert forall|i: int| 0 <= i < next.positions.len() implies (
    #[trigger] next.positions[i]).in_world() by {
        assert(state.positions[i].in_world());
    }
}

/// Moves one coordinate by one step.
fn advance(config: &Config, position: i64, velocity: i64, force: i128) -> (next: i64)
    requires
        config.valid(),
        -WORLD_LIMIT <= position <= WORLD_LIMIT,
    ensures
        next == moved_coordinate(*config, position as int, velocity as int, force as int),
        -WORLD_LIMIT <= next <= WORLD_LIMIT,
{
    let dt: i128 = config.dt as i128;
    let ghost drift = 2 * SCALE * velocity * config.dt;
    let ghost divisor = 2 * SCALE * SCALE;
    let rate: i128 = 2_000 * (velocity as i128);
    proof {
        assert(divisor == 2_000_000);
        assert(rate == 2 * SCALE * velocity);
        assert(drift == rate * config.dt);
        assert(-200_000_000_000_000_000_000_000_000 <= rate * config.dt
            <= 200_000_000_000_000_000_000_000_000) by (nonlinear_arith)
            requires
                1 <= config.dt <= MAX_TIME_STEP,
                -20_000_000_000_000_000_000_000 <= rate <= 20_000_000_000_000_000_000_000,
        ;
        assert(1 <= dt * dt <= 100_000_000) by (nonlinear_arith)
            requires
                1 <= dt <= MAX_TIME_STEP,
        ;
    }
    if force > DECISIVE_FORCE {
        proof {
            let top = drift + force * config.dt * config.dt;
            assert(force * config.dt * config.dt >= force) by (nonlinear_arith)
                requires
                    force > 0,
                    config.dt >= 1,
            ;
            lemma_trunc_div_at_least(top, divisor, 2 * WORLD_LIMIT);
        }
        WORLD_LIMIT
    } else if force < -DECISIVE_FORCE {
        proof {
            let top = drift + force * config.dt * config.dt;
            assert(force * config.dt * config.dt <= force) by (nonlinear_arith)
                requires
                    force < 0,
                    config.dt >= 1,
            ;
            lemma_trunc_div_at_least(-top, divisor, 2 * WORLD_LIMIT);
            lemma_trunc_div_odd(top, divisor);
        }
        -WORLD_LIMIT
    } else {
        assert(-DECISIVE_FORCE * 100_000_000 <= force * (dt * dt) <= DECISIVE_FORCE * 100_000_000)
            by (nonlinear_arith)
            requires
                -DECISIVE_FORCE <= force <= DECISIVE_FORCE,
                1 <= dt * dt <= 100_000_000,
        ;
        assert(force * (dt * dt) == force * config.dt * config.dt) by (nonlinear_arith)
            requires
                dt == config.dt,
        ;
        let square: i128 = dt * dt;
        let top: i128 = rate * dt + force * square;
        let shift: i128 = top / 2_000_000;
        proof {
            lemma_trunc_div_bound(top as int, divisor, magnitude(top as int));
        }
        let target: i128 = position as i128 + shift;
        if target > WORLD_LIMIT as i128 {
            WORLD_LIMIT
        } else if target < -(WORLD_LIMIT as i128) {
            -WORLD_LIMIT
        } else {
            target as i64
        }
    }
}

/// A frozen graph and the state of its nodes.
pub struct Simulation {
    graph: Graph,
    edges: Vec<Edge>,
    positions: Vec<Position>,
    velocities: Vec<Velocity>,
    forces: Vec<Force>,
    config: Config,
}

impl View for Simulation {
    type V = SimulationModel;

    closed spec fn view(&self) -> SimulationModel {
        SimulationModel {
            graph: self.graph@,
            positions: self.positions@,
            velocities: self.velocities@,
            forces: Seq::new(self.forces.len() as nat, |i: int| self.forces[i]@),
            config: self.config,
        }
    }
}

impl Simulation {
    /// The invariant: the model is well formed, the graph index is intact
    /// and the stored edge list is the one that the graph derives.
    pub closed spec fn wf(&self) -> bool {
        &&& self@.wf()
        &&& self.graph.wf()
        &&& self.edges@ == self.graph@.all_edges()
    }

    /// A well-formed simulation has a well-formed model.
    pub proof fn lemma_wf(&self)
        requires
            self.wf(),
        ensures
            self@.wf(),
    {
    }

    /// What the stored edges and positions are known to satisfy.
    proof fn lemma_facts(&self)
        requires
            self.wf(),
        ensures
            self.config.valid(),
            self.positions.len() == self.graph.nodes.len(),
            self.velocities.len() == self.positions.len(),
            self.forces.len() == self.positions.len(),
            all_in_world(self.positions@),
            edges_within(self.edges@, self.positions@.len()),
    {
        lemma_no_self_edges(self.graph@);
    }

    /// The graph, with its topology frozen.
    pub fn graph(&self) -> (graph: &Graph)
        requires
            self.wf(),
        ensures
            graph@ == self@.graph,
            graph.wf(),
    {
        &self.graph
    }

    /// The configuration that the simulation runs with.
    pub fn config(&self) -> (config: Config)
        ensures
            config == self@.config,
    {
        self.config
    }

    /// The position of each node, indexed by node id.
    pub fn node_positions_by_id(&self) -> (positions: &Vec<Position>)
        ensures
            positions@ == self@.positions,
    {
        &self.positions
    }

    /// The velocity of each node, indexed by node id.
    pub fn node_velocities_by_id(&self) -> (velocities: &Vec<Velocity>)
        ensures
            velocities@ == self@.velocities,
    {
        &self.velocities
    }

    /// The force on each node, indexed by node id.
    pub fn node_forces_by_id(&self) -> (forces: &Vec<Force>)
        ensures
            forces@.len() == self@.forces.len(),
            forall|i: int| 0 <= i < forces@.len() ==> (#[trigger] forces@[i])@ == self@.forces[i],
    {
        &self.forces
    }

    /// The edges of the graph, as derived when the simulation started.
    pub fn edge_by_id(&self) -> (edges: &Vec<Edge>)
        requires
            self.wf(),
        ensures
            edges@ == self@.graph.all_edges(),
    {
        &self.edges
    }

    /// Sets the force on every node to zero.
    fn clear_all_forces(&mut self)
        requires
            old(self).wf(),
        ensures
            final(self).wf(),
            final(self).graph == old(self).graph,
            final(self).edges == old(self).edges,
            final(self).positions == old(self).positions,
            final(self).velocities == old(self).velocities,
            final(self).config == old(self).config,
            forall|i: int|
                0 <= i < final(self).forces.len() ==> (#[trigger] final(self).forces[i])@
                    == Vector::zero(),
    {
        let count = self.forces.len();
        let mut index: usize = 0;
        while index < count
            invariant
                self.wf(),
                count == self.forces.len(),
                index <= count,
                self.graph == old(self).graph,
                self.edges == old(self).edges,
                self.positions == old(self).positions,
                self.velocities == old(self).velocities,
                self.config == old(self).config,
                forall|i: int| 0 <= i < index ==> (#[trigger] self.forces[i])@ == Vector::zero(),
            decreases count - index,
        {
            self.forces[index] = Force { x: 0, y: 0 };
            index += 1;
        }
    }

    /// Adds a force to the force on one node.
    fn apply_force_to_node(&mut self, node_id_to_match: usize, force_to_apply: Force)
        requires
            old(self).wf(),
            node_id_to_match < old(self).forces.len(),
            i128::MIN <= old(self).forces[node_id_to_match as int].x + force_to_apply.x <= i128::MAX,
            i128::MIN <= old(self).forces[node_id_to_match as int].y + force_to_apply.y <= i128::MAX,
        ensures
            final(self).wf(),
            final(self).graph == old(self).graph,
            final(self).edges == old(self).edges,
            final(self).positions == old(self).positions,
            final(self).velocities == old(self).velocities,
            final(self).config == old(self).config,
            final(self).forces.len() == old(self).forces.len(),
            final(self).forces[node_id_to_match as int]@ == old(self).forces[node_id_to_match as int]@.plus(
                force_to_apply@,
            ),
            forall|i: int|
                0 <= i < final(self).forces.len() && i != node_id_to_match ==> final(self).forces[i]
                    == old(self).forces[i],
    {
        let current = self.forces[node_id_to_match];
        self.forces[node_id_to_match] = Force {
            x: current.x + force_to_apply.x,
            y: current.y + force_to_apply.y,
        };
    }

    /// Adds the pull of every edge to the forces on its two ends.
    fn apply_attractive_forces(&mut self)
        requires
            old(self).wf(),
            forall|i: int|
                0 <= i < old(self).forces.len() ==> (#[trigger] old(self).forces[i])@
                    == Vector::zero(),
        ensures
            final(self).wf(),
            final(self).graph == old(self).graph,
            final(self).edges == old(self).edges,
            final(self).positions == old(self).positions,
            final(self).velocities == old(self).velocities,
            final(self).config == old(self).config,
            forall|i: int|
                0 <= i < final(self).forces.len() ==> (#[trigger] final(self).forces[i])@
                    == attraction(
                    final(self).config,
                    final(self).positions@,
                    final(self).edges@,
                    i,
                    final(self).edges@.len(),
                ),
    {
        let count = self.edges.len();
        let mut index: usize = 0;
        while index < count
            invariant
                self.wf(),
                count == self.edges.len(),
                index <= count,
                self.graph == old(self).graph,
                self.edges == old(self).edges,
                self.positions == old(self).positions,
                self.velocities == old(self).velocities,
                self.config == old(self).config,
                forall|i: int|
                    0 <= i < self.forces.len() ==> (#[trigger] self.forces[i])@ == attraction(
                        self.config,
                        self.positions@,
                        self.edges@,
                        i,
                        index as nat,
                    ),
            decreases count - index,
        {
            let edge = self.edges[index];
            let source = edge.source_node_id;
            let destination = edge.destination_node_id;
            proof {
                self.lemma_facts();
                lemma_no_self_edges(self.graph@);
                assert(self.edges@[index as int].source_node_id
                    != self.edges@[index as int].destination_node_id);
                lemma_attraction_bounded(
                    self.config,
                    self.positions@,
                    self.edges@,
                    source as int,
                    index as nat,
                );
                lemma_attraction_bounded(
                    self.config,
                    self.positions@,
                    self.edges@,
                    destination as int,
                    index as nat,
                );
                assert(index * CONTRIBUTION_LIMIT <= usize::MAX * CONTRIBUTION_LIMIT)
                    by (nonlinear_arith)
                    requires
                        index <= usize::MAX,
                ;
            }
            let pull = calculate_spring_forces_between_nodes(
                &self.config,
                &self.positions[destination],
                &self.positions[source],
            );
            let ghost before = self.forces@;
            self.apply_force_to_node(source, pull);
            self.apply_force_to_node(destination, Force { x: -pull.x, y: -pull.y });
            proof {
                assert forall|i: int| 0 <= i < self.forces.len() implies (
                #[trigger] self.forces[i])@ == attraction(
                    self.config,
                    self.positions@,
                    self.edges@,
                    i,
                    (index + 1) as nat,
                ) by {
                    assert(before[i]@ == attraction(
                        self.config,
                        self.positions@,
                        self.edges@,
                        i,
                        index as nat,
                    ));
                }
            }
            index += 1;
        }
    }

    /// Adds to the force on every node the push of every other node in
    /// range.
    fn apply_repulsive_forces(&mut self)
        requires
            old(self).wf(),
            forall|i: int|
                0 <= i < old(self).forces.len() ==> (#[trigger] old(self).forces[i])@
                    == attraction(
                    old(self).config,
                    old(self).positions@,
                    old(self).edges@,
                    i,
                    old(self).edges@.len(),
                ),
        ensures
            final(self).wf(),
            final(self).graph == old(self).graph,
            final(self).edges == old(self).edges,
            final(self).positions == old(self).positions,
            final(self).velocities == old(self).velocities,
            final(self).config == old(self).config,
            forall|i: int|
                0 <= i < final(self).forces.len() ==> (#[trigger] final(self).forces[i])@
                    == net_force(final(self).config, final(self).positions@, final(self).edges@, i),
    {
        let count = self.positions.len();
        let mut node: usize = 0;
        while node < count
            invariant
                self.wf(),
                count == self.positions.len(),
                node <= count,
                self.graph == old(self).graph,
                self.edges == old(self).edges,
                self.positions == old(self).positions,
                self.velocities == old(self).velocities,
                self.config == old(self).config,
                forall|i: int|
                    0 <= i < node ==> (#[trigger] self.forces[i])@ == net_force(
                        self.config,
                        self.positions@,
                        self.edges@,
                        i,
                    ),
                forall|i: int|
                    node <= i < self.forces.len() ==> (#[trigger] self.forces[i])@ == attraction(
                        self.config,
                        self.positions@,
                        self.edges@,
                        i,
                        self.edges@.len(),
                    ),
            decreases count - node,
        {
            proof {
                self.lemma_facts();
            }
            let mut other: usize = 0;
            while other < count
                invariant
                    self.wf(),
                    count == self.positions.len(),
                    count == self.forces.len(),
                    node < count,
                    other <= count,
                    self.graph == old(self).graph,
                    self.edges == old(self).edges,
                    self.positions == old(self).positions,
                    self.velocities == old(self).velocities,
                    self.config == old(self).config,
                    forall|i: int|
                        0 <= i < node ==> (#[trigger] self.forces[i])@ == net_force(
                            self.config,
                            self.positions@,
                            self.edges@,
                            i,
                        ),
                    forall|i: int|
                        node < i < self.forces.len() ==> (#[trigger] self.forces[i])@ == attraction(
                            self.config,
                            self.positions@,
                            self.edges@,
                            i,
                            self.edges@.len(),
                        ),
                    self.forces[node as int]@ == attraction(
                        self.config,
                        self.positions@,
                        self.edges@,
                        node as int,
                        self.edges@.len(),
                    ).plus(repulsion_sum(self.config, self.positions@, node as int, other as nat)),
                decreases count - other,
            {
                proof {
                    self.lemma_facts();
                    lemma_attraction_bounded(
                        self.config,
                        self.positions@,
                        self.edges@,
                        node as int,
                        self.edges@.len(),
                    );
                    lemma_repulsion_sum_bounded(
                        self.config,
                        self.positions@,
                        node as int,
                        other as nat,
                    );
                    assert(self.edges@.len() == self.edges.len());
                    assert(self.edges@.len() * CONTRIBUTION_LIMIT <= usize::MAX
                        * CONTRIBUTION_LIMIT && other * CONTRIBUTION_LIMIT <= usize::MAX
                        * CONTRIBUTION_LIMIT) by (nonlinear_arith)
                        requires
                            self.edges@.len() <= usize::MAX,
                            other <= usize::MAX,
                    ;
                }
                if other != node && is_in_range(
                    &self.config,
                    &self.positions[node],
                    &self.positions[other],
                ) {
                    let force = calculate_electrostatic_forces_between_nodes(
                        &self.config,
                        &self.positions[node],
                        &self.positions[other],
                    );
                    self.apply_force_to_node(node, Force { x: -force.x, y: -force.y });
                }
                other += 1;
            }
            node += 1;
        }
    }

    /// Moves every node by one step under the force that acts on it.
    fn simulate_time_step(&mut self)
        requires
            old(self).wf(),
        ensures
            final(self).wf(),
            final(self).graph == old(self).graph,
            final(self).edges == old(self).edges,
            final(self).forces == old(self).forces,
            final(self).velocities == old(self).velocities,
            final(self).config == old(self).config,
            final(self).positions.len() == old(self).positions.len(),
            forall|i: int|
                0 <= i < final(self).positions.len() ==> #[trigger] final(self).positions[i]
                    == moved(
                    old(self).config,
                    old(self).positions[i],
                    old(self).velocities[i],
                    old(self).forces[i]@,
                ),
    {
        let count = self.positions.len();
        let mut index: usize = 0;
        while index < count
            invariant
                self.graph.wf(),
                self@.graph.wf(),
                self.graph.state == GraphState::Simulating,
                self.config.valid(),
                self.edges@ == self.graph@.all_edges(),
                count == self.positions.len(),
                count == old(self).positions.len(),
                count == self.graph.nodes.len(),
                count == self.velocities.len(),
                count == self.forces.len(),
                index <= count,
                self.graph == old(self).graph,
                self.edges == old(self).edges,
                self.forces == old(self).forces,
                self.velocities == old(self).velocities,
                self.config == old(self).config,
                all_in_world(self.positions@),
                forall|i: int|
                    0 <= i < index ==> #[trigger] self.positions[i] == moved(
                        self.config,
                        old(self).positions[i],
                        self.velocities[i],
                        self.forces[i]@,
                    ),
                forall|i: int|
                    index <= i < count ==> #[trigger] self.positions[i] == old(self).positions[i],
            decreases count - index,
        {
            let position = self.positions[index];
            let velocity = self.velocities[index];
            let force = self.forces[index];
            assert(position.in_world());
            let x = advance(&self.config, position.x, velocity.x, force.x);
            let y = advance(&self.config, position.y, velocity.y, force.y);
            self.positions[index] = Position { x, y };
            index += 1;
        }
    }
}

/// Advances the simulation by one step: clears the forces, adds the
/// attraction along every edge and the repulsion between every pair of
/// nodes in range, and moves every node.
///
/// Afterwards the force on each node is the net force that moved it, and
/// these forces add up to zero. The step looks at every pair of nodes.
pub fn physics_update(simulation: &mut Simulation)
    requires
        old(simulation).wf(),
    ensures
        final(simulation).wf(),
        final(simulation)@ == old(simulation)@.step(),
        final(simulation)@.graph == old(simulation)@.graph,
        final(simulation)@.velocities == old(simulation)@.velocities,
        final(simulation)@.config == old(simulation)@.config,
        total_force(final(simulation)@.forces, final(simulation)@.forces.len()) == Vector::zero(),
{
    simulation.clear_all_forces();
    simulation.apply_attractive_forces();
    simulation.apply_repulsive_forces();
    simulation.simulate_time_step();
    proof {
        let next = old(simulation)@.step();
        assert(final(simulation)@.forces =~= next.forces);
        assert(final(simulation)@.positions =~= next.positions);
        lemma_net_forces_cancel(old(simulation)@);
    }
}

/// Starts a simulation: freezes the graph, derives its edges and puts each
/// node where the layout says.
///
/// The simulation starts if and only if the configuration is valid and the
/// layout holds one position inside the world for each node.
pub fn spawn_initial(graph: Graph, layout: Vec<Position>, config: Config) -> (started: Result<
    Simulation,
    SimulationError,
>)
    requires
        graph.wf(),
    ensures
        match started {
            Ok(simulation) => {
                &&& config.valid()
                &&& layout@.len() == graph@.nodes.len()
                &&& all_in_world(layout@)
                &&& simulation.wf()
                &&& simulation@ == SimulationModel::initial(graph@, layout@, config)
            },
            Err(SimulationError::InvalidConfig) => !config.valid(),
            Err(SimulationError::LayoutMismatch) => config.valid() && layout@.len()
                != graph@.nodes.len(),
            Err(SimulationError::PositionOutOfWorld) => config.valid() && layout@.len()
                == graph@.nodes.len() && !all_in_world(layout@),
        },
{
    if !config.is_valid() {
        return Err(SimulationError::InvalidConfig);
    }
    let count = graph.nodes.len();
    if layout.len() != count {
        return Err(SimulationError::LayoutMismatch);
    }
    let mut velocities: Vec<Velocity> = Vec::new();
    let mut forces: Vec<Force> = Vec::new();
    let mut index: usize = 0;
    while index < count
        invariant
            graph.wf(),
            config.valid(),
            count == graph.nodes.len(),
            count == layout.len(),
            index <= count,
            velocities.len() == index,
            forces.len() == index,
            forall|i: int| 0 <= i < index ==> (#[trigger] layout[i]).in_world(),
            forall|i: int|
                0 <= i < index ==> #[trigger] velocities[i] == graph.nodes[i].physics_data.velocity,
            forall|i: int| 0 <= i < index ==> #[trigger] forces[i] == graph.nodes[i].physics_data.force,
        decreases count - index,
    {
        if !layout[index].is_in_world() {
            assert(!layout@[index as int].in_world());
            return Err(SimulationError::PositionOutOfWorld);
        }
        velocities.push(graph.nodes[index].physics_data.velocity);
        forces.push(graph.nodes[index].physics_data.force);
        index += 1;
    }
    let ghost before = graph@;
    let mut graph = graph;
    graph.freeze();
    let edges = graph.get_all_edges();
    let simulation = Simulation { graph, edges, positions: layout, velocities, forces, config };
    proof {
        let model = SimulationModel::initial(before, layout@, config);
        assert(simulation@.velocities =~= model.velocities);
        assert(simulation@.forces =~= model.forces);
        assert(simulation@.graph == model.graph);
    }
    Ok(simulation)
}

} // verus!
