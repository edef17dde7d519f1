//! How a single stretched spring settles.
//!
//! Two nodes at rest on a horizontal line, joined by one edge and at least
//! the rest length apart, move towards each other step by step. With gentle
//! constants the spring never overshoots: the distance falls from step to
//! step and never drops below the rest length.

use crate::fixed::{lemma_trunc_div_odd, lemma_trunc_div_zero, trunc_div, SCALE};
use crate::graph_laws::lemma_no_self_edges;
use crate::physics::{
    displacement, in_range, repulsion, spring_force, squared_distance, Config,
};
use crate::physics_laws::{lemma_spring_along_axis, lemma_spring_is_mutual};
use crate::simulation::{attraction, edge_pull, net_force, push, repulsion_sum, SimulationModel};
use crate::vector::{Vector, Velocity};
use vstd::prelude::*;

verus! {

/// Whether the constants are gentle: a spring moves each of its ends by no
/// more than half of its displacement from the rest length, and nodes at
/// the rest length or further apart do not repel each other.
pub open spec fn gentle(config: Config) -> bool {
    &&& config.spring_constant * config.dt * config.dt <= SCALE * SCALE * SCALE
    &&& config.repulsion_cutoff <= config.rest_length
}

/// Whether `state` is a pair of nodes at rest on a horizontal line, the
/// second `length` to the right of the first, joined by one edge and not
/// closer than the rest length.
pub open spec fn spring_pair(state: SimulationModel, length: int) -> bool {
    &&& state.wf()
    &&& gentle(state.config)
    &&& state.positions.len() == 2
    &&& state.graph.all_edges().len() == 1
    &&& state.velocities[0] == (Velocity { x: 0, y: 0 })
    &&& state.velocities[1] == (Velocity { x: 0, y: 0 })
    &&& state.positions[1].y == state.positions[0].y
    &&& state.positions[1].x - state.positions[0].x == length
    &&& length >= state.config.rest_length
}

/// The standard configuration is valid and gentle.
pub proof fn lemma_standard_is_gentle()
    ensures
        Config::standard_spec().valid(),
        gentle(Config::standard_spec()),
{
}

/// The state after the given number of steps.
pub open spec fn after(state: SimulationModel, ticks: nat) -> SimulationModel
    decreases ticks,
{
    if ticks == 0 {
        state
    } else {
        after(state, (ticks - 1) as nat).step()
    }
}

/// The pull of a stretched spring between two nodes on a horizontal line:
/// the spring constant times the displacement from the rest length.
pub open spec fn axis_pull(config: Config, length: int) -> int {
    trunc_div(config.spring_constant * (length - config.rest_length), SCALE as int)
}

/// The net forces on a spring pair: the spring pulls the first node to the
/// right and the second to the left with the same strength, and nothing
/// else acts.
pub proof fn lemma_spring_pair_forces(state: SimulationModel, length: int)
    requires
        spring_pair(state, length),
    ensures
        state.net_forces()[0] == (Vector { x: axis_pull(state.config, length), y: 0 }),
        state.net_forces()[1] == (Vector { x: -axis_pull(state.config, length), y: 0 }),
        axis_pull(state.config, length) >= 0,
        axis_pull(state.config, length) * SCALE <= state.config.spring_constant * (length
            - state.config.rest_length),
{
    let config = state.config;
    let positions = state.positions;
    let edges = state.graph.all_edges();
    let edge = edges[0];
    let first = positions[0];
    let second = positions[1];
    let stretch = config.spring_constant * (length - config.rest_length);
    let pull = axis_pull(config, length);
    lemma_no_self_edges(state.graph);
    assert(first.in_world() && second.in_world());
    assert(stretch >= 0 && stretch / (SCALE as int) >= 0 && (stretch / (SCALE as int)) * SCALE
        <= stretch) by (nonlinear_arith)
        requires
            stretch == config.spring_constant * (length - config.rest_length),
            config.spring_constant >= 0,
            length >= config.rest_length,
            SCALE == 1000,
    ;
    // The spring.
    let on_second = spring_force(config, first, second);
    lemma_spring_is_mutual(config, first, second);
    if length > 0 {
        lemma_spring_along_axis(config, first, length);
        lemma_trunc_div_odd(stretch, SCALE as int);
        assert(on_second == Vector { x: -pull, y: 0 });
    } else {
        assert(squared_distance(first, second) == 0) by (nonlinear_arith)
            requires
                second.x - first.x == 0,
                second.y - first.y == 0,
                squared_distance(first, second) == ((second.x - first.x) * (second.x - first.x)
                    + (second.y - first.y) * (second.y - first.y)) as nat,
        ;
        assert(stretch == 0) by (nonlinear_arith)
            requires
                stretch == config.spring_constant * (length - config.rest_length),
                length == 0,
                config.rest_length == 0,
        ;
        lemma_trunc_div_zero(SCALE as int);
        assert(on_second == Vector::zero());
    }
    assert(edge_pull(config, positions, edge, 0) == Vector { x: pull, y: 0 });
    assert(edge_pull(config, positions, edge, 1) == Vector { x: -pull, y: 0 });
    assert(attraction(config, positions, edges, 0, 1) == Vector { x: pull, y: 0 }) by {
        assert(attraction(config, positions, edges, 0, 0) == Vector::zero());
    }
    assert(attraction(config, positions, edges, 1, 1) == Vector { x: -pull, y: 0 }) by {
        assert(attraction(config, positions, edges, 1, 0) == Vector::zero());
    }
    // No repulsion at this distance.
    assert(squared_distance(first, second) >= config.repulsion_cutoff * config.repulsion_cutoff
        && squared_distance(second, first) >= config.repulsion_cutoff * config.repulsion_cutoff)
        by (nonlinear_arith)
        requires
            second.x - first.x == length,
            second.y - first.y == 0,
            0 <= config.repulsion_cutoff <= length,
            squared_distance(first, second) == ((second.x - first.x) * (second.x - first.x) + (
            second.y - first.y) * (second.y - first.y)) as nat,
            squared_distance(second, first) == ((first.x - second.x) * (first.x - second.x) + (
            first.y - second.y) * (first.y - second.y)) as nat,
    ;
    assert(!in_range(config, first, second) && !in_range(config, second, first));
    assert(repulsion_sum(config, positions, 0, 2) == Vector::zero()) by {
        assert(repulsion_sum(config, positions, 0, 0) == Vector::zero());
        assert(push(config, positions, 0, 0) == Vector::zero());
        assert(repulsion_sum(config, positions, 0, 1) == Vector::zero());
        assert(push(config, positions, 0, 1) == repulsion(config, first, second));
    }
    assert(repulsion_sum(config, positions, 1, 2) == Vector::zero()) by {
        assert(repulsion_sum(config, positions, 1, 0) == Vector::zero());
        assert(push(config, positions, 1, 0) == repulsion(config, second, first));
        assert(repulsion_sum(config, positions, 1, 1) == Vector::zero());
        assert(push(config, positions, 1, 1) == Vector::zero());
    }
    assert(state.net_forces()[0] == net_force(config, positions, edges, 0));
    assert(state.net_forces()[1] == net_force(config, positions, edges, 1));
}

/// One step of a spring pair gives a spring pair again. The two nodes move
/// towards each other by the same amount; their distance does not grow and
/// does not fall below the rest length.
pub proof fn lemma_spring_pair_step(state: SimulationModel, length: int) -> (next_length: int)
    requires
        spring_pair(state, length),
    ensures
        spring_pair(state.step(), next_length),
        state.config.rest_length <= next_length <= length,
        state.step().positions[0].x - state.positions[0].x == state.positions[1].x
            - state.step().positions[1].x,
        state.step().positions[0].y == state.positions[0].y,
{
    let config = state.config;
    let first = state.positions[0];
    let second = state.positions[1];
    let pull = axis_pull(config, length);
    let square = config.dt * config.dt;
    let divisor = 2 * SCALE * SCALE;
    lemma_spring_pair_forces(state, length);
    assert(first.in_world() && second.in_world());
    // How far each node moves.
    let shift = displacement(config, 0, pull);
    assert(2 * SCALE * 0 * config.dt + pull * config.dt * config.dt == pull * square
        && 2 * SCALE * 0 * config.dt + (-pull) * config.dt * config.dt == -(pull * square)
        && pull * square >= 0 && square >= 1) by (nonlinear_arith)
        requires
            pull >= 0,
            config.dt >= 1,
            square == config.dt * config.dt,
    ;
    lemma_trunc_div_odd(pull * square, divisor);
    assert(displacement(config, 0, -pull) == -shift);
    lemma_trunc_div_zero(divisor);
    assert(displacement(config, 0, 0) == 0);
    assert(shift >= 0 && 2 * shift <= length - config.rest_length) by (nonlinear_arith)
        requires
            shift == (pull * square) / divisor,
            divisor == 2_000_000,
            pull >= 0,
            square >= 1,
            square == config.dt * config.dt,
            pull * 1000 <= config.spring_constant * (length - config.rest_length),
            config.spring_constant * config.dt * config.dt <= 1_000_000_000,
            config.spring_constant >= 0,
            length >= config.rest_length,
    ;
    let next = state.step();
    assert(next.positions[0].x == first.x + shift);
    assert(next.positions[1].x == second.x - shift);
    assert(next.positions[0].y == first.y);
    assert(next.positions[1].y == second.y);
    let next_length = length - 2 * shift;
    assert(next.positions[0].in_world() && next.positions[1].in_world());
    assert forall|i: int| 0 <= i < next.positions.len() implies (
    #[trigger] next.positions[i]).in_world() by {
        if i == 0 {
        } else {
            assert(i == 1);
        }
    }
    next_length
}

/// However many steps a spring pair takes, it stays a spring pair, and its
/// distance lies between the rest length and the distance it started with.
/// By [`lemma_spring_pair_step`] the distance after each step is no larger
/// than before it.
pub proof fn lemma_spring_pair_settles(state: SimulationModel, length: int, ticks: nat) -> (now: int)
    requires
        spring_pair(state, length),
    ensures
        spring_pair(after(state, ticks), now),
        state.config.rest_length <= now <= length,
        after(state, ticks).config == state.config,
        after(state, ticks).positions[0].y == state.positions[0].y,
    decreases ticks,
{
    if ticks == 0 {
        length
    } else {
        let before = lemma_spring_pair_settles(state, length, (ticks - 1) as nat);
        lemma_spring_pair_step(after(state, (ticks - 1) as nat), before)
    }
}

} // verus!
