//! What holds of the forces, proved over the functions that the contracts
//! of [`crate::physics`] and [`crate::simulation`] speak of.

use crate::fixed::{
    lemma_isqrt, lemma_isqrt_of_square, lemma_trunc_div_cancel, lemma_trunc_div_odd,
    lemma_trunc_div_zero, trunc_div, SCALE,
};
use crate::graph::Edge;
use crate::physics::{
    distance, electrostatic_component, electrostatic_force, in_range, repulsion, spring_component,
    spring_force, squared_distance, Config,
};
use crate::simulation::{edge_pull, push};
use crate::vector::{Position, Vector};
use vstd::prelude::*;

verus! {

/// The distance from `first` to `second` is the distance from `second` to
/// `first`, and so is its square.
pub proof fn lemma_distance_symmetric(first: Position, second: Position)
    ensures
        squared_distance(first, second) == squared_distance(second, first),
        distance(first, second) == distance(second, first),
        distance(first, second) > 0 ==> squared_distance(first, second) > 0,
{
    let dx = second.x - first.x;
    let dy = second.y - first.y;
    assert(dx * dx == (-dx) * (-dx) && dy * dy == (-dy) * (-dy)) by (nonlinear_arith);
    lemma_isqrt(squared_distance(first, second));
    let length = distance(first, second) as int;
    if length > 0 {
        assert(length * length >= 1) by (nonlinear_arith)
            requires
                length >= 1,
        ;
    }
}

/// The spring between two nodes pulls or pushes both ends alike: the force
/// on one end is the exact opposite of the force on the other.
pub proof fn lemma_spring_is_mutual(config: Config, first: Position, second: Position)
    ensures
        spring_force(config, first, second) == spring_force(config, second, first).negated(),
{
    lemma_distance_symmetric(first, second);
    let length = distance(first, second) as int;
    if length != 0 {
        let pull = config.spring_constant * (length - config.rest_length);
        let dx = second.x - first.x;
        let dy = second.y - first.y;
        assert(SCALE * length > 0) by (nonlinear_arith)
            requires
                length > 0,
                SCALE > 0,
        ;
        assert(-(pull * (-dx)) == -(-(pull * dx)) && -(pull * (-dy)) == -(-(pull * dy)))
            by (nonlinear_arith);
        lemma_trunc_div_odd(-(pull * dx), SCALE * length);
        lemma_trunc_div_odd(-(pull * dy), SCALE * length);
        assert(spring_component(config, -dx, length) == -spring_component(config, dx, length));
        assert(spring_component(config, -dy, length) == -spring_component(config, dy, length));
    }
}

/// What an edge does to its source is the exact opposite of what it does to
/// its destination, and it does nothing to any other node.
pub proof fn lemma_edge_pull_is_mutual(config: Config, positions: Seq<Position>, edge: Edge)
    requires
        edge.source_node_id != edge.destination_node_id,
    ensures
        edge_pull(config, positions, edge, edge.source_node_id as int) == edge_pull(
            config,
            positions,
            edge,
            edge.destination_node_id as int,
        ).negated(),
        forall|node: int|
            node != edge.source_node_id && node != edge.destination_node_id ==> #[trigger] edge_pull(
                config,
                positions,
                edge,
                node,
            ) == Vector::zero(),
{
}

/// Two nodes in range push each other apart with forces that are exact
/// opposites; two nodes out of range exert no force on each other.
pub proof fn lemma_repulsion_is_mutual(config: Config, first: Position, second: Position)
    ensures
        in_range(config, first, second) == in_range(config, second, first),
        repulsion(config, first, second) == repulsion(config, second, first).negated(),
        !in_range(config, first, second) ==> repulsion(config, first, second) == Vector::zero()
            && repulsion(config, second, first) == Vector::zero(),
{
    lemma_distance_symmetric(first, second);
    let length = distance(first, second) as int;
    let squared = squared_distance(first, second) as int;
    if length != 0 {
        let charge = config.electrostatic_constant * SCALE * SCALE;
        let dx = second.x - first.x;
        let dy = second.y - first.y;
        assert(squared * length > 0) by (nonlinear_arith)
            requires
                squared > 0,
                length > 0,
        ;
        assert(charge * (-dx) == -(charge * dx) && charge * (-dy) == -(charge * dy))
            by (nonlinear_arith);
        lemma_trunc_div_odd(charge * dx, squared * length);
        lemma_trunc_div_odd(charge * dy, squared * length);
        assert(electrostatic_component(config, -dx, squared, length) == -electrostatic_component(
            config,
            dx,
            squared,
            length,
        ));
        assert(electrostatic_component(config, -dy, squared, length) == -electrostatic_component(
            config,
            dy,
            squared,
            length,
        ));
        assert(electrostatic_force(config, first, second) == electrostatic_force(
            config,
            second,
            first,
        ).negated());
    }
}

/// What node `b` does to node `a` is the exact opposite of what `a` does to
/// `b`, and nothing if the two are out of range.
pub proof fn lemma_push_is_mutual(config: Config, positions: Seq<Position>, a: int, b: int)
    ensures
        push(config, positions, a, b) == push(config, positions, b, a).negated(),
        !in_range(config, positions[a], positions[b]) ==> push(config, positions, a, b)
            == Vector::zero(),
{
    lemma_repulsion_is_mutual(config, positions[a], positions[b]);
}

/// A spring at its rest length exerts no force.
pub proof fn lemma_spring_at_rest(config: Config, source: Position, destination: Position)
    requires
        distance(source, destination) == config.rest_length,
    ensures
        spring_force(config, source, destination) == Vector::zero(),
{
    let length = distance(source, destination) as int;
    if length != 0 {
        let dx = destination.x - source.x;
        let dy = destination.y - source.y;
        assert(SCALE * length > 0) by (nonlinear_arith)
            requires
                length > 0,
                SCALE > 0,
        ;
        assert(config.spring_constant * (length - config.rest_length) * dx == 0
            && config.spring_constant * (length - config.rest_length) * dy == 0)
            by (nonlinear_arith)
            requires
                length == config.rest_length,
        ;
        lemma_trunc_div_zero(SCALE * length);
    }
}

/// The spring force between two nodes on a horizontal line, the second to
/// the right of the first at distance `length`: the spring constant times
/// the displacement from the rest length, directed towards the first node
/// when the spring is stretched, and nothing across the line.
pub proof fn lemma_spring_along_axis(config: Config, source: Position, length: int)
    requires
        length > 0,
        source.x + length <= i64::MAX,
    ensures
        ({
            let destination = Position { x: (source.x + length) as i64, y: source.y };
            spring_force(config, source, destination) == Vector {
                x: trunc_div(-(config.spring_constant * (length - config.rest_length)), SCALE as int),
                y: 0,
            }
        }),
{
    let destination = Position { x: (source.x + length) as i64, y: source.y };
    let pull = config.spring_constant * (length - config.rest_length);
    assert(squared_distance(source, destination) == (length as nat) * (length as nat))
        by (nonlinear_arith)
        requires
            destination.x - source.x == length,
            destination.y - source.y == 0,
            length > 0,
            squared_distance(source, destination) == ((destination.x - source.x) * (destination.x
                - source.x) + (destination.y - source.y) * (destination.y - source.y)) as nat,
    ;
    lemma_isqrt_of_square(length as nat);
    assert(distance(source, destination) == length);
    assert(SCALE * length > 0) by (nonlinear_arith)
        requires
            length > 0,
            SCALE > 0,
    ;
    assert(-(pull * length) == (-pull) * length && pull * 0 == 0) by (nonlinear_arith);
    lemma_trunc_div_cancel(-pull, SCALE as int, length);
    lemma_trunc_div_zero(SCALE * length);
}

/// The electrostatic force between two nodes on a horizontal line, the
/// second to the right of the first at distance `length`: the electrostatic
/// constant divided by the square of the distance, directed from the first
/// to the second, and nothing across the line.
pub proof fn lemma_electrostatic_along_axis(config: Config, source: Position, length: int)
    requires
        length > 0,
        source.x + length <= i64::MAX,
    ensures
        ({
            let destination = Position { x: (source.x + length) as i64, y: source.y };
            electrostatic_force(config, source, destination) == Vector {
                x: trunc_div(config.electrostatic_constant * SCALE * SCALE, length * length),
                y: 0,
            }
        }),
{
    let destination = Position { x: (source.x + length) as i64, y: source.y };
    let charge = config.electrostatic_constant * SCALE * SCALE;
    let squared = length * length;
    assert(squared_distance(source, destination) == (length as nat) * (length as nat) && squared
        > 0 && squared * length > 0) by (nonlinear_arith)
        requires
            destination.x - source.x == length,
            destination.y - source.y == 0,
            length > 0,
            squared == length * length,
            squared_distance(source, destination) == ((destination.x - source.x) * (destination.x
                - source.x) + (destination.y - source.y) * (destination.y - source.y)) as nat,
    ;
    lemma_isqrt_of_square(length as nat);
    assert(distance(source, destination) == length);
    assert(charge * 0 == 0) by (nonlinear_arith);
    lemma_trunc_div_cancel(charge, squared, length);
    lemma_trunc_div_zero(squared * length);
}

} // verus!
