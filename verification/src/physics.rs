//! The forces between two nodes and the rule by which a force moves a node.
//!
//! Every function here is a function of its arguments alone. A spring along
//! an edge pulls its two ends towards the rest length; two nodes closer than
//! the cutoff push each other apart with a force that falls with the square
//! of their distance. Two nodes at the same place exert no force on each
//! other: the direction is undefined there, and the pair is skipped.
//!
//! Quotients are rounded towards zero, so a force and the force on the other
//! end of the pair are exact opposites.

use crate::fixed::{
    clamp, integer_sqrt, isqrt, lemma_isqrt, lemma_isqrt_at_least, lemma_isqrt_below,
    lemma_trunc_div_bound, magnitude, trunc_div, SCALE,
};
use crate::vector::{Force, Position, Vector, Velocity, WORLD_LIMIT};
use vstd::prelude::*;

verus! {

/// The longest time step that a configuration may hold: 10 units of time.
pub const MAX_TIME_STEP: i64 = 10_000;

/// The stiffest spring that a configuration may hold.
pub const MAX_SPRING_CONSTANT: i64 = 100_000;

/// The largest rest length and cutoff that a configuration may hold. No two
/// positions of the world are further apart than this.
pub const MAX_LENGTH: i64 = 3_000_000_000_000;

/// The largest electrostatic constant that a configuration may hold.
pub const MAX_ELECTROSTATIC_CONSTANT: i64 = 1_000_000_000_000;

/// No single spring or repulsion contributes more than this to a component
/// of a force.
pub const CONTRIBUTION_LIMIT: i128 = 1_000_000_000_000_000_000;

/// A force beyond this carries a node to the border of the world in one
/// step, whatever its position and velocity.
pub const DECISIVE_FORCE: i128 = 1_000_000_000_000_000_000_000_000_000;

/// The parameters of the simulation, each a fixed-point number.
#[derive(Clone, Copy, Debug, PartialEq, Eq, Structural)]
pub struct Config {
    /// The length of one integration step.
    pub dt: i64,
    /// The stiffness of the springs along the edges.
    pub spring_constant: i64,
    /// The length at which a spring exerts no force.
    pub rest_length: i64,
    /// The strength of the repulsion between nodes.
    pub electrostatic_constant: i64,
    /// Pairs at this distance or further apart do not repel each other.
    pub repulsion_cutoff: i64,
}

impl Config {
    /// Whether every parameter lies in the range that the arithmetic is
    /// proved for.
    pub open spec fn valid(self) -> bool {
        &&& 1 <= self.dt <= MAX_TIME_STEP
        &&& 0 <= self.spring_constant <= MAX_SPRING_CONSTANT
        &&& 0 <= self.rest_length <= MAX_LENGTH
        &&& 0 <= self.electrostatic_constant <= MAX_ELECTROSTATIC_CONSTANT
        &&& 0 <= self.repulsion_cutoff <= MAX_LENGTH
    }

    /// A step of 0.1, springs of stiffness 1 and rest length 100, an
    /// electrostatic constant of 20000 and a cutoff of 100.
    pub open spec fn standard_spec() -> Config {
        Config {
            dt: 100,
            spring_constant: 1_000,
            rest_length: 100_000,
            electrostatic_constant: 20_000_000,
            repulsion_cutoff: 100_000,
        }
    }

    /// The configuration that the layout runs with unless told otherwise.
    pub fn standard() -> (config: Config)
        ensures
            config == Config::standard_spec(),
            config.valid(),
    {
        Config {
            dt: 100,
            spring_constant: 1_000,
            rest_length: 100_000,
            electrostatic_constant: 20_000_000,
            repulsion_cutoff: 100_000,
        }
    }

    /// Tells whether the configuration is valid.
    pub fn is_valid(&self) -> (ok: bool)
        ensures
            ok == self.valid(),
    {
        1 <= self.dt && self.dt <= MAX_TIME_STEP && 0 <= self.spring_constant
            && self.spring_constant <= MAX_SPRING_CONSTANT && 0 <= self.rest_length
            && self.rest_length <= MAX_LENGTH && 0 <= self.electrostatic_constant
            && self.electrostatic_constant <= MAX_ELECTROSTATIC_CONSTANT && 0
            <= self.repulsion_cutoff && self.repulsion_cutoff <= MAX_LENGTH
    }
}

/// The square of the distance between two positions.
pub open spec fn squared_distance(from: Position, to: Position) -> nat {
    ((to.x - from.x) * (to.x - from.x) + (to.y - from.y) * (to.y - from.y)) as nat
}

/// The distance between two positions, rounded down.
pub open spec fn distance(from: Position, to: Position) -> nat {
    isqrt(squared_distance(from, to))
}

/// One component of the spring force on the far end: the spring constant
/// times the displacement from the rest length, directed against the offset
/// `delta` when the spring is stretched.
pub open spec fn spring_component(config: Config, delta: int, length: int) -> int {
    trunc_div(-(config.spring_constant * (length - config.rest_length) * delta), SCALE * length)
}

/// The force that the spring between `source` and `destination` exerts on
/// `destination`. It points towards `source` when the spring is longer than
/// the rest length, away from it when it is shorter, and vanishes where the
/// two coincide.
pub open spec fn spring_force(config: Config, source: Position, destination: Position) -> Vector {
    let length = distance(source, destination) as int;
    if length == 0 {
        Vector::zero()
    } else {
        Vector {
            x: spring_component(config, destination.x - source.x, length),
            y: spring_component(config, destination.y - source.y, length),
        }
    }
}

/// One component of the electrostatic force: the electrostatic constant
/// divided by the squared distance, along the offset `delta`.
pub open spec fn electrostatic_component(
    config: Config,
    delta: int,
    squared: int,
    length: int,
) -> int {
    trunc_div(config.electrostatic_constant * SCALE * SCALE * delta, squared * length)
}

/// The electrostatic force between `source` and `destination`, directed from
/// `source` to `destination`. It vanishes where the two coincide.
pub open spec fn electrostatic_force(
    config: Config,
    source: Position,
    destination: Position,
) -> Vector {
    let squared = squared_distance(source, destination) as int;
    let length = distance(source, destination) as int;
    if length == 0 {
        Vector::zero()
    } else {
        Vector {
            x: electrostatic_component(config, destination.x - source.x, squared, length),
            y: electrostatic_component(config, destination.y - source.y, squared, length),
        }
    }
}

/// Whether two positions are closer to each other than the cutoff.
pub open spec fn in_range(config: Config, first: Position, second: Position) -> bool {
    squared_distance(first, second) < config.repulsion_cutoff * config.repulsion_cutoff
}

/// The repulsion that the node at `other` exerts on the node at `node`: it
/// pushes `node` away from `other` if the two are in range, and is zero
/// otherwise.
pub open spec fn repulsion(config: Config, node: Position, other: Position) -> Vector {
    if in_range(config, node, other) {
        electrostatic_force(config, node, other).negated()
    } else {
        Vector::zero()
    }
}

/// How far one step moves a coordinate: `velocity * dt + force * dt * dt / 2`.
pub open spec fn displacement(config: Config, velocity: int, force: int) -> int {
    trunc_div(
        2 * SCALE * velocity * config.dt + force * config.dt * config.dt,
        2 * SCALE * SCALE,
    )
}

/// A coordinate after one step. A step that would leave the world ends at
/// its border.
pub open spec fn moved_coordinate(config: Config, position: int, velocity: int, force: int) -> int {
    clamp(position + displacement(config, velocity, force), WORLD_LIMIT as int)
}

/// A position after one step under the given velocity and force.
pub open spec fn moved(
    config: Config,
    position: Position,
    velocity: Velocity,
    force: Vector,
) -> Position {
    Position {
        x: moved_coordinate(config, position.x as int, velocity.x as int, force.x) as i64,
        y: moved_coordinate(config, position.y as int, velocity.y as int, force.y) as i64,
    }
}

/// What is known of the offsets between two positions of the world: neither
/// offset is longer than the distance, and the distance fits the arithmetic.
pub proof fn lemma_offsets(from: Position, to: Position)
    requires
        from.in_world(),
        to.in_world(),
    ensures
        magnitude(to.x - from.x) <= 2 * WORLD_LIMIT,
        magnitude(to.y - from.y) <= 2 * WORLD_LIMIT,
        squared_distance(from, to) == (to.x - from.x) * (to.x - from.x) + (to.y - from.y) * (to.y
            - from.y),
        squared_distance(from, to) <= 8 * WORLD_LIMIT * WORLD_LIMIT,
        magnitude(to.x - from.x) <= distance(from, to),
        magnitude(to.y - from.y) <= distance(from, to),
        distance(from, to) <= MAX_LENGTH,
        distance(from, to) * distance(from, to) <= squared_distance(from, to),
        distance(from, to) == 0 <==> from == to,
{
    let dx = to.x - from.x;
    let dy = to.y - from.y;
    let ax = magnitude(dx);
    let ay = magnitude(dy);
    let limit = 2 * WORLD_LIMIT;
    assert(dx * dx == ax * ax && dy * dy == ay * ay) by (nonlinear_arith)
        requires
            ax == magnitude(dx),
            ay == magnitude(dy),
    ;
    assert(0 <= ax * ax <= limit * limit && 0 <= ay * ay <= limit * limit) by (nonlinear_arith)
        requires
            0 <= ax <= limit,
            0 <= ay <= limit,
    ;
    let squared = squared_distance(from, to);
    assert(squared == dx * dx + dy * dy);
    assert(limit * limit == 4 * WORLD_LIMIT * WORLD_LIMIT) by (nonlinear_arith)
        requires
            limit == 2 * WORLD_LIMIT,
    ;
    lemma_isqrt(squared);
    lemma_isqrt_at_least(ax, squared);
    lemma_isqrt_at_least(ay, squared);
    assert(squared < MAX_LENGTH * MAX_LENGTH) by (nonlinear_arith)
        requires
            squared <= 2 * (limit * limit),
            limit == 2 * WORLD_LIMIT,
    ;
    lemma_isqrt_below(MAX_LENGTH as int, squared);
    if from != to {
        assert(ax >= 1 || ay >= 1);
    } else {
        assert(dx * dx == 0 && dy * dy == 0) by (nonlinear_arith)
            requires
                dx == 0,
                dy == 0,
        ;
    }
}

/// A spring contributes no more than the limit to either component.
pub proof fn lemma_spring_force_bounded(config: Config, source: Position, destination: Position)
    requires
        config.valid(),
        source.in_world(),
        destination.in_world(),
    ensures
        spring_force(config, source, destination).within(CONTRIBUTION_LIMIT as int),
{
    let length = distance(source, destination) as int;
    lemma_offsets(source, destination);
    if length != 0 {
        lemma_spring_component_bounded(config, destination.x - source.x, length);
        lemma_spring_component_bounded(config, destination.y - source.y, length);
    }
}

/// One component of a spring force is no larger than the spring constant
/// times the displacement.
pub proof fn lemma_spring_component_bounded(config: Config, delta: int, length: int)
    requires
        config.valid(),
        0 < length <= MAX_LENGTH,
        magnitude(delta) <= length,
    ensures
        magnitude(spring_component(config, delta, length)) <= CONTRIBUTION_LIMIT,
        magnitude(config.spring_constant * (length - config.rest_length)) <= MAX_SPRING_CONSTANT
            * MAX_LENGTH,
        magnitude(config.spring_constant * (length - config.rest_length) * delta)
            <= MAX_SPRING_CONSTANT * MAX_LENGTH * MAX_LENGTH,
{
    let k = config.spring_constant as int;
    let stretch = length - config.rest_length;
    let pull = k * stretch;
    let a = magnitude(delta);
    let s = magnitude(stretch);
    let bound = MAX_SPRING_CONSTANT * MAX_LENGTH;
    assert(magnitude(pull) == k * s && 0 <= k * s <= bound) by (nonlinear_arith)
        requires
            pull == k * stretch,
            s == magnitude(stretch),
            0 <= k <= MAX_SPRING_CONSTANT,
            0 <= s <= MAX_LENGTH,
            bound == MAX_SPRING_CONSTANT * MAX_LENGTH,
    ;
    let top = -(pull * delta);
    assert(magnitude(top) == magnitude(pull) * a) by (nonlinear_arith)
        requires
            top == -(pull * delta),
            a == magnitude(delta),
    ;
    assert(magnitude(pull) * a <= bound * (SCALE * length) && magnitude(pull) * a <= bound
        * MAX_LENGTH) by (nonlinear_arith)
        requires
            0 <= magnitude(pull) <= bound,
            0 <= a <= length,
            length <= MAX_LENGTH,
            SCALE >= 1,
    ;
    assert(SCALE * length > 0) by (nonlinear_arith)
        requires
            length > 0,
            SCALE > 0,
    ;
    assert(magnitude(pull * delta) == magnitude(top));
    lemma_trunc_div_bound(top, SCALE * length, bound);
}

/// A repulsion contributes no more than the limit to either component.
pub proof fn lemma_electrostatic_force_bounded(
    config: Config,
    source: Position,
    destination: Position,
)
    requires
        config.valid(),
        source.in_world(),
        destination.in_world(),
    ensures
        electrostatic_force(config, source, destination).within(CONTRIBUTION_LIMIT as int),
        repulsion(config, source, destination).within(CONTRIBUTION_LIMIT as int),
{
    let length = distance(source, destination) as int;
    let squared = squared_distance(source, destination) as int;
    lemma_offsets(source, destination);
    if length != 0 {
        assert(squared >= 1) by (nonlinear_arith)
            requires
                length >= 1,
                length * length <= squared,
        ;
        lemma_electrostatic_component_bounded(config, destination.x - source.x, squared, length);
        lemma_electrostatic_component_bounded(config, destination.y - source.y, squared, length);
    }
}

/// One component of an electrostatic force is no larger than the
/// electrostatic constant.
pub proof fn lemma_electrostatic_component_bounded(
    config: Config,
    delta: int,
    squared: int,
    length: int,
)
    requires
        config.valid(),
        0 < length <= MAX_LENGTH,
        1 <= squared <= 8 * WORLD_LIMIT * WORLD_LIMIT,
        magnitude(delta) <= length,
    ensures
        magnitude(electrostatic_component(config, delta, squared, length)) <= CONTRIBUTION_LIMIT,
        magnitude(config.electrostatic_constant * SCALE * SCALE * delta)
            <= MAX_ELECTROSTATIC_CONSTANT * SCALE * SCALE * MAX_LENGTH,
        0 < squared * length <= 8 * WORLD_LIMIT * WORLD_LIMIT * MAX_LENGTH,
{
    let charge = config.electrostatic_constant * SCALE * SCALE;
    let a = magnitude(delta);
    let top = charge * delta;
    let bottom = squared * length;
    assert(0 <= charge <= MAX_ELECTROSTATIC_CONSTANT * SCALE * SCALE);
    assert(magnitude(top) == charge * a) by (nonlinear_arith)
        requires
            top == charge * delta,
            a == magnitude(delta),
            charge >= 0,
    ;
    assert(0 < bottom <= 8 * WORLD_LIMIT * WORLD_LIMIT * MAX_LENGTH && length <= bottom)
        by (nonlinear_arith)
        requires
            bottom == squared * length,
            1 <= squared <= 8 * WORLD_LIMIT * WORLD_LIMIT,
            0 < length <= MAX_LENGTH,
    ;
    assert(charge * a <= charge * bottom && charge * a <= MAX_ELECTROSTATIC_CONSTANT * SCALE
        * SCALE * MAX_LENGTH) by (nonlinear_arith)
        requires
            0 <= charge <= MAX_ELECTROSTATIC_CONSTANT * SCALE * SCALE,
            0 <= a <= length,
            length <= bottom,
            length <= MAX_LENGTH,
    ;
    lemma_trunc_div_bound(top, bottom, charge);
}

/// The offsets between two positions and the squared distance, computed.
fn offsets(from: &Position, to: &Position) -> (result: (i128, i128, u128))
    requires
        from.in_world(),
        to.in_world(),
    ensures
        result.0 == to.x - from.x,
        result.1 == to.y - from.y,
        result.2 == squared_distance(*from, *to),
{
    proof {
        lemma_offsets(*from, *to);
    }
    let dx: i128 = to.x as i128 - from.x as i128;
    let dy: i128 = to.y as i128 - from.y as i128;
    assert(0 <= dx * dx <= 4 * WORLD_LIMIT * WORLD_LIMIT && 0 <= dy * dy <= 4 * WORLD_LIMIT
        * WORLD_LIMIT) by (nonlinear_arith)
        requires
            -2 * WORLD_LIMIT <= dx <= 2 * WORLD_LIMIT,
            -2 * WORLD_LIMIT <= dy <= 2 * WORLD_LIMIT,
    ;
    let squared: i128 = dx * dx + dy * dy;
    (dx, dy, squared as u128)
}

/// Computes the force that the spring between the two positions exerts on
/// `destination_node_position`.
pub fn calculate_spring_forces_between_nodes(
    config: &Config,
    source_node_position: &Position,
    destination_node_position: &Position,
) -> (force: Force)
    requires
        config.valid(),
        source_node_position.in_world(),
        destination_node_position.in_world(),
    ensures
        force@ == spring_force(*config, *source_node_position, *destination_node_position),
        force@.within(CONTRIBUTION_LIMIT as int),
{
    let (dx, dy, squared) = offsets(source_node_position, destination_node_position);
    let current_length: i128 = integer_sqrt(squared) as i128;
    proof {
        lemma_offsets(*source_node_position, *destination_node_position);
        lemma_spring_force_bounded(*config, *source_node_position, *destination_node_position);
    }
    if current_length == 0 {
        return Force { x: 0, y: 0 };
    }
    proof {
        lemma_spring_component_bounded(*config, dx as int, current_length as int);
        lemma_spring_component_bounded(*config, dy as int, current_length as int);
    }
    let displacement_from_rest: i128 = current_length - config.rest_length as i128;
    let pull: i128 = config.spring_constant as i128 * displacement_from_rest;
    let scaled_length: i128 = SCALE as i128 * current_length;
    Force { x: -(pull * dx) / scaled_length, y: -(pull * dy) / scaled_length }
}

/// Computes the electrostatic force between the two positions, directed
/// from the first to the second.
pub fn calculate_electrostatic_forces_between_nodes(
    config: &Config,
    source_node_position: &Position,
    destination_node_position: &Position,
) -> (force: Force)
    requires
        config.valid(),
        source_node_position.in_world(),
        destination_node_position.in_world(),
    ensures
        force@ == electrostatic_force(*config, *source_node_position, *destination_node_position),
        force@.within(CONTRIBUTION_LIMIT as int),
{
    let (dx, dy, squared) = offsets(source_node_position, destination_node_position);
    let distance_between_nodes: i128 = integer_sqrt(squared) as i128;
    proof {
        lemma_offsets(*source_node_position, *destination_node_position);
        lemma_electrostatic_force_bounded(
            *config,
            *source_node_position,
            *destination_node_position,
        );
    }
    if distance_between_nodes == 0 {
        return Force { x: 0, y: 0 };
    }
    proof {
        assert(squared >= 1) by (nonlinear_arith)
            requires
                distance_between_nodes >= 1,
                distance_between_nodes * distance_between_nodes <= squared,
        ;
        lemma_electrostatic_component_bounded(
            *config,
            dx as int,
            squared as int,
            distance_between_nodes as int,
        );
        lemma_electrostatic_component_bounded(
            *config,
            dy as int,
            squared as int,
            distance_between_nodes as int,
        );
    }
    let charge: i128 = config.electrostatic_constant as i128 * SCALE as i128 * SCALE as i128;
    let cube: i128 = squared as i128 * distance_between_nodes;
    Force { x: (charge * dx) / cube, y: (charge * dy) / cube }
}

/// Tells whether two positions are closer to each other than the cutoff.
pub fn is_in_range(config: &Config, p0: &Position, p1: &Position) -> (close: bool)
    requires
        config.valid(),
        p0.in_world(),
        p1.in_world(),
    ensures
        close == in_range(*config, *p0, *p1),
{
    let (_dx, _dy, squared) = offsets(p0, p1);
    proof {
        lemma_offsets(*p0, *p1);
    }
    let cutoff: u128 = config.repulsion_cutoff as u128;
    assert(cutoff * cutoff <= MAX_LENGTH * MAX_LENGTH) by (nonlinear_arith)
        requires
            0 <= cutoff <= MAX_LENGTH,
    ;
    squared < cutoff * cutoff
}

} // verus!
