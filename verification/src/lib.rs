//! Force-directed graph layout.
//!
//! A [`graph::Graph`] is built node by node and edge by edge, then handed to
//! [`simulation::spawn_initial`], which freezes it and returns a
//! [`simulation::Simulation`]. Each call of [`simulation::physics_update`]
//! moves the nodes by one step: edges pull their ends towards a rest length,
//! nodes that are close push each other apart.
//!
//! All quantities are fixed-point integers (see [`fixed`]), so that every step
//! is an exact, reproducible function of the state before it.
//!
//! The modules [`graph_laws`], [`physics_laws`], [`momentum`] and
//! [`relaxation`] hold what is proved of the graph and of the forces beyond
//! the contracts of the single functions.

pub mod country;
pub mod fixed;
pub mod graph;
pub mod graph_laws;
pub mod momentum;
pub mod physics;
pub mod physics_laws;
pub mod relaxation;
pub mod simulation;
pub mod vector;
