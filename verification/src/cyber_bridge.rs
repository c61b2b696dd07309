//! Joining nodes to models of the physical world.
pub mod actuators;
pub mod bridge_laws;
pub mod node;
pub mod physics;
pub mod resd;
