//! The topics of the simulation.
pub mod singleton;
pub mod templates;
pub mod wildcard;
