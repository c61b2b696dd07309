//! The coordinator that releases simulation quanta in lock step.
pub mod barrier;
pub mod control;
pub mod coordinator;
pub mod delivery;
pub mod envelope;
pub mod frame_laws;
pub mod frames;
pub mod graph;
pub mod graph_laws;
pub mod laws;
pub mod machine_laws;
pub mod runs;
pub mod session;
pub mod session_laws;
pub mod startup;
pub mod steps;
pub mod submissions;
pub mod topics;
pub mod topology;
pub mod topology_laws;
