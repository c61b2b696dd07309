//! The coordinator over framed sockets.
pub mod coordinator;
pub mod frame_laws;
pub mod frames;
pub mod laws;
pub mod machine_laws;
pub mod runs;
