//! Verified logic of the virtmcu simulation tools.
pub mod coordination;
pub mod coverage;
pub mod cyber_bridge;
pub mod deterministic_coordinator;
pub mod json;
pub mod log_laws;
pub mod log_scan;
pub mod observability;
pub mod provenance;
pub mod replay;
pub mod replay_laws;
pub mod run_laws;
pub mod sorting;
pub mod test_runner;
pub mod text;
pub mod text_laws;
pub mod virtmcu_cli;
pub mod virtmcu_coord;
pub mod virtmcu_run;
pub mod wire;
pub mod zenoh_coordinator;
