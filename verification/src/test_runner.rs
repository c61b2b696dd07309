//! Running firmware in an emulator: what is started, with which arguments, and what is waited for.
pub mod artifacts;
pub mod builder;
pub mod commands;
pub mod context;
pub mod engine;
pub mod environment;
pub mod launcher;
pub mod lints;
pub mod monitors;
pub mod qmp;
pub mod runner_laws;
pub mod spec;
pub mod variables;
