//! Relaying frames between nodes over a message bus, with delays, losses and radio.
pub mod batches;
pub mod chance;
pub mod handlers;
pub mod links;
pub mod quanta;
pub mod radio;
pub mod reach;
pub mod relay;
pub mod relay_laws;
