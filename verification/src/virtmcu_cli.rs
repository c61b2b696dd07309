//! Looking into a simulation, and preparing what it is built from.
pub mod inspect;
pub mod patch_file;
pub mod patch_laws;
pub mod schema;
pub mod setup;
pub mod source_patch;
pub mod source_texts;
pub mod svd;
pub mod tool_laws;
