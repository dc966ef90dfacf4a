//! Resolves a list of mod names against the Modrinth and GitHub registries and plans
//! their download across a fixed pool of workers.
pub mod version;
pub mod sources;
pub mod config;
pub mod emd_state;
pub mod worker;
