//! Transactional core of a system package manager.
//!
//! The library resolves a desired set of packages from prioritised
//! repositories into a consistent, installable set, and records every
//! resolved set as an immutable, numbered state that can be activated,
//! queried, exported, or pruned.

pub mod alias;
pub mod client;
pub mod laws;
pub mod package;
pub mod registry;
pub mod render;
pub mod state;
pub mod sync;
pub mod system_model;
pub mod transaction;
