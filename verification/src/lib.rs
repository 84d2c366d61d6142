//! Storage planner core library.
//!
//! The verified logic behind the `sp` purchase-planning tool: typed spec
//! parsing, the undo/redo event log, name-or-ID resolution, the decision
//! lifecycle, topology tagging and forking, and export/import identity
//! handling.

pub mod text;
pub mod resolve;
pub mod events;
pub mod remap;
pub mod fresh;
pub mod decision;
pub mod diff;
pub mod topology;
pub mod fields;
pub mod specs;
pub mod export;
pub mod diagram;
pub mod lineage;
pub mod cli;
