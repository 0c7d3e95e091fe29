//! Workspace execution engine for front-end package workspaces: dependency
//! graphs, task planning and scheduling, log capture and rendering, and
//! incremental fingerprints, each with a machine-checked contract.

pub mod commands;
pub mod logger;
pub mod paths;
pub mod text;
pub mod workspace;
