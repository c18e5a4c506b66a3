//! Port awareness for local development: parses socket listings and
//! PORTMASTER.md registries, merges them into one view and detects conflicts.

pub mod model;
pub mod config_editor;
pub mod listing;
pub mod merge;
pub mod number;
pub mod owners;
pub mod pattern;
pub mod portmaster;
pub mod projects;
pub mod resolver;
pub mod scanner;
pub mod sorting;
pub mod state;
pub mod text;

pub use model::{
    AppState, Conflict, FixPreview, ParseError, PortCheckResult, PortInfo, PortSource,
    PortmasterEntry, ProjectPort,
};
