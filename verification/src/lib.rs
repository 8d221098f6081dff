//! A local memory for coding agents: memories as the nodes of a directed graph,
//! with supersession, dependencies, a ready queue, search and a tool server.

pub mod calls;
pub mod change;
pub mod cli;
pub mod config;
pub mod db;
pub mod findings;
pub mod json;
pub mod laws;
pub mod mcp;
pub mod models;
pub mod offers;
pub mod outcomes;
pub mod plans;
pub mod queries;
pub mod reading;
pub mod render;
pub mod requests;
pub mod rows;
pub mod schema;
pub mod search;
pub mod serial;
pub mod store;
pub mod tables;
pub mod text;
pub mod tools;
pub mod wording;

pub use mcp::McpServer;
pub use models::{
    DatabaseStats, Memory, MemoryKind, MemorySearchResult, MemoryStatus, RelatedEntity,
    RelationType, SessionLearning,
};
pub use store::{ConsolidationResult, MemoryStore, RecordOptions, SearchOptions};
