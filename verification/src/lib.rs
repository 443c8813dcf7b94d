//! Keeps `.code-workspace` files and Zed's multi-root workspaces in step.
//!
//! This crate is the verified core: the rules that the surrounding programs go by
//! (which root is the project home, what a sync changes, how a stored path is
//! resolved) are functions here with contracts, and `laws` says what they come to.
pub mod components;
pub mod decimal;
pub mod discovery;
pub mod doctor;
pub mod findings;
pub mod hook;
pub mod hook_client;
pub mod json;
pub mod laws;
pub mod lock;
pub mod mapping;
pub mod mcp;
pub mod order;
pub mod paths;
pub mod pinning;
pub mod report;
pub mod search;
pub mod settings;
pub mod sync_engine;
pub mod text;
pub mod workspace_db;
pub mod workspace_file;
pub mod xtask;
